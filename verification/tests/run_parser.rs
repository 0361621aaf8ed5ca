use orchestrator::utils::run_parser::{classify, parse_run_list, LineKind, StepType};

fn script_of(step: &(StepType, orchestrator::utils::strmap::StringMap), machine: &str) -> Option<String> {
    step.1.get(&machine.to_string()).cloned()
}

#[test]
fn setup_and_run_phases_give_each_machine_its_script() {
    let text = "¥ SETUP\n¥¥ a b\necho hello\n¥ RUN\n¥¥ a\necho go\n";
    let steps = parse_run_list(text);
    assert_eq!(steps.len(), 2);
    assert_eq!(steps[0].0, StepType::Setup);
    assert_eq!(steps[0].1.len(), 2);
    assert_eq!(script_of(&steps[0], "a"), Some("echo hello\n".to_string()));
    assert_eq!(script_of(&steps[0], "b"), Some("echo hello\n".to_string()));
    assert_eq!(steps[1].0, StepType::Run);
    assert_eq!(steps[1].1.len(), 1);
    assert_eq!(script_of(&steps[1], "a"), Some("echo go\n".to_string()));
}

#[test]
fn text_without_a_phase_has_no_steps() {
    assert!(parse_run_list("").is_empty());
    assert!(parse_run_list("echo hello\n¥¥ a\necho more\n").is_empty());
}

#[test]
fn machines_stay_across_phases_and_the_last_line_needs_no_line_feed() {
    let steps = parse_run_list("¥ SETUP\n¥¥ a\nx\n¥ RUN\ny");
    assert_eq!(steps.len(), 2);
    assert_eq!(script_of(&steps[0], "a"), Some("x\n".to_string()));
    assert_eq!(script_of(&steps[1], "a"), Some("y".to_string()));
}

#[test]
fn a_machine_marker_flushes_the_script_to_the_machines_before_it() {
    let steps = parse_run_list("¥ RUN\n¥¥ a\none\n¥¥ b\ttwo\n1\n2\n");
    assert_eq!(steps.len(), 1);
    assert_eq!(script_of(&steps[0], "a"), Some("one\n".to_string()));
    assert_eq!(script_of(&steps[0], "b"), Some("1\n2\n".to_string()));
    assert_eq!(script_of(&steps[0], "two"), Some("1\n2\n".to_string()));
}

#[test]
fn a_phase_without_script_gives_its_machines_an_empty_one_at_the_end() {
    let steps = parse_run_list("¥ SETUP\n¥¥ a\n");
    assert_eq!(steps.len(), 1);
    assert_eq!(script_of(&steps[0], "a"), Some(String::new()));
    let steps = parse_run_list("¥ SETUP\n¥¥ a\n¥ RUN\n");
    assert_eq!(steps.len(), 2);
    assert_eq!(steps[0].1.len(), 0);
    assert_eq!(script_of(&steps[1], "a"), Some(String::new()));
}

#[test]
fn lines_are_classified_by_the_marker_they_hold() {
    let kind = |s: &str| classify(&s.chars().collect());
    assert_eq!(kind("¥ SETUP\n"), LineKind::Setup);
    assert_eq!(kind("# ¥ SETUP now\n"), LineKind::Setup);
    assert_eq!(kind("¥ RUN\n"), LineKind::Run);
    assert_eq!(kind("¥¥ a b\n"), LineKind::Machines);
    assert_eq!(kind("¥¥\n"), LineKind::Script);
    assert_eq!(kind("¥¥"), LineKind::Script);
    assert_eq!(kind("¥ run\n"), LineKind::Script);
    assert_eq!(kind("echo ¥{token}\n"), LineKind::Script);
    assert_eq!(StepType::Setup.to_string(), "setup");
    assert_eq!(StepType::Run.to_string(), "run");
}
