use orchestrator::utils::replace::{replace, ReplaceError, ReplaceFailPolicy};
use orchestrator::utils::strmap::StringMap;

fn map_of(pairs: &[(&str, &str)]) -> StringMap {
    let mut m = StringMap::new();
    for (k, v) in pairs {
        m.insert(k.to_string(), v.to_string());
    }
    m
}

#[test]
fn warn_keeps_the_unknown_token_and_reports_it_once() {
    let m = map_of(&[("user", "root")]);
    let r = replace("hi ¥{missing} ¥{user}", &m, ReplaceFailPolicy::Warn).unwrap();
    assert_eq!(r.text, "hi ¥{missing} root");
    assert_eq!(r.missing, vec!["missing".to_string()]);
    let r = replace("¥{a} ¥{b} ¥{a} ¥{user}", &m, ReplaceFailPolicy::Warn).unwrap();
    assert_eq!(r.text, "¥{a} ¥{b} ¥{a} root");
    assert_eq!(r.missing, vec!["a".to_string(), "b".to_string()]);
}

#[test]
fn panic_policy_gives_the_first_unknown_token() {
    let m = map_of(&[("user", "root")]);
    match replace("hi ¥{missing} ¥{user} ¥{other}", &m, ReplaceFailPolicy::Panic) {
        Err(ReplaceError::MissingToken(t)) => assert_eq!(t, "missing"),
        Ok(_) => panic!("the unknown token was passed over"),
    }
    let r = replace("hi ¥{user}", &m, ReplaceFailPolicy::Panic).unwrap();
    assert_eq!(r.text, "hi root");
    assert!(r.missing.is_empty());
}

#[test]
fn ignore_keeps_unknown_tokens_silently() {
    let m = map_of(&[("user", "root")]);
    let r = replace("hi ¥{missing} ¥{user}", &m, ReplaceFailPolicy::Ignore).unwrap();
    assert_eq!(r.text, "hi ¥{missing} root");
    assert!(r.missing.is_empty());
}

#[test]
fn text_without_the_token_character_is_unchanged() {
    let m = map_of(&[("user", "root")]);
    let text = "plain {user} text } with { braces\n";
    assert_eq!(replace(text, &m, ReplaceFailPolicy::Ignore).unwrap().text, text);
    assert_eq!(replace("", &m, ReplaceFailPolicy::Panic).unwrap().text, "");
}

#[test]
fn stray_and_unclosed_tokens_stay() {
    let m = map_of(&[("user", "root")]);
    let ignore = ReplaceFailPolicy::Ignore;
    assert_eq!(replace("a ¥ b", &m, ignore).unwrap().text, "a ¥ b");
    assert_eq!(replace("cost: 5¥", &m, ignore).unwrap().text, "cost: 5¥");
    assert_eq!(replace("¥¥{user}", &m, ignore).unwrap().text, "¥¥{user}");
    assert_eq!(replace("x ¥{user", &m, ignore).unwrap().text, "x ¥{user");
    assert_eq!(replace("¥{", &m, ignore).unwrap().text, "¥{");
    assert_eq!(replace("¥{user}¥{user}", &m, ignore).unwrap().text, "rootroot");
    assert_eq!(replace("¥{}", &map_of(&[("", "empty")]), ignore).unwrap().text, "empty");
}

#[test]
fn replacement_text_is_not_read_again() {
    let m = map_of(&[("a", "¥{b}"), ("b", "c")]);
    let once = replace("¥{a}", &m, ReplaceFailPolicy::Ignore).unwrap().text;
    assert_eq!(once, "¥{b}");
    // a second run does read it: values that hold tokens are what idempotence leaves out
    assert_eq!(replace(&once, &m, ReplaceFailPolicy::Ignore).unwrap().text, "c");
}

#[test]
fn a_second_run_changes_nothing_when_values_hold_no_token_character() {
    let m = map_of(&[("user", "root"), ("ip", "10.1.0.8"), ("brace", "{user}")]);
    for text in ["hi ¥{missing} ¥{user}", "¥{brace} ¥ ¥{ip", "¥¥{ip} ¥{ip}}", "¥{brace}¥{user}"] {
        let once = replace(text, &m, ReplaceFailPolicy::Ignore).unwrap().text;
        let twice = replace(&once, &m, ReplaceFailPolicy::Ignore).unwrap().text;
        assert_eq!(once, twice);
    }
}

#[test]
fn string_map_keeps_first_insertion_order_and_last_value() {
    let mut m = map_of(&[("b", "1"), ("a", "2"), ("b", "3")]);
    assert_eq!(m.len(), 2);
    assert_eq!(m.key_at(0), "b");
    assert_eq!(m.value_at(0), "3");
    assert_eq!(m.key_at(1), "a");
    assert_eq!(m.get(&"a".to_string()), Some(&"2".to_string()));
    assert_eq!(m.get(&"c".to_string()), None);
    assert!(m.contains_key(&"b".to_string()));
    assert_eq!(m.find(&"a".to_string()), Some(1));
    let other = map_of(&[("a", "9"), ("z", "8")]);
    m.extend(&other);
    assert_eq!(m.len(), 3);
    assert_eq!(m.get(&"a".to_string()), Some(&"9".to_string()));
    assert_eq!(m.key_at(2), "z");
}
