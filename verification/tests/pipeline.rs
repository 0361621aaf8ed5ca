use orchestrator::asir::OsCandidates;
use orchestrator::lasir::translator::yamlsir_to_lasir;
use orchestrator::pasir::machines::{Auth, HwConfig, Os, Vm};
use orchestrator::pasir::translator::{lasir_network_to_pasir_network, lasir_vms_to_pasir_vms};
use orchestrator::pipelines::azure_cli::AzureTaasPipeline;
use orchestrator::pipelines::{
    add_vm_tokens, deployment_summary, determine_pause_between_vms, find_undeclared_machine,
    generate_replacement_yml, get_all_vm_files_v2, global_repl_host, lasir_to_pasir,
    machine_report_dirs,
    merged_replacements, prepare_common_data, prepare_from_templates,
    prepare_template_configs_for_vms, prepare_ws, run_v2, setup_webserv,
    step_file_name, step_file_path, step_run_command, summary_of, template_replacements,
    DriverAction, DriverEvent, DriverState, PrepareError,
};
use orchestrator::post_deployment::{add_global_replacement, replace};
use orchestrator::utils::global_config::DefaultValues;
use orchestrator::utils::roles::RolesError;
use orchestrator::utils::run_parser::{parse_run_list, StepType};
use orchestrator::utils::strmap::StringMap;
use orchestrator::yamlsir::{Auth as YamlAuth, Connection, Machine, Root};

fn vm(name: &str, template: &str) -> Vm {
    Vm {
        name: name.to_string(),
        os: Os { candidates: OsCandidates::common_only("UbuntuLTS") },
        hwconfig: Some(HwConfig::default()),
        override_config: None,
        config_template: template.to_string(),
        has_remote_access: true,
        role: String::new(),
        auth: Auth { user: format!("u-{}", name), password: format!("p-{}", name) },
    }
}

fn map_of(pairs: &[(&str, &str)]) -> StringMap {
    let mut m = StringMap::new();
    for (k, v) in pairs {
        m.insert(k.to_string(), v.to_string());
    }
    m
}

#[test]
fn the_pause_is_two_seconds_for_each_bit_of_the_machine_count() {
    assert_eq!(determine_pause_between_vms(1), 0);
    assert_eq!(determine_pause_between_vms(2), 2000);
    assert_eq!(determine_pause_between_vms(3), 4000);
    assert_eq!(determine_pause_between_vms(8), 6000);
    assert_eq!(determine_pause_between_vms(9), 8000);
    assert_eq!(determine_pause_between_vms(0x7FFF_FFFF), 62000);
}

#[test]
fn step_scripts_are_named_by_kind_and_place() {
    assert_eq!(step_file_name(StepType::Setup, 0), "step_setup.0.sh");
    assert_eq!(step_file_name(StepType::Run, 12), "step_run.12.sh");
    assert_eq!(step_file_path("web", StepType::Run, 3), "test-deployment/web/step_run.3.sh");
    assert_eq!(step_run_command("bob", StepType::Setup, 1), "cd /home/bob; sudo sh step_setup.1.sh");
}

#[test]
fn every_machine_gets_tokens_for_its_name_user_and_password() {
    let mut m = map_of(&[("NAME", "old"), ("other", "kept")]);
    add_vm_tokens(&mut m, &vm("web", ""));
    for key in [
        "NAME", "name", "VM_NAME", "vm_name", "machine_name", "MACHINE_NAME", "vm name",
        "machine name", "VM NAME", "MACHINE NAME",
    ] {
        assert_eq!(m.get(&key.to_string()), Some(&"web".to_string()));
    }
    for key in ["USER", "user", "USERNAME", "username", "PASSWORD", "pass", "PASS"] {
        assert_eq!(m.get(&key.to_string()), Some(&"u-web".to_string()));
    }
    assert_eq!(m.get(&"password".to_string()), Some(&"p-web".to_string()));
    assert_eq!(m.get(&"other".to_string()), Some(&"kept".to_string()));
    assert_eq!(m.len(), 19);
}

#[test]
fn global_replacements_record_hosts_and_ssh_arguments() {
    let mut m = StringMap::new();
    global_repl_host(&mut m, "web", "1.2.3.4");
    for key in ["public_ip", "public_ip_address", "public_host", "public_hostname"] {
        assert_eq!(m.get(&format!("machines/web/{}", key)), Some(&"1.2.3.4".to_string()));
    }
    add_global_replacement(&mut m, "k", "v");
    assert_eq!(m.get(&"k".to_string()), Some(&"v".to_string()));
    let r = replace("ssh ¥{SSH_OPTIONS} ¥{machines/web/public_ip} ¥{nothing} ¥{k}", &mut m, "-i key");
    assert_eq!(r.text, "ssh -i key 1.2.3.4 ¥{nothing} v");
    assert_eq!(r.missing, vec!["nothing".to_string()]);
    assert_eq!(m.get(&"SSH_CONFIG".to_string()), Some(&"-i key".to_string()));
    let t = template_replacements("9.9.9.9", &map_of(&[("web", "1.2.3.4"), ("WEBSERVER_IP", "x")]));
    assert_eq!(t.get(&"ORCHESTRATOR_IP".to_string()), Some(&"9.9.9.9".to_string()));
    assert_eq!(t.get(&"WEBSERVER_IP".to_string()), Some(&"x".to_string()));
    assert_eq!(t.get(&"web".to_string()), Some(&"1.2.3.4".to_string()));
    let merged = merged_replacements(&map_of(&[("a", "1"), ("b", "2")]), &map_of(&[("b", "3"), ("c", "4")]));
    assert_eq!(merged.get(&"a".to_string()), Some(&"1".to_string()));
    assert_eq!(merged.get(&"b".to_string()), Some(&"3".to_string()));
    assert_eq!(merged.get(&"c".to_string()), Some(&"4".to_string()));
}

#[test]
fn the_record_of_replacements_doubles_single_quotes() {
    let m = map_of(&[("user", "root"), ("it's", "a 'quote'")]);
    assert_eq!(
        generate_replacement_yml("web", &m),
        "  {\n    name: web,\n    replacements:\n      {\n        'user': 'root',\n        'it''s': 'a ''quote''',\n      },\n  },\n"
    );
    assert_eq!(
        generate_replacement_yml("x", &StringMap::new()),
        "  {\n    name: x,\n    replacements:\n      {\n      },\n  },\n"
    );
}

#[test]
fn machines_fetch_their_files_and_the_common_data() {
    let files = vec!["web.tgz".to_string(), "step_run.0.sh".to_string()];
    let common = Some(vec!["shared.bin".to_string()]);
    assert_eq!(
        get_all_vm_files_v2("web", "bob", "9.9.9.9", &files, &common),
        "cd /home/bob\nwget http://9.9.9.9:8000/web/web.tgz\nwget http://9.9.9.9:8000/web/step_run.0.sh\n\
         wget http://9.9.9.9:8000/common_data/shared.bin\ntar xzf web.tgz\nsudo chown bob:bob ./*\nrm -f web.tgz\n"
    );
    assert_eq!(
        get_all_vm_files_v2("web", "bob", "h", &vec![], &None),
        "cd /home/bob\ntar xzf web.tgz\nsudo chown bob:bob ./*\nrm -f web.tgz\n"
    );
    assert_eq!(machine_report_dirs(&vec![]), "machine_reports/");
    assert_eq!(machine_report_dirs(&vec!["a".to_string()]), "machine_reports/a");
    assert_eq!(
        machine_report_dirs(&vec!["a".to_string(), "b".to_string(), "c".to_string()]),
        "machine_reports/a machine_reports/b machine_reports/c"
    );
}

#[test]
fn the_plan_replaces_tokens_in_the_scripts_of_each_machine() {
    let vms = vec![vm("a", "tmpl"), vm("b", "")];
    let global = map_of(&[("WEBSERVER_IP", "9.9.9.9"), ("name", "global")]);
    let own = vec![map_of(&[("name", "a")]), map_of(&[("name", "b")])];
    let steps = parse_run_list("¥ SETUP\n¥¥ a b\necho ¥{name} ¥{WEBSERVER_IP} ¥{nope}\n¥ RUN\n¥¥ b\ngo\n");
    let plan = prepare_template_configs_for_vms(&vms, &global, &own, &steps).unwrap();
    assert_eq!(plan.machine_maps.len(), 2);
    assert_eq!(plan.machine_maps[0].get(&"name".to_string()), Some(&"a".to_string()));
    assert_eq!(plan.machine_maps[1].get(&"WEBSERVER_IP".to_string()), Some(&"9.9.9.9".to_string()));
    assert_eq!(
        plan.replacements_file,
        "[\n  {\n    name: a,\n    replacements:\n      {\n        'WEBSERVER_IP': '9.9.9.9',\n        'name': 'a',\n      },\n  },\n]"
    );
    assert_eq!(plan.step_scripts.len(), 3);
    assert_eq!(plan.step_scripts[0].path, "test-deployment/a/step_setup.0.sh");
    assert_eq!(plan.step_scripts[0].text, "echo a 9.9.9.9 ¥{nope}\n");
    assert_eq!(plan.step_scripts[0].missing, vec!["nope".to_string()]);
    assert_eq!(plan.step_scripts[1].path, "test-deployment/b/step_setup.0.sh");
    assert_eq!(plan.step_scripts[1].text, "echo b 9.9.9.9 ¥{nope}\n");
    assert_eq!(plan.step_scripts[2].path, "test-deployment/b/step_run.1.sh");
    assert_eq!(plan.step_scripts[2].text, "go\n");
    assert!(plan.step_scripts[2].missing.is_empty());
}

#[test]
fn a_run_list_that_names_an_unknown_machine_is_refused() {
    let vms = vec![vm("a", ""), vm("b", "")];
    let steps = parse_run_list("¥ SETUP\n¥¥ a\nx\n¥ RUN\n¥¥ b ghost a\ny\n");
    assert_eq!(find_undeclared_machine(&vms, &steps), Some((1, "ghost".to_string())));
    let own = vec![StringMap::new(), StringMap::new()];
    let r = prepare_template_configs_for_vms(&vms, &StringMap::new(), &own, &steps);
    assert_eq!(r.err(), Some((1, "ghost".to_string())));
    let fine = parse_run_list("¥ SETUP\n¥¥ a\nx\n");
    assert_eq!(find_undeclared_machine(&vms, &fine), None);
}

fn scenario(connections: Vec<Connection>) -> Root {
    let machine = |name: &str, role: &str| Machine {
        name: name.to_string(),
        os_common: "UbuntuLTS".to_string(),
        hwconfig: None,
        override_config: None,
        auth: YamlAuth { username: format!("u-{}", name), password: format!("p-{}", name) },
        remote_access: true,
        config_template: "t".to_string(),
        role: role.to_string(),
    };
    Root { version: 1, machines: vec![machine("app", "app"), machine("db", "db")], options: None, connections }
}

fn defaults() -> DefaultValues {
    DefaultValues {
        cpu_freq_mhz: 2000,
        cpu_cores: 2,
        ram_gb: 8,
        capacity_gb: 30,
        disk_type: "ssd".to_string(),
        grade: 1,
        os_common: "UbuntuLTS".to_string(),
        location: "westeurope".to_string(),
        remote_access: false,
        config_template: String::new(),
        custom_script: String::new(),
    }
}

#[test]
fn the_files_of_a_deployment_are_planned_from_its_representations() {
    let link = Connection {
        a: "app".to_string(),
        b: "db".to_string(),
        speed_mbps: 1000,
        packet_drop_percent_bits: 0,
        latency_us: 0,
    };
    let mut global = StringMap::new();
    let out = yamlsir_to_lasir(&scenario(vec![link]), &"azure".to_string(), &defaults(), &mut global).unwrap();
    let subnets = lasir_network_to_pasir_network(&out.system.network).unwrap();
    let vms = lasir_vms_to_pasir_vms(&out.system.vms);
    let hosts = map_of(&[("app", "1.1.1.1")]);
    let steps = parse_run_list("¥ RUN\n¥¥ app\nping ¥{=> db} from ¥{<= db} as ¥{user} via ¥{ORCHESTRATOR_IP} ¥{app}\n");
    let plan = prepare_from_templates(&out.system, &vms, &subnets, &hosts, "9.9.9.9", &steps).unwrap();
    assert_eq!(plan.step_scripts.len(), 1);
    assert_eq!(plan.step_scripts[0].text, "ping 10.1.0.9 from 10.1.0.8 as u-app via 9.9.9.9 1.1.1.1\n");
    assert_eq!(plan.machine_maps[1].get(&"=> app".to_string()), Some(&"10.1.0.8".to_string()));
    assert_eq!(plan.machine_maps[1].get(&"NAME".to_string()), Some(&"db".to_string()));
    let bad = parse_run_list("¥ RUN\n¥¥ nobody\nx\n");
    match prepare_from_templates(&out.system, &vms, &subnets, &hosts, "9.9.9.9", &bad) {
        Err(PrepareError::UndeclaredMachine(0, name)) => assert_eq!(name, "nobody"),
        _ => panic!("the unknown machine was passed over"),
    }
    match prepare_from_templates(&out.system, &vms, &vec![], &hosts, "9.9.9.9", &steps) {
        Err(PrepareError::Roles(e)) => assert_eq!(e, RolesError::NotInSubnet(0, 1)),
        _ => panic!("machines without a shared subnet were passed over"),
    }
}

#[test]
fn the_summary_lists_the_reachable_machines() {
    let a = summary_of(&vm("a", ""), "1.2.3.4");
    assert_eq!((a.name.as_str(), a.username.as_str(), a.password.as_str(), a.hostname.as_str()), ("a", "u-a", "p-a", "1.2.3.4"));
    assert_eq!(
        deployment_summary(&vec![a]),
        "[\n  {\n      name: a,\n      username: u-a,\n      password: p-a,\n      hostname: 1.2.3.4,\n  },\n]"
    );
    assert_eq!(deployment_summary(&vec![]), "[\n]");
}

#[test]
fn the_summary_and_the_replacements_are_read_back_as_they_were_written() {
    let text = deployment_summary(&vec![summary_of(&vm("a", ""), "1.2.3.4"), summary_of(&vm("b", ""), "host.example")]);
    let back: serde_yaml::Value = serde_yaml::from_str(&text).unwrap();
    let list = back.as_sequence().unwrap();
    assert_eq!(list.len(), 2);
    let field = |i: usize, k: &str| list[i].get(k).and_then(|v| v.as_str()).unwrap().to_string();
    assert_eq!(field(0, "name"), "a");
    assert_eq!(field(0, "username"), "u-a");
    assert_eq!(field(0, "password"), "p-a");
    assert_eq!(field(0, "hostname"), "1.2.3.4");
    assert_eq!(field(1, "hostname"), "host.example");
    let m = map_of(&[("user", "root"), ("=> db", "10.1.0.8"), ("it's", "a 'quote'")]);
    let text = format!("[\n{}]", generate_replacement_yml("web", &m));
    let back: serde_yaml::Value = serde_yaml::from_str(&text).unwrap();
    let record = &back.as_sequence().unwrap()[0];
    assert_eq!(record.get("name").and_then(|v| v.as_str()), Some("web"));
    let repl = record.get("replacements").unwrap();
    assert_eq!(repl.as_mapping().unwrap().len(), 3);
    for i in 0..m.len() {
        assert_eq!(repl.get(m.key_at(i).as_str()).and_then(|v| v.as_str()), Some(m.value_at(i).as_str()));
    }
}

#[test]
fn the_driver_runs_the_phases_in_order() {
    let ok = DriverEvent::Succeeded;
    let mut state = DriverState::Start;
    let mut actions = Vec::new();
    loop {
        let (next, action) = run_v2(state, ok, 2, true);
        let event_was_post = state == DriverState::PostDeployment;
        actions.push(action);
        state = next;
        if state == DriverState::Finished || event_was_post {
            break;
        }
    }
    assert_eq!(
        actions,
        vec![
            DriverAction::CreateSystems,
            DriverAction::SetUpWebserver,
            DriverAction::DistributeAssets,
            DriverAction::RunStep(0),
            DriverAction::RunStep(1),
            DriverAction::RunPostDeployment,
            DriverAction::Exit(0),
        ]
    );
    assert_eq!(run_v2(DriverState::PostDeployment, DriverEvent::Exited(7), 2, true), (DriverState::Finished, DriverAction::Exit(7)));
    assert_eq!(run_v2(DriverState::Running(1), ok, 2, false), (DriverState::Finished, DriverAction::Exit(0)));
    assert_eq!(run_v2(DriverState::Distributing, ok, 0, false), (DriverState::Finished, DriverAction::Exit(0)));
    assert_eq!(run_v2(DriverState::Distributing, ok, 0, true), (DriverState::PostDeployment, DriverAction::RunPostDeployment));
}

#[test]
fn the_driver_gives_up_on_failures_and_tries_the_webserver_four_times() {
    let failed = DriverEvent::Failed;
    assert_eq!(run_v2(DriverState::Creating, failed, 1, false), (DriverState::Finished, DriverAction::Abort));
    assert_eq!(run_v2(DriverState::Webserver(0), failed, 1, false), (DriverState::Webserver(1), DriverAction::SetUpWebserver));
    assert_eq!(run_v2(DriverState::Webserver(2), failed, 1, false), (DriverState::Webserver(3), DriverAction::SetUpWebserver));
    assert_eq!(run_v2(DriverState::Webserver(3), failed, 1, false), (DriverState::Finished, DriverAction::Abort));
    assert_eq!(run_v2(DriverState::Webserver(3), DriverEvent::Succeeded, 1, false), (DriverState::Distributing, DriverAction::DistributeAssets));
    assert_eq!(run_v2(DriverState::Distributing, failed, 1, false), (DriverState::Finished, DriverAction::Abort));
    assert_eq!(run_v2(DriverState::Running(0), failed, 1, false), (DriverState::Finished, DriverAction::Abort));
    assert_eq!(run_v2(DriverState::Running(5), DriverEvent::Succeeded, 1, false), (DriverState::Finished, DriverAction::Abort));
    assert_eq!(run_v2(DriverState::PostDeployment, failed, 1, true), (DriverState::Finished, DriverAction::Abort));
    assert_eq!(run_v2(DriverState::Finished, DriverEvent::Succeeded, 1, true), (DriverState::Finished, DriverAction::Abort));
    let _pipeline = AzureTaasPipeline {};
}

#[test]
fn the_webserver_is_set_up_in_steps() {
    let opts = " -oStrictHostKeyChecking=no -oUserKnownHostsFile=/dev/null ";
    let names = vec!["a".to_string(), "b".to_string()];
    let steps = setup_webserv("9.9.9.9", &names, "-i k", true);
    let shown: Vec<(String, usize, bool, bool)> =
        steps.iter().map(|s| (s.command.clone(), s.tries, s.wait, s.must_succeed)).collect();
    let on = |remote: &str| format!("ssh -i k{}orch@9.9.9.9 \"{}\"", opts, remote);
    let to = |source: &str, target: &str| format!("scp -i k{}{} orch@9.9.9.9:{}", opts, source, target);
    assert_eq!(
        shown,
        vec![
            ("cd temp_common_data; tar czf common_data.tgz ./*".to_string(), 1, false, true),
            (on("mkdir -p common_data"), 8, false, true),
            (to("temp_common_data/common_data.tgz", "~/common_data/"), 8, true, false),
            (on("cd common_data; tar xzf common_data.tgz"), 8, false, false),
            (to("test-deployment/ws", "~/ws"), 8, true, false),
            ("rm test-deployment/ws".to_string(), 1, false, false),
            (to("webserver/webserver_setup.sh", "~/webserver_setup.sh"), 8, true, false),
            (to("webserver/orche.service", "~/orche.service"), 8, true, false),
            (on("mkdir -p machine_reports"), 8, true, false),
            (on("mkdir -p machine_reports/a machine_reports/b"), 8, true, false),
            (on("echo asdfgDDFjklqwe1234 | sudo -S sh ~/webserver_setup.sh"), 8, true, false),
        ]
    );
    assert_eq!(setup_webserv("h", &names, "", false).len(), 7);
    let (status, list) = prepare_ws("9.9.9.9", "-i k");
    assert_eq!(status, on("echo asdfgDDFjklqwe1234 | sudo -S systemctl status orche"));
    assert_eq!(list, on("echo asdfgDDFjklqwe1234 | sudo -S ls /home/orch/machine_reports"));
}

#[test]
fn common_data_are_fetched_once() {
    let lists = vec![
        vec!["b.bin".to_string(), "a.bin".to_string(), "b.bin".to_string()],
        vec![],
        vec!["a.bin".to_string(), "c.bin".to_string()],
    ];
    assert_eq!(prepare_common_data(&lists), vec!["b.bin".to_string(), "a.bin".to_string(), "c.bin".to_string()]);
    assert!(prepare_common_data(&vec![]).is_empty());
}

#[test]
fn the_physical_representation_names_machines_of_the_system_only() {
    let link = |a: &str, b: &str| Connection {
        a: a.to_string(),
        b: b.to_string(),
        speed_mbps: 1,
        packet_drop_percent_bits: 0,
        latency_us: 0,
    };
    let mut global = StringMap::new();
    let out = yamlsir_to_lasir(&scenario(vec![link("db", "app")]), &"azure".to_string(), &defaults(), &mut global).unwrap();
    let (vms, subnets) = lasir_to_pasir(&out.system).unwrap();
    assert_eq!(vms.len(), 2);
    assert_eq!(vms[0].name, "app");
    assert_eq!(subnets.len(), 1);
    let mut members: Vec<usize> = subnets[0].connected_vms.iter().map(|(vm, _)| *vm).collect();
    members.sort();
    assert_eq!(members, vec![0, 1]);
}
