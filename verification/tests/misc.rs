use orchestrator::azuresir::system::Nic;
use orchestrator::azuresir::utils::{find_best_matching_os, matching_score};
use orchestrator::cloud_functions::azure::{
    check_azure_cli_install, check_logged_in, clear_resource_group_v2, default_str,
    get_important_info, get_prop, get_public_ip, resource_delete_command, script_settings,
    send_and_exec_script, send_and_exec_script_small, AzureProperties, AzureVMCapabilities,
    AzureVMSize, CliError,
};
use orchestrator::cloud_functions::VmHardwareProperties;
use orchestrator::pasir::connections::{Ipv4Counter_from_ip_order, ADDRESS_LIMIT};
use orchestrator::pasir::machines::{Disk, DiskType, HwConfig};
use orchestrator::pasir::translator::{gather_hwconfig, translate_storage};
use orchestrator::script_push::azure::AzureScriptPush;
use orchestrator::script_push::{
    parse_vm_selection, scp_command, send_script_ssh, ssh_command, PushStep, ReplData,
    ScriptRunType, VmSummary,
};
use orchestrator::shell_tools::{
    is_single_word, next_try, RunDetails, RunInfo, RunResult, RunSummary, TryAction,
};
use orchestrator::utils::strmap::StringMap;
use orchestrator::utils::text::{parse_usize, str_equal, to_ascii_lowercase, trim, white_space};
use orchestrator::utils::types::Ipv4Address;

#[test]
fn a_selection_is_a_line_of_numbers_in_range() {
    assert_eq!(parse_vm_selection("0 2 1\n", 2), Some(vec![0, 2, 1]));
    assert_eq!(parse_vm_selection("  1\t\t2  \n", 2), Some(vec![1, 2]));
    assert_eq!(parse_vm_selection("+1 01", 2), Some(vec![1, 1]));
    assert_eq!(parse_vm_selection("", 2), None);
    assert_eq!(parse_vm_selection("   \n", 2), None);
    assert_eq!(parse_vm_selection("1 3", 2), None);
    assert_eq!(parse_vm_selection("1 x", 2), None);
    assert_eq!(parse_vm_selection("1,2", 2), None);
    assert_eq!(parse_vm_selection("-1", 2), None);
    assert_eq!(parse_vm_selection("1\n2", 2), None);
    assert_eq!(parse_vm_selection("99999999999999999999999", usize::MAX), None);
    assert_eq!(parse_vm_selection("18446744073709551615", usize::MAX), Some(vec![usize::MAX]));
}

#[test]
fn numbers_are_decimal_digits_with_or_without_a_plus_sign() {
    let parse = |s: &str| parse_usize(&s.chars().collect());
    assert_eq!(parse("0"), Some(0));
    assert_eq!(parse("007"), Some(7));
    assert_eq!(parse("+42"), Some(42));
    assert_eq!(parse("18446744073709551615"), Some(usize::MAX));
    assert_eq!(parse("18446744073709551616"), None);
    assert_eq!(parse(""), None);
    assert_eq!(parse("+"), None);
    assert_eq!(parse("++1"), None);
    assert_eq!(parse("1+"), None);
    assert_eq!(parse("3.5"), None);
    assert_eq!(parse(" 1"), None);
    assert_eq!(parse("١"), None);
}

#[test]
fn text_helpers_follow_the_library_of_the_language() {
    for s in ["  a b \t\n", "\u{a0}x\u{3000}", "", "   ", "no-space", "\u{2003}mid dle\u{85}"] {
        assert_eq!(trim(s), s.trim());
    }
    for s in ["MiXed Case 123", "ÄÖÜ stay", "", "already lower"] {
        assert_eq!(to_ascii_lowercase(s), s.to_ascii_lowercase());
    }
    for c in ['\t', '\n', ' ', 'a', '\u{a0}', '\u{200b}', '\u{2028}', '\u{feff}', '\u{1680}', '\u{180e}'] {
        assert_eq!(white_space(c), c.is_whitespace());
    }
    assert!(str_equal("a¥b", "a¥b"));
    assert!(!str_equal("a", "ab"));
    assert!(!str_equal("ab", "ac"));
}

#[test]
fn the_machines_of_the_last_deployment_are_found_by_place_and_name() {
    let summary = |n: &str| VmSummary {
        name: n.to_string(),
        hostname: format!("{}.host", n),
        username: "u".to_string(),
        password: "p".to_string(),
    };
    let data = |n: &str, v: &str| {
        let mut m = StringMap::new();
        m.insert("k".to_string(), v.to_string());
        ReplData { name: n.to_string(), replacements: m }
    };
    let push = AzureScriptPush::new(vec![summary("a"), summary("b")], vec![data("b", "1"), data("a", "2"), data("b", "3")]);
    assert_eq!(push.get_vm_list(), vec!["a".to_string(), "b".to_string()]);
    assert_eq!(push.get_vm_summary(1).hostname, "b.host");
    assert_eq!(push.get_vm_summary(0).name, "a");
    let found = push.get_vm_replacements(&"b".to_string()).unwrap();
    assert_eq!(found.replacements.get(&"k".to_string()), Some(&"1".to_string()));
    assert!(push.get_vm_replacements(&"c".to_string()).is_none());
    assert_eq!(ScriptRunType::SSH, ScriptRunType::SSH);
}

#[test]
fn a_script_is_pushed_in_steps() {
    let vm = VmSummary {
        name: "a".to_string(),
        hostname: "h".to_string(),
        username: "u".to_string(),
        password: "pw".to_string(),
    };
    let opts = " -oStrictHostKeyChecking=no -oUserKnownHostsFile=/dev/null ";
    assert_eq!(ssh_command("-i k", "u", "h", "ls"), format!("ssh -i k{}u@h \"ls\"", opts));
    assert_eq!(scp_command("-r ", "-i k", "src/*", "u", "h", "~/"), format!("scp -r -i k{}src/* u@h:~/", opts));
    let steps = send_script_ssh(&vm, "dep", "-i k", true, true);
    let texts: Vec<String> = steps
        .iter()
        .map(|s| match s {
            PushStep::Run(c) => format!("run {}", c),
            PushStep::Try(c) => format!("try {}", c),
            PushStep::PrepareReplaced(d) => format!("replace {}", d),
        })
        .collect();
    assert_eq!(
        texts,
        vec![
            format!("run ssh -i k{}u@h \"cd ~; echo pw | sudo -S rm -rf push_scripts/dep\"", opts),
            format!("run ssh -i k{}u@h \"cd ~; mkdir -p push_scripts/dep\"", opts),
            format!("run scp -i k{}push_scripts/dep/run.sh u@h:~/push_scripts/dep/", opts),
            format!("run scp -r -i k{}push_scripts/dep/data/* u@h:~/", opts),
            "replace push_scripts/dep/replace".to_string(),
            format!("run scp -i k{}push_scripts/dep/repl_temp/* u@h:~/", opts),
            "try rm -rf push_scripts/dep/repl_temp".to_string(),
            format!("run ssh -i k{}u@h \"cd ~; echo pw | sudo -S sh ~/push_scripts/dep/run.sh\"", opts),
        ]
    );
    assert_eq!(send_script_ssh(&vm, "dep", "", false, false).len(), 4);
}

#[test]
fn scripts_travel_in_base_64() {
    let up = send_and_exec_script("web", "echo hi\n", "az", "rg");
    assert_eq!(up.file_name, "web-b64script.json");
    assert_eq!(up.file_text, "{\n\t\"script\": \"ZWNobyBoaQo=\"\n}");
    assert_eq!(
        up.command,
        "az vm extension set --resource-group rg --vm-name web --name customScript --publisher Microsoft.Azure.Extensions --settings ./web-b64script.json"
    );
    assert_eq!(send_and_exec_script("w", "¥", "az", "rg").file_text, "{\n\t\"script\": \"wqU=\"\n}");
    assert_eq!(script_settings("abc"), "{\n\t\"script\": \"abc\"\n}");
    assert_eq!(
        send_and_exec_script_small("web", "ls", "az", "rg"),
        "az vm run-command invoke -g rg -n web --command-id RunShellScript --scripts 'ls'"
    );
    assert_eq!(get_public_ip("web", "az", "rg"), "az vm show -d -g rg -n web --query publicIps -o tsv");
    assert_eq!(clear_resource_group_v2("rg", "az"), "az resource list -g 'rg' --query '[].id' -o tsv");
    assert_eq!(resource_delete_command("\n id1\nid2 \n", "az"), Some("az resource delete --ids id1 id2".to_string()));
    assert_eq!(resource_delete_command(" \n", "az"), None);
}

#[test]
fn the_tool_of_the_provider_must_be_installed_and_logged_in() {
    assert_eq!(check_azure_cli_install(false, Some(0)), Err(CliError::NotInstalled));
    assert_eq!(check_azure_cli_install(true, Some(1)), Err(CliError::NotLoggedIn));
    assert_eq!(check_azure_cli_install(true, Some(0)), Ok(()));
    assert_eq!(check_azure_cli_install(true, None), Ok(()));
    assert_eq!(check_logged_in(Some(-1)), Err(CliError::NotLoggedIn));
    assert_eq!(check_logged_in(None), Ok(()));
}

#[test]
fn listed_sizes_are_read_into_what_the_choice_needs() {
    let cap = |n: &str, v: &str| AzureVMCapabilities { name: n.to_string(), value: v.to_string() };
    let listed = vec![
        AzureVMSize {
            name: Some("Standard_A".to_string()),
            tier: default_str(),
            capabilities: Some(vec![
                cap("vCPUs", "4"),
                cap("MemoryGB", "16"),
                cap("vCPUs", "99"),
                cap("MaxDataDiskCount", "8"),
                cap("MaxResourceVolumeMB", "204800"),
                cap("OSVhdSizeMB", "1047552"),
            ]),
        },
        AzureVMSize { name: Some("NoCaps".to_string()), tier: None, capabilities: None },
        AzureVMSize { name: None, tier: None, capabilities: Some(vec![]) },
        AzureVMSize {
            name: Some("Standard_B".to_string()),
            tier: None,
            capabilities: Some(vec![cap("vCPUs", "two"), cap("MemoryGB", "3.5"), cap("OSVhdSizeMB", "2048")]),
        },
    ];
    let info = get_important_info(&listed);
    assert_eq!(info.len(), 2);
    assert_eq!(info[0].name(), "Standard_A");
    assert_eq!(info[0].core_count(), 4);
    assert_eq!(info[0].ram_gb(), 16);
    assert_eq!(info[0].max_disk_count(), 8);
    assert_eq!(info[0].max_disk_capacity_gb(), 200);
    assert_eq!(info[1].name, "Standard_B");
    assert_eq!((info[1].core_count, info[1].ram_gb, info[1].max_disk_count, info[1].max_disk_capacity_gb), (0, 0, 0, 0));
    assert_eq!(get_prop(&vec![cap("a", "1"), cap("b", "2")], "b"), 2);
    assert_eq!(get_prop(&vec![cap("a", "1")], "b"), 0);
    assert_eq!(default_str(), Some("default:(".to_string()));
    let copy: AzureProperties = info[0].duplicate();
    assert_eq!(copy.name, "Standard_A");
}

#[test]
fn names_of_operating_systems_are_matched_by_their_beginnings() {
    // one more than the length of the longest beginning, the whole left aside
    assert_eq!(matching_score("Ubuntu", "ubuntu server 18.04"), 6);
    assert_eq!(matching_score("UBUNTU LTS", "Canonical ubuntults"), 9);
    assert_eq!(matching_score("ubuntu", "debian"), 1);
    assert_eq!(matching_score("", "debian"), 0);
    assert_eq!(matching_score("ÄB", "xäby"), 2);
    let candidates = vec!["Debian 10".to_string(), "Ubuntu Server".to_string(), "ubuntu desktop".to_string()];
    let best = find_best_matching_os("Ubuntu", &candidates).unwrap();
    assert_eq!(best.name, "Ubuntu Server");
    assert!(best.ambiguous);
    let best = find_best_matching_os("debi", &candidates).unwrap();
    assert_eq!(best.name, "Debian 10");
    assert!(!best.ambiguous);
    assert!(find_best_matching_os("", &candidates).is_none());
    assert!(find_best_matching_os("x", &vec![]).is_none());
}

#[test]
fn results_of_commands_tell_how_they_ended() {
    let ran = |code: isize, out: &str, err: &str| {
        RunResult::new(
            "ls".to_string(),
            "/bin/sh".to_string(),
            Some(RunDetails { stdout: out.to_string(), stderr: err.to_string(), exit_code: code }),
        )
    };
    let ok = ran(0, "out", "");
    assert!(!ok.not_found() && !ok.non_zero_exit() && !ok.failure());
    assert!(ok.check_success() && ok.has_run());
    assert_eq!(ok.stdout(), "out");
    assert_eq!(ok.stderr(), "");
    assert_eq!(ok.error_code(), 0);
    assert_eq!(ok.command(), "ls");
    assert_eq!(ok.shell(), "/bin/sh");
    assert!(!ok.has_output());
    assert!(ran(0, "", "").has_output());
    let bad = ran(3, "", "boom");
    assert!(bad.non_zero_exit() && bad.failure() && !bad.check_success());
    assert_eq!(bad.error_code(), 3);
    assert!(!bad.has_output());
    let missing = RunResult::new("ls".to_string(), "sh".to_string(), None);
    assert!(missing.not_found() && missing.failure() && !missing.non_zero_exit());
    assert!(!missing.has_run() && !missing.check_success() && !missing.has_output());
    let s = RunSummary::new(2, true, "c".to_string());
    assert_eq!(s.exit_code(), 2);
    assert_eq!(s.command(), "c");
    assert!(s.non_zero_exit() && s.failure() && !s.not_found());
    let s = RunSummary::new(0, false, "c".to_string());
    assert!(s.not_found() && s.failure() && !s.non_zero_exit());
    assert!(!RunSummary::new(0, true, "c".to_string()).failure());
    assert!(is_single_word("az"));
    assert!(!is_single_word("az login"));
    assert_eq!(next_try(8, 1, false), TryAction::Done);
    assert_eq!(next_try(8, 1, true), TryAction::Again);
    assert_eq!(next_try(8, 7, true), TryAction::Again);
    assert_eq!(next_try(8, 8, true), TryAction::GiveUp);
    assert_eq!(next_try(1, 1, true), TryAction::GiveUp);
}

#[test]
fn the_address_counter_moves_to_aligned_blocks() {
    let mut c = Ipv4Counter_from_ip_order([10, 1, 0, 0]);
    assert_eq!(c.as_u32(), 0x0A01_0000);
    assert_eq!(c.trailing_zeros(), 16);
    assert_eq!(c.minimum_netmask(), 16);
    assert_eq!(c.to_Ipv4Addr(), Ipv4Address::new(10, 1, 0, 0));
    assert_eq!((c.byte_at(0), c.byte_at(1), c.byte_at(2), c.byte_at(3)), (10, 1, 0, 0));
    c.make_room_for(18);
    assert_eq!(c.as_u32(), 0x0A01_0000);
    let mut c = c.add(18);
    assert_eq!(c.to_Ipv4Addr().to_string(), "10.1.0.18");
    assert_eq!(c.trailing_zeros(), 1);
    assert!(c.has_room_for(18));
    c.make_room_for(18);
    assert_eq!(c.to_Ipv4Addr().to_string(), "10.1.0.64");
    c.make_room_for(64);
    assert_eq!(c.to_Ipv4Addr().to_string(), "10.1.0.64");
    c.make_room_for(65);
    assert_eq!(c.to_Ipv4Addr().to_string(), "10.1.1.0");
    assert_eq!(Ipv4Counter_from_ip_order([0, 0, 0, 0]).trailing_zeros(), 32);
    let last = Ipv4Counter_from_ip_order([10, 255, 255, 224]);
    assert!(last.has_room_for(32));
    assert!(!last.has_room_for(33));
    assert!(!Ipv4Counter_from_ip_order([10, 255, 255, 225]).has_room_for(18));
    assert!(!last.has_room_for(u32::MAX));
    assert_eq!(ADDRESS_LIMIT, 0x0B00_0000);
}

#[test]
fn records_carry_over_between_representations() {
    let l = orchestrator::lasir::machines::Disk {
        is_main: false,
        capacity_gb: 7,
        tpe: orchestrator::lasir::machines::DiskType::OTHER3,
        grade: 9,
    };
    assert_eq!(translate_storage(&l), Disk { is_main: false, capacity_gb: 7, tpe: DiskType::OTHER3, grade: 9 });
    let hw = orchestrator::lasir::machines::HwConfig { cpu_freq_mhz: 1, cpu_cores: 2, ram_gb: 3, storage: vec![l] };
    let p: HwConfig = gather_hwconfig(&hw);
    assert_eq!((p.cpu_freq_mhz, p.cpu_cores, p.ram_gb), (1, 2, 3));
    assert_eq!(p.storage, vec![Disk { is_main: false, capacity_gb: 7, tpe: DiskType::OTHER3, grade: 9 }]);
    assert_eq!(Disk::default(), Disk { is_main: true, capacity_gb: 1000, tpe: DiskType::SSD, grade: 255 });
    let nic = Nic::new_with_public_ip("n".to_string(), "v".to_string(), "s".to_string(), Ipv4Address::new(10, 0, 255, 5));
    assert!(nic.has_public_ip_address);
    assert_eq!(nic.duplicate().private_ip_address.to_string(), "10.0.255.5");
}
