use orchestrator::asir::{OsCandidates, Os as OsNames, RealHwConfig, Vm as AnyVm};
use orchestrator::lasir::connections::{ConnectionError, ConnectionTo};
use orchestrator::lasir::machines::DiskType;
use orchestrator::lasir::translator::{
    connect_all, find_approximate_os, find_custom_os, yamlsir_to_lasir, TranslationError,
};
use orchestrator::orchestrator::create;
use orchestrator::pasir::connections::{assign_subnets_and_ip_v2, create_network_from_logical};
use orchestrator::pasir::translator::{lasir_network_to_pasir_network, lasir_vms_to_pasir_vms};
use orchestrator::utils::global_config::{use_default_download_tool, DefaultValues, ShellConfig, SshConfig};
use orchestrator::utils::roles::{
    create_ip_string_replacement_map, create_vm_local_ip_mapping, find_all_connected_vms_with_role,
    find_all_roles, lasir_connection_to_ip, RolesError,
};
use orchestrator::utils::strmap::StringMap;
use orchestrator::utils::types::Ipv4Address;
use orchestrator::yamlsir::{no_connections, Auth, Connection, Disk, HwConfig, Machine, Root, DEFAULT};

fn defaults() -> DefaultValues {
    DefaultValues {
        cpu_freq_mhz: 2000,
        cpu_cores: 2,
        ram_gb: 8,
        capacity_gb: 30,
        disk_type: "ssd".to_string(),
        grade: 1,
        os_common: "UbuntuLTS".to_string(),
        location: "westeurope".to_string(),
        remote_access: false,
        config_template: String::new(),
        custom_script: String::new(),
    }
}

fn machine(name: &str, role: &str) -> Machine {
    Machine {
        name: name.to_string(),
        os_common: "UbuntuLTS".to_string(),
        hwconfig: None,
        override_config: None,
        auth: Auth { username: format!("user-{}", name), password: format!("pw-{}", name) },
        remote_access: true,
        config_template: String::new(),
        role: role.to_string(),
    }
}

fn link(a: &str, b: &str) -> Connection {
    Connection {
        a: a.to_string(),
        b: b.to_string(),
        speed_mbps: 1000,
        packet_drop_percent_bits: 0,
        latency_us: 5,
    }
}

fn root(machines: Vec<Machine>, connections: Vec<Connection>) -> Root {
    Root { version: 1, machines, options: None, connections }
}

#[test]
fn a_scenario_becomes_machines_and_a_graph() {
    let mut web = machine("web", "app");
    web.hwconfig = Some(HwConfig {
        cpu_freq_mhz: None,
        cpu_cores: Some(8),
        ram_gb: None,
        storage: vec![
            Disk { name: "os".to_string(), is_os_disk: true, capacity_gb: 64, disk_type: "ssd".to_string(), grade: 3 },
            Disk { name: "x".to_string(), is_os_disk: false, capacity_gb: 1, disk_type: "tape".to_string(), grade: 0 },
            Disk { name: "y".to_string(), is_os_disk: false, capacity_gb: 2, disk_type: "hdd".to_string(), grade: 0 },
            Disk { name: "z".to_string(), is_os_disk: false, capacity_gb: 3, disk_type: "nvm".to_string(), grade: 0 },
        ],
    });
    let mut sizes = StringMap::new();
    sizes.insert("azure".to_string(), "Standard_D2".to_string());
    web.override_config = Some(sizes);
    let mut db = machine("db", "db");
    let mut other = StringMap::new();
    other.insert("aws".to_string(), "t2.micro".to_string());
    db.override_config = Some(other);
    db.config_template = "database".to_string();
    db.remote_access = false;
    let scenario = root(vec![web, db], vec![link("web", "db")]);
    let mut global = StringMap::new();
    let out = yamlsir_to_lasir(&scenario, &"azure".to_string(), &defaults(), &mut global).unwrap();
    assert_eq!(out.missing_overrides, vec!["db".to_string()]);
    let vms = &out.system.vms;
    assert_eq!(vms.len(), 2);
    assert_eq!(vms[0].name, "web");
    assert_eq!(vms[0].os.candidates.common_os, vec!["UbuntuLTS".to_string()]);
    assert!(vms[0].os.candidates.custom_os.is_empty());
    assert_eq!(vms[0].override_config, Some("Standard_D2".to_string()));
    let hw = vms[0].hwconfig.as_ref().unwrap();
    assert_eq!((hw.cpu_freq_mhz, hw.cpu_cores, hw.ram_gb), (2000, 8, 8));
    let kinds: Vec<DiskType> = hw.storage.iter().map(|d| d.tpe).collect();
    assert_eq!(kinds, vec![DiskType::SSD, DiskType::OTHER1, DiskType::HDD, DiskType::NVM]);
    assert!(hw.storage[0].is_main);
    assert_eq!(hw.storage[0].capacity_gb, 64);
    assert_eq!(hw.storage[0].grade, 3);
    assert_eq!(hw.cpu_cores(), 8);
    assert_eq!(hw.cpu_freq_mhz(), 2000);
    assert_eq!(hw.ram_gb(), 8);
    assert_eq!(hw.disks().len(), 4);
    assert_eq!(vms[1].override_config, None);
    assert!(vms[1].hwconfig.is_none());
    assert_eq!(vms[1].config_template, "database");
    assert!(!vms[1].has_remote_access);
    assert_eq!(vms[1].role, "db");
    assert_eq!(vms[1].auth.user, "user-db");
    assert_eq!(vms[1].auth.password, "pw-db");
    assert_eq!(vms[1].get_name(), "db");
    assert_eq!(vms[1].os_name(), "UbuntuLTS");
    assert_eq!(vms[1].get_os().get_common(), "UbuntuLTS");
    assert_eq!(vms[1].get_os().get_all(), vec!["UbuntuLTS".to_string()]);
    assert_eq!(out.system.network.vm_count(), 2);
    assert_eq!(out.system.network.all_connections_for_vm(0), vec![1]);
    assert_eq!(out.system.network.all_connections_for_vm(1), vec![0]);
    assert_eq!(global.len(), 8);
    assert_eq!(global.get(&"machines/web/user".to_string()), Some(&"user-web".to_string()));
    assert_eq!(global.get(&"machines/web/username".to_string()), Some(&"user-web".to_string()));
    assert_eq!(global.get(&"machines/db/pass".to_string()), Some(&"pw-db".to_string()));
    assert_eq!(global.get(&"machines/db/password".to_string()), Some(&"pw-db".to_string()));
}

#[test]
fn connections_that_cannot_be_made_are_refused() {
    let machines = || vec![machine("a", "x"), machine("b", "x")];
    let mut global = StringMap::new();
    let cloud = "azure".to_string();
    let r = yamlsir_to_lasir(&root(machines(), vec![link("a", "b"), link("a", "c")]), &cloud, &defaults(), &mut global);
    assert_eq!(r.err(), Some(TranslationError::UnknownMachine(1)));
    let r = yamlsir_to_lasir(&root(machines(), vec![link("b", "b")]), &cloud, &defaults(), &mut global);
    assert_eq!(r.err(), Some(TranslationError::Connection(0, ConnectionError::Loopback)));
    let r = yamlsir_to_lasir(&root(machines(), vec![link("a", "b"), link("b", "a")]), &cloud, &defaults(), &mut global);
    assert_eq!(r.err(), Some(TranslationError::Connection(1, ConnectionError::Duplicate)));
    // the tokens of the machines are recorded all the same
    assert_eq!(global.len(), 8);
}

#[test]
fn the_full_network_option_overrides_the_listed_connections() {
    let mut scenario = root(
        vec![machine("a", "x"), machine("b", "x"), machine("c", "y"), machine("d", "y")],
        vec![link("a", "nowhere")],
    );
    scenario.options = Some(vec!["other".to_string(), "full_network".to_string()]);
    let mut global = StringMap::new();
    let out = yamlsir_to_lasir(&scenario, &"azure".to_string(), &defaults(), &mut global).unwrap();
    let g = &out.system.network;
    assert_eq!(g.all_connections_for_vm(0), vec![1, 2, 3]);
    assert_eq!(g.all_connections_for_vm(2), vec![0, 1, 3]);
    assert_eq!(g.all_connections_for_vm(3), vec![0, 1, 2]);
    let cands = create_network_from_logical(g);
    assert_eq!(cands.len(), 1);
    let mut members = cands[0].members();
    members.sort();
    assert_eq!(members, vec![0, 1, 2, 3]);
    let subnets = assign_subnets_and_ip_v2(&cands).unwrap();
    assert!(4 + 16 <= 1u64 << (32 - subnets[0].prefix.netmask));
    assert_eq!(connect_all(1).all_connections_for_vm(0), Vec::<usize>::new());
    assert_eq!(connect_all(0).vm_count(), 0);
}

#[test]
fn one_connection_between_two_machines_gives_one_subnet_of_two() {
    let scenario = root(vec![machine("a", "x"), machine("b", "x")], vec![link("a", "b")]);
    let mut global = StringMap::new();
    let out = yamlsir_to_lasir(&scenario, &"azure".to_string(), &defaults(), &mut global).unwrap();
    let subnets = lasir_network_to_pasir_network(&out.system.network).unwrap();
    assert_eq!(subnets.len(), 1);
    assert_eq!(subnets[0].connected_vms.len(), 2);
    // 2 + 16 = 18 addresses need 5 bits: 32 addresses
    assert_eq!(subnets[0].prefix.netmask, 27);
    let pasir = lasir_vms_to_pasir_vms(&out.system.vms);
    assert_eq!(pasir.len(), 2);
    assert_eq!(pasir[0].name, "a");
    assert_eq!(pasir[1].auth.password, "pw-b");
    assert_eq!(pasir[1].role, "x");
    assert!(pasir[1].has_remote_access);
    assert_eq!(pasir[0].os.candidates.common_os, vec!["UbuntuLTS".to_string()]);
}

#[test]
fn role_tokens_resolve_to_the_addresses_in_the_shared_subnet() {
    // app is connected to both machines of role db
    let scenario = root(
        vec![machine("db1", "db"), machine("db2", "db"), machine("app", "app")],
        vec![link("app", "db1"), link("app", "db2")],
    );
    let mut global = StringMap::new();
    let out = yamlsir_to_lasir(&scenario, &"azure".to_string(), &defaults(), &mut global).unwrap();
    let system = out.system;
    assert_eq!(find_all_roles(&system.vms), vec!["db".to_string(), "app".to_string()]);
    assert_eq!(find_all_connected_vms_with_role(2, &"db".to_string(), &system), vec![0, 1]);
    assert_eq!(find_all_connected_vms_with_role(0, &"db".to_string(), &system), Vec::<usize>::new());
    let subnets = lasir_network_to_pasir_network(&system.network).unwrap();
    let (complete, picks) = create_vm_local_ip_mapping(&system, &subnets).unwrap();
    assert_eq!(complete.len(), 3);
    assert_eq!(complete[2].len(), 1);
    assert_eq!(complete[2][0].role, "db");
    let pairs: Vec<(String, String)> =
        complete[2][0].pairs.iter().map(|(s, o)| (s.to_string(), o.to_string())).collect();
    // subnet 0 holds db1 and app, subnet 1 holds db2 and app
    assert_eq!(
        pairs,
        vec![
            ("10.1.0.9".to_string(), "10.1.0.8".to_string()),
            ("10.1.0.73".to_string(), "10.1.0.72".to_string())
        ]
    );
    assert_eq!(complete[0].len(), 1);
    assert_eq!(complete[0][0].role, "app");
    assert_eq!(picks.len(), 3);
    let pick = &picks[2][0];
    assert_eq!(pick.role, "db");
    assert!(complete[2][0].pairs.contains(&(pick.self_ip, pick.other_ip)));
    let maps = create_ip_string_replacement_map(&picks);
    assert_eq!(maps.len(), 3);
    let app = &maps[2];
    assert_eq!(app.len(), 6);
    let to_db = app.get(&"=> db".to_string()).unwrap().clone();
    let from_db = app.get(&"<= db".to_string()).unwrap().clone();
    assert!(
        (to_db == "10.1.0.8" && from_db == "10.1.0.9") || (to_db == "10.1.0.72" && from_db == "10.1.0.73")
    );
    assert_eq!(app.get(&"=>db".to_string()), Some(&to_db));
    assert_eq!(app.get(&"=>  db".to_string()), Some(&to_db));
    assert_eq!(app.get(&"<=db".to_string()), Some(&from_db));
    assert_eq!(app.get(&"<=  db".to_string()), Some(&from_db));
    let db1 = &maps[0];
    assert_eq!(db1.get(&"=> app".to_string()), Some(&"10.1.0.9".to_string()));
    assert_eq!(db1.get(&"<= app".to_string()), Some(&"10.1.0.8".to_string()));
}

#[test]
fn addresses_of_two_machines_come_from_the_one_subnet_they_share() {
    let (_, orch) = create(None, None, &mut StringMap::new());
    let one = vec![orch];
    assert_eq!(lasir_connection_to_ip(0, 1, &one), Ok(None));
    let mut shared = create(None, None, &mut StringMap::new()).1;
    shared.connected_vms.push((1, Ipv4Address::new(10, 1, 0, 6)));
    let mut again = create(None, None, &mut StringMap::new()).1;
    again.connected_vms.push((1, Ipv4Address::new(10, 1, 0, 7)));
    assert_eq!(
        lasir_connection_to_ip(1, 0, &vec![create(None, None, &mut StringMap::new()).1, shared]),
        Ok(Some((Ipv4Address::new(10, 1, 0, 6), Ipv4Address::new(10, 1, 0, 5))))
    );
    let mut shared = create(None, None, &mut StringMap::new()).1;
    shared.connected_vms.push((1, Ipv4Address::new(10, 1, 0, 6)));
    assert_eq!(lasir_connection_to_ip(0, 1, &vec![shared, again]), Err(RolesError::SharedTwice(0, 1)));
}

#[test]
fn connected_machines_without_a_shared_subnet_are_an_error() {
    let scenario = root(vec![machine("a", "x"), machine("b", "y")], vec![link("a", "b")]);
    let mut global = StringMap::new();
    let out = yamlsir_to_lasir(&scenario, &"azure".to_string(), &defaults(), &mut global).unwrap();
    let r = create_vm_local_ip_mapping(&out.system, &vec![]);
    assert_eq!(r.err(), Some(RolesError::NotInSubnet(0, 1)));
}

#[test]
fn the_webserver_is_a_machine_of_its_own() {
    let mut global = StringMap::new();
    let (vm, subnet) = create(None, Some("Standard_B1".to_string()), &mut global);
    assert_eq!(vm.name, "orchestrator");
    assert_eq!(vm.override_config, Some("Standard_B1".to_string()));
    assert_eq!(vm.os.candidates.common_os, vec!["UbuntuLTS".to_string()]);
    assert!(vm.has_remote_access);
    assert_eq!(vm.auth.user, "orch");
    assert_eq!(vm.auth.password, "asdfgDDFjklqwe1234");
    assert_eq!(vm.role, "");
    assert_eq!(vm.config_template, "");
    let hw = vm.hwconfig.unwrap();
    assert_eq!((hw.cpu_freq_mhz, hw.cpu_cores, hw.ram_gb, hw.storage.len()), (5000, 4, 16, 1));
    assert_eq!(subnet.prefix.to_string(), "10.1.0.0/16");
    assert_eq!(subnet.connected_vms, vec![(0, Ipv4Address::new(10, 1, 0, 5))]);
    assert_eq!(global.get(&"machines/orchestrator/user".to_string()), Some(&"orch".to_string()));
    assert_eq!(global.get(&"machines/orchestrator/username".to_string()), Some(&"orch".to_string()));
    assert_eq!(global.get(&"machines/orchestrator/pass".to_string()), Some(&"asdfgDDFjklqwe1234".to_string()));
    assert_eq!(global.get(&"machines/orchestrator/password".to_string()), Some(&"asdfgDDFjklqwe1234".to_string()));
    let (vm, _) = create(Some("FromEnv".to_string()), Some("Standard_B1".to_string()), &mut global);
    assert_eq!(vm.override_config, Some("FromEnv".to_string()));
    assert_eq!(create(None, None, &mut global).0.override_config, None);
}

#[test]
fn settings_and_small_helpers() {
    assert_eq!(use_default_download_tool(), "curl");
    assert!(ShellConfig { shell: "/bin/sh".to_string(), download_tool: "wget".to_string() }.is_supported());
    assert!(ShellConfig { shell: "/bin/sh".to_string(), download_tool: "curl".to_string() }.is_supported());
    assert!(!ShellConfig { shell: "/bin/sh".to_string(), download_tool: "ftp".to_string() }.is_supported());
    assert_eq!(SshConfig::new("~".to_string()).custom_args, "");
    assert_eq!(SshConfig::new("-i key".to_string()).custom_args, "-i key");
    assert!(no_connections().is_empty());
    assert_eq!(DEFAULT(), "DEFAULT");
    assert_eq!(find_custom_os(Some("MyOs"), "azure"), Some("MyOs".to_string()));
    assert_eq!(find_custom_os(None, "azure"), None);
    assert_eq!(find_approximate_os(Some("MyOs"), "azure"), None);
    let names = OsCandidates::common_only("Debian");
    assert_eq!(names.common_os, vec!["Debian".to_string()]);
    assert!(names.custom_os.is_empty() && names.approx_os.is_empty());
    let c = ConnectionTo { vm_dest: 1, speed_mbps: 2, latency_us: 3, drop_chance_percent_bits: 4 };
    assert_eq!(c.vm_dest, 1);
}
