use orchestrator::asir::OsCandidates;
use orchestrator::azuresir::emitter::{emit_new, generate_shell_command};
use orchestrator::azuresir::translator::{pasir_to_azuresir, ProviderError};
use orchestrator::cloud_functions::azure::{
    best_match_index, find_best_matching_vm_name, AzureProperties,
};
use orchestrator::lasir::connections::VmConnectionLogicalV2;
use orchestrator::pasir::connections::{assign_subnets_and_ip_v2, create_network_from_logical, Subnet};
use orchestrator::pasir::machines::{Auth, HwConfig, Os, Vm};
use orchestrator::utils::strmap::StringMap;

fn vm(name: &str, remote: bool) -> Vm {
    Vm {
        name: name.to_string(),
        os: Os { candidates: OsCandidates::common_only("UbuntuLTS") },
        hwconfig: Some(HwConfig::default()),
        override_config: None,
        config_template: String::new(),
        has_remote_access: remote,
        role: String::new(),
        auth: Auth { user: "user".to_string(), password: "secret".to_string() },
    }
}

fn size(name: &str, cores: usize, ram: usize) -> AzureProperties {
    AzureProperties {
        name: name.to_string(),
        core_count: cores,
        ram_gb: ram,
        max_disk_count: 4,
        max_disk_capacity_gb: 100,
    }
}

fn os_map() -> StringMap {
    let mut m = StringMap::new();
    m.insert("UbuntuLTS".to_string(), "Canonical:Ubuntu:18.04".to_string());
    m
}

fn network(n: usize, edges: &[(usize, usize)]) -> Vec<Subnet> {
    let mut g = VmConnectionLogicalV2::new(n);
    for (a, b) in edges {
        g.add_sym_connection(*a, *b).unwrap();
    }
    assign_subnets_and_ip_v2(&create_network_from_logical(&g)).unwrap()
}

#[test]
fn single_vm_without_connections_gets_the_stub_subnet_and_one_public_nic() {
    let vms = vec![vm("solo", true)];
    let catalog = vec![size("Standard_B4", 4, 16)];
    let mut counter: u8 = 5;
    let ws = pasir_to_azuresir(&vms, &network(1, &[]), "net", &os_map(), "rg", &catalog, &mut counter)
        .unwrap();
    assert_eq!(counter, 6);
    assert_eq!(ws.vnet.name, "net");
    assert_eq!(ws.vnet.address_prefixes.to_string(), "10.0.0.0/8");
    assert_eq!(ws.subnets.len(), 1);
    assert_eq!(ws.subnets[0].name, "net-stub-subnet");
    assert_eq!(ws.subnets[0].address_prefixes.to_string(), "10.0.255.0/24");
    assert_eq!(ws.vms.len(), 1);
    assert_eq!(ws.vms[0].nics.len(), 1);
    let nic = &ws.vms[0].nics[0];
    assert_eq!(nic.name, "solo-stub-nic-5");
    assert_eq!(nic.subnet, "net-stub-subnet");
    assert_eq!(nic.vnet, "net");
    assert_eq!(nic.private_ip_address.to_string(), "10.0.255.5");
    assert!(nic.has_public_ip_address);
    assert_eq!(ws.vms[0].image, "Canonical:Ubuntu:18.04");
    assert_eq!(ws.vms[0].size, "Standard_B4");
    assert_eq!(ws.vms[0].admin_username, "user");
    assert_eq!(ws.vms[0].admin_password, "secret");
    assert_eq!(ws.vms[0].authentication_type, "all");
    assert_eq!(ws.vms[0].custom_script, "");
    assert_eq!(ws.global_config.location, "westeurope");
    assert_eq!(ws.global_config.resource_group, "rg");
    assert!(ws.global_config.has_stub_network);
}

#[test]
fn star_gives_the_centre_three_nics_and_only_the_first_is_public() {
    let vms = vec![vm("s", true), vm("p", true), vm("q", false), vm("r", true)];
    let catalog = vec![size("Standard_B4", 4, 16)];
    let mut counter: u8 = 5;
    let net = network(4, &[(0, 1), (0, 2), (0, 3)]);
    let ws = pasir_to_azuresir(&vms, &net, "net", &os_map(), "rg", &catalog, &mut counter).unwrap();
    assert_eq!(counter, 5);
    assert_eq!(ws.subnets.len(), 4);
    assert_eq!(ws.subnets[0].name, "net_subnet-0");
    assert_eq!(ws.subnets[2].name, "net_subnet-2");
    assert_eq!(ws.subnets[3].name, "net-stub-subnet");
    let counts: Vec<usize> = ws.vms.iter().map(|v| v.nics.len()).collect();
    assert_eq!(counts, vec![3, 1, 1, 1]);
    let names: Vec<&str> = ws.vms[0].nics.iter().map(|n| n.name.as_str()).collect();
    assert_eq!(names, vec!["s-nic0", "s-nic1", "s-nic2"]);
    let public: Vec<bool> = ws.vms[0].nics.iter().map(|n| n.has_public_ip_address).collect();
    assert_eq!(public, vec![true, false, false]);
    assert!(ws.vms[1].nics[0].has_public_ip_address);
    assert!(!ws.vms[2].nics[0].has_public_ip_address);
    for v in ws.vms.iter() {
        let mut seen_private = false;
        for n in v.nics.iter() {
            assert!(!(n.has_public_ip_address && seen_private));
            seen_private = seen_private || !n.has_public_ip_address;
        }
    }
    assert_eq!(ws.vms[0].nics[1].subnet, "net_subnet-1");
    assert_eq!(ws.vms[0].nics[1].private_ip_address.to_string(), "10.1.0.72");
    assert_eq!(ws.vms[2].nics[0].private_ip_address.to_string(), "10.1.0.73");
}

#[test]
fn stub_nics_are_as_many_as_machines_without_connections() {
    let vms = vec![vm("a", true), vm("b", true), vm("c", false), vm("d", true)];
    let catalog = vec![size("Standard_B4", 4, 16)];
    let mut counter: u8 = 254;
    let net = network(4, &[(0, 1)]);
    let ws = pasir_to_azuresir(&vms, &net, "net", &os_map(), "rg", &catalog, &mut counter).unwrap();
    let stubs: usize = ws
        .vms
        .iter()
        .map(|v| v.nics.iter().filter(|n| n.subnet == "net-stub-subnet").count())
        .sum();
    assert_eq!(stubs, 2);
    assert_eq!(ws.vms[2].nics[0].name, "c-stub-nic-254");
    assert_eq!(ws.vms[2].nics[0].private_ip_address.to_string(), "10.0.255.254");
    assert!(ws.vms[2].nics[0].has_public_ip_address);
    assert_eq!(ws.vms[3].nics[0].name, "d-stub-nic-255");
    // the counter starts again at zero behind 255
    assert_eq!(counter, 0);
}

#[test]
fn machines_with_a_problem_are_named_and_the_counter_stays() {
    let catalog = vec![size("Standard_B4", 4, 16)];
    let mut counter: u8 = 5;
    let mut no_hw = vm("b", true);
    no_hw.hwconfig = None;
    let r = pasir_to_azuresir(&vec![vm("a", true), no_hw], &vec![], "net", &os_map(), "rg", &catalog, &mut counter);
    assert_eq!(r.err(), Some(ProviderError::NoHardwareDescription(1)));
    assert_eq!(counter, 5);
    let r = pasir_to_azuresir(&vec![vm("a", true)], &vec![], "net", &os_map(), "rg", &vec![], &mut counter);
    assert_eq!(r.err(), Some(ProviderError::NoMatchingSize(0)));
    let r = pasir_to_azuresir(&vec![vm("a", true)], &vec![], "net", &StringMap::new(), "rg", &catalog, &mut counter);
    assert_eq!(r.err(), Some(ProviderError::UnknownOs(0)));
    let mut no_os = vm("a", true);
    no_os.os.candidates.common_os.clear();
    let r = pasir_to_azuresir(&vec![no_os], &vec![], "net", &os_map(), "rg", &catalog, &mut counter);
    assert_eq!(r.err(), Some(ProviderError::NoCommonOs(0)));
    let mut named = vm("a", true);
    named.hwconfig = None;
    named.override_config = Some("Standard_X".to_string());
    named.config_template = "web".to_string();
    let ws = pasir_to_azuresir(&vec![named], &vec![], "net", &os_map(), "rg", &vec![], &mut counter).unwrap();
    assert_eq!(ws.vms[0].size, "Standard_X");
    assert_eq!(ws.vms[0].custom_script, "test-deployment/a/script.sh");
}

#[test]
fn the_first_size_at_the_least_lenience_is_chosen() {
    let catalog = vec![size("big", 8, 32), size("near", 4, 14), size("exact", 4, 16), size("twin", 4, 16)];
    assert_eq!(best_match_index(Some(4), Some(16), &catalog), Some((2, 0)));
    assert_eq!(find_best_matching_vm_name(Some(4), Some(16), &catalog).unwrap().name, "exact");
    // memory two off needs lenience 2; one core off needs lenience 4
    assert_eq!(best_match_index(Some(4), Some(15), &catalog), Some((1, 1)));
    assert_eq!(best_match_index(Some(5), Some(16), &catalog), Some((1, 4)));
    assert_eq!(best_match_index(Some(5), Some(19), &catalog), Some((2, 4)));
    assert_eq!(best_match_index(Some(5), Some(14), &catalog), Some((1, 4)));
    assert_eq!(best_match_index(None, Some(30), &catalog), Some((0, 2)));
    assert_eq!(best_match_index(Some(7), None, &catalog), Some((0, 4)));
    assert_eq!(best_match_index(None, None, &catalog), Some((0, 0)));
    assert_eq!(best_match_index(Some(1), Some(0), &catalog), Some((1, 14)));
    assert!(find_best_matching_vm_name(Some(4), Some(16), &vec![]).is_none());
    assert_eq!(best_match_index(Some(4), Some(16), &vec![]), None);
}

#[test]
fn commands_put_each_argument_on_its_own_line() {
    let text = generate_shell_command(
        "az vm create",
        vec![(true, "name", " web "), (false, "g", "rg"), (true, "", ""), (true, "size", "")],
    );
    assert_eq!(text, "az vm create \\\n\t--name web \\\n\t-g rg \\\n\t--size  \n");
    assert_eq!(generate_shell_command("ls", vec![]), "ls \n");
}

#[test]
fn the_emitter_writes_the_network_and_one_text_for_each_machine() {
    let vms = vec![vm("Web", true), vm("db", false)];
    let catalog = vec![size("Standard_B4", 4, 16)];
    let mut counter: u8 = 5;
    let net = network(2, &[(0, 1)]);
    let ws = pasir_to_azuresir(&vms, &net, "net", &os_map(), " RG1 ", &catalog, &mut counter).unwrap();
    let mut pip: usize = 0;
    let out = emit_new(&ws, "az", "Taas", &mut pip);
    assert_eq!(pip, 2);
    assert_eq!(
        out.network,
        "\naz network vnet create \\\n\t--resource-group RG1 \\\n\t--name net \\\n\t--address-prefixes 10.0.0.0/8 \n\
         \naz network vnet subnet create \\\n\t--resource-group RG1 \\\n\t--name net_subnet-0 \\\n\t--vnet-name net \\\n\t--address-prefixes 10.1.0.0/27 \n\
         \naz network vnet subnet create \\\n\t--resource-group RG1 \\\n\t--name net-stub-subnet \\\n\t--vnet-name net \\\n\t--address-prefixes 10.0.255.0/24 \n"
    );
    assert_eq!(out.vms.len(), 2);
    assert_eq!(
        out.vms[0],
        "\naz network public-ip create \\\n\t--resource-group RG1 \\\n\t--dns-name rg1-taas-web \\\n\t--name public-ip-0 \n\
         \naz network nic create \\\n\t--resource-group RG1 \\\n\t--name Web-nic0 \\\n\t--vnet-name net \\\n\t--subnet net_subnet-0 \\\n\t--private-ip-address 10.1.0.8 \\\n\t--public-ip-address public-ip-0 \n\
         \naz vm create \\\n\t--resource-group RG1 \\\n\t--name Web \\\n\t--nics Web-nic0 \\\n\t--image Canonical:Ubuntu:18.04 \\\n\t--size Standard_B4 \\\n\t--admin-username user \\\n\t--admin-password secret \\\n\t--authentication-type all \\\n\t--public-ip-address-dns-name Web.taas \n"
    );
    assert_eq!(
        out.vms[1],
        "\naz network nic create \\\n\t--resource-group RG1 \\\n\t--name db-nic0 \\\n\t--vnet-name net \\\n\t--subnet net_subnet-0 \\\n\t--private-ip-address 10.1.0.9 \n\
         \naz vm create \\\n\t--resource-group RG1 \\\n\t--name db \\\n\t--nics db-nic0 \\\n\t--image Canonical:Ubuntu:18.04 \\\n\t--size Standard_B4 \\\n\t--admin-username user \\\n\t--admin-password secret \\\n\t--authentication-type all \\\n\t--public-ip-address-dns-name db.taas \n"
    );
}
