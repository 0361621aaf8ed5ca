use orchestrator::cloud_functions::azure::clear_resource_group;
use orchestrator::lasir::connections::{
    new_connection_vec, AbstractSubnet, ConnectionError, ConnectionProperties, VmConnectionLogical,
    VmConnectionLogicalV2,
};
use orchestrator::utils::types::{CidrIP, Ipv4Address};

fn fill<G: VmConnectionLogical>(edges: &[(usize, usize)], n: usize) -> G {
    let mut g = G::new(n);
    let cp = ConnectionProperties { speed_mbps: 10, latency_us: 1, drop_chance_percent_bits: 0 };
    for (a, b) in edges {
        assert_eq!(g.add_sym_connection_with_speed(*a, *b, cp), Ok(()));
    }
    g
}

#[test]
fn the_graph_answers_through_its_interface() {
    let mut g: VmConnectionLogicalV2 = fill(&[(0, 1), (2, 0)], 3);
    assert_eq!(VmConnectionLogical::vm_count(&g), 3);
    assert!(VmConnectionLogical::is_symmetric(&g));
    assert_eq!(VmConnectionLogical::all_connections_for_vm(&g, 0), vec![1, 2]);
    assert!(VmConnectionLogical::connection_exists(&g, 2, 0));
    assert!(!VmConnectionLogical::connection_exists(&g, 2, 1));
    let cp = ConnectionProperties { speed_mbps: 10, latency_us: 1, drop_chance_percent_bits: 0 };
    assert_eq!(
        VmConnectionLogical::add_sym_connection_with_speed(&mut g, 1, 0, cp),
        Err(ConnectionError::Duplicate)
    );
    assert_eq!(VmConnectionLogical::all_connections_for_vm(&g, 1), vec![0]);
}

#[test]
fn a_new_graph_has_no_edges() {
    let g = new_connection_vec(4);
    assert_eq!(g.vm_count(), 4);
    for v in 0..4 {
        assert!(g.all_connections_for_vm(v).is_empty());
    }
    let s = AbstractSubnet {
        address_prefix: Some(CidrIP { ip: Ipv4Address::new(10, 1, 0, 0), netmask: 27 }),
        connected_vm_idxs: vec![0, 1],
    };
    assert_eq!(s.address_prefix.unwrap().to_string(), "10.1.0.0/27");
    assert_eq!(s.connected_vm_idxs, vec![0, 1]);
}

#[test]
fn a_resource_group_is_emptied_by_deploying_nothing() {
    let plan = clear_resource_group("rg", "az");
    assert_eq!(plan.file_name, "removeall.json");
    assert!(plan.file_text.starts_with("{\n\"$schema\": \"https://schema.management.azure.com/"));
    assert!(plan.file_text.ends_with("\"resources\": [ ],\n\"outputs\": { }\n}\n"));
    assert_eq!(
        plan.command,
        "az group deployment create --mode complete --template-file removeall.json --resource-group rg"
    );
}
