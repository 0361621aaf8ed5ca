use orchestrator::lasir::connections::{ConnectionError, ConnectionProperties, VmConnectionLogicalV2};
use orchestrator::pasir::connections::{
    assign_subnets_and_ip_v2, create_network_from_logical, AllocationError, SubnetCandidate,
};
use orchestrator::utils::types::{CidrIP, Ipv4Address};

fn graph(n: usize, edges: &[(usize, usize)]) -> VmConnectionLogicalV2 {
    let mut g = VmConnectionLogicalV2::new(n);
    for (a, b) in edges {
        assert_eq!(g.add_sym_connection(*a, *b), Ok(()));
    }
    g
}

fn sorted_members(c: &SubnetCandidate) -> Vec<usize> {
    let mut m = c.members();
    m.sort();
    m
}

fn sorted_subnets(cs: &Vec<SubnetCandidate>) -> Vec<Vec<usize>> {
    let mut all: Vec<Vec<usize>> = cs.iter().map(sorted_members).collect();
    all.sort();
    all
}

#[test]
fn two_linked_vms_share_one_subnet() {
    let mut g = VmConnectionLogicalV2::new(2);
    let cp = ConnectionProperties { speed_mbps: 1000, latency_us: 0, drop_chance_percent_bits: 0 };
    assert_eq!(g.add_sym_connection_with_speed(0, 1, cp), Ok(()));
    let cands = create_network_from_logical(&g);
    assert_eq!(sorted_subnets(&cands), vec![vec![0, 1]]);
    let subnets = assign_subnets_and_ip_v2(&cands).unwrap();
    assert_eq!(subnets.len(), 1);
    assert_eq!(subnets[0].prefix.to_string(), "10.1.0.0/27");
    assert_eq!(subnets[0].prefix, CidrIP { ip: Ipv4Address::new(10, 1, 0, 0), netmask: 27 });
    let mut ips: Vec<String> = subnets[0].connected_vms.iter().map(|(_, ip)| ip.to_string()).collect();
    ips.sort();
    assert_eq!(ips, vec!["10.1.0.8".to_string(), "10.1.0.9".to_string()]);
    let mut vms: Vec<usize> = subnets[0].connected_vms.iter().map(|(vm, _)| *vm).collect();
    vms.sort();
    assert_eq!(vms, vec![0, 1]);
}

#[test]
fn triangle_is_one_subnet() {
    let g = graph(3, &[(0, 1), (1, 2), (2, 0)]);
    let cands = create_network_from_logical(&g);
    assert_eq!(sorted_subnets(&cands), vec![vec![0, 1, 2]]);
    let subnets = assign_subnets_and_ip_v2(&cands).unwrap();
    assert_eq!(subnets[0].prefix.netmask, 27);
}

#[test]
fn star_gives_one_subnet_per_ray() {
    let g = graph(4, &[(0, 1), (0, 2), (0, 3)]);
    let cands = create_network_from_logical(&g);
    assert_eq!(sorted_subnets(&cands), vec![vec![0, 1], vec![0, 2], vec![0, 3]]);
}

#[test]
fn full_network_is_one_subnet_of_all() {
    let n = 6;
    let mut g = VmConnectionLogicalV2::new(n);
    for a in 0..n {
        for b in a..n {
            if a != b {
                assert_eq!(g.add_sym_connection(a, b), Ok(()));
            }
        }
    }
    let cands = create_network_from_logical(&g);
    assert_eq!(sorted_subnets(&cands), vec![vec![0, 1, 2, 3, 4, 5]]);
    let subnets = assign_subnets_and_ip_v2(&cands).unwrap();
    assert_eq!(subnets.len(), 1);
    assert_eq!(subnets[0].prefix.netmask, 27);
    assert!((n as u64) + 16 <= 1u64 << (32 - subnets[0].prefix.netmask));
}

#[test]
fn no_connections_give_no_subnet() {
    let g = VmConnectionLogicalV2::new(1);
    assert!(create_network_from_logical(&g).is_empty());
    assert_eq!(g.vm_count(), 1);
    assert!(g.is_symmetric());
}

#[test]
fn path_with_private_neighbours_keeps_the_late_pair() {
    // 0 is connected to all; 1-4 and 2-3 and 3-4 besides
    let g = graph(5, &[(0, 1), (0, 2), (0, 3), (0, 4), (1, 4), (2, 3), (3, 4)]);
    let cands = create_network_from_logical(&g);
    assert_eq!(sorted_subnets(&cands), vec![vec![0, 1, 4], vec![0, 2, 3], vec![3, 4]]);
}

#[test]
fn every_edge_is_covered_by_a_clique_and_no_subnet_contains_another() {
    let edges = [(0, 1), (0, 2), (1, 2), (2, 3), (3, 4), (4, 5), (3, 5), (1, 5), (0, 6)];
    let g = graph(7, &edges);
    let cands = sorted_subnets(&create_network_from_logical(&g));
    for (a, b) in edges.iter() {
        assert!(cands.iter().any(|c| c.contains(a) && c.contains(b)));
    }
    for c in cands.iter() {
        for x in c.iter() {
            for y in c.iter() {
                if x != y {
                    assert!(g.connection_exists(*x, *y));
                }
            }
        }
    }
    for (i, c) in cands.iter().enumerate() {
        for (j, d) in cands.iter().enumerate() {
            if i != j {
                assert!(!c.iter().all(|x| d.contains(x)));
            }
        }
    }
}

#[test]
fn refused_connections_leave_the_graph_unchanged() {
    let mut g = VmConnectionLogicalV2::new(3);
    assert_eq!(g.add_sym_connection(0, 1), Ok(()));
    assert_eq!(g.add_sym_connection(0, 1), Err(ConnectionError::Duplicate));
    assert_eq!(g.add_sym_connection(1, 0), Err(ConnectionError::Duplicate));
    assert_eq!(g.add_sym_connection(2, 2), Err(ConnectionError::Loopback));
    assert_eq!(g.add_sym_connection(0, 3), Err(ConnectionError::UnknownMachine));
    assert_eq!(g.all_connections_for_vm(0), vec![1]);
    assert_eq!(g.all_connections_for_vm(1), vec![0]);
    assert_eq!(g.all_connections_for_vm(2), Vec::<usize>::new());
    assert!(g.connection_exists(1, 0));
    assert!(!g.connection_exists(1, 2));
}

#[test]
fn blocks_are_aligned_and_skip_one_block_when_realigned() {
    let a = SubnetCandidate::from_members(vec![0, 1]).unwrap();
    let b = SubnetCandidate::from_members(vec![2, 3, 4]).unwrap();
    let subnets = assign_subnets_and_ip_v2(&vec![a, b]).unwrap();
    assert_eq!(subnets[0].prefix.to_string(), "10.1.0.0/27");
    // the cursor stands at 10.1.0.18: down to 10.1.0.0, then two blocks of 32 up
    assert_eq!(subnets[1].prefix.to_string(), "10.1.0.64/27");
    assert_eq!(subnets[1].connected_vms[0], (2, Ipv4Address::new(10, 1, 0, 72)));
    assert_eq!(subnets[1].connected_vms[2], (4, Ipv4Address::new(10, 1, 0, 74)));
}

#[test]
fn sixteen_members_fill_a_block_of_thirty_two() {
    let members: Vec<usize> = (0..16).collect();
    let a = SubnetCandidate::from_members(members).unwrap();
    let b = SubnetCandidate::from_members(vec![20, 21]).unwrap();
    let subnets = assign_subnets_and_ip_v2(&vec![a, b]).unwrap();
    assert_eq!(subnets[0].prefix.to_string(), "10.1.0.0/27");
    assert_eq!(subnets[0].connected_vms[15].1.to_string(), "10.1.0.23");
    assert_eq!(subnets[1].prefix.to_string(), "10.1.0.32/27");
}

#[test]
fn a_small_subnet_behind_a_large_one_can_start_inside_its_prefix() {
    let members: Vec<usize> = (0..80).collect();
    let a = SubnetCandidate::from_members(members).unwrap();
    let b = SubnetCandidate::from_members(vec![100, 101]).unwrap();
    let subnets = assign_subnets_and_ip_v2(&vec![a, b]).unwrap();
    assert_eq!(subnets[0].prefix.to_string(), "10.1.0.0/25");
    assert_eq!(subnets[1].prefix.to_string(), "10.1.0.96/27");
}

fn pairs(n: usize) -> Vec<SubnetCandidate> {
    (0..n).map(|i| SubnetCandidate::from_members(vec![2 * i, 2 * i + 1]).unwrap()).collect()
}

#[test]
fn allocation_fails_when_the_space_is_full() {
    // each pair takes 64 addresses of the 16711680 between 10.1.0.0 and 11.0.0.0
    let fitting = assign_subnets_and_ip_v2(&pairs(261120)).unwrap();
    assert_eq!(fitting[261119].prefix.to_string(), "10.255.255.192/27");
    assert_eq!(
        assign_subnets_and_ip_v2(&pairs(261121)).err(),
        Some(AllocationError::AddressSpaceExhausted)
    );
}

#[test]
fn candidates_refuse_a_member_named_twice() {
    assert!(SubnetCandidate::from_members(vec![1, 2, 1]).is_none());
    let c = SubnetCandidate::from_members(vec![4, 2]).unwrap();
    assert_eq!(c.len(), 2);
    assert!(c.contains(4));
    assert!(!c.contains(3));
    assert_eq!(c.members(), vec![4, 2]);
}
