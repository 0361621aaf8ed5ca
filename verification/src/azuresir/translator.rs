//! From the physical representation to the provider's.

use vstd::prelude::*;
use vstd::string::StringExecFns;
use crate::azuresir::system::{nic_views, public_first, Globals, Nic, NicView, Subnet, Vm, Vnet, WholeSystem};
use crate::cloud_functions::azure::{find_best_matching_vm_name, is_choice, AzureProperties};
use crate::pasir;
use crate::utils::strmap::StringMap;
use crate::utils::text::{decimal, push_decimal};
use crate::utils::types::{CidrIP, Ipv4Address};

verus! {

/// The name of the provider's subnet for the physical subnet at `idx`.
pub open spec fn subnet_name(vnet: Seq<char>, idx: nat) -> Seq<char> {
    vnet + "_subnet-"@ + decimal(idx)
}

/// The name of the subnet for machines that are connected to no other.
pub open spec fn stub_subnet_name(vnet: Seq<char>) -> Seq<char> {
    vnet + "-stub-subnet"@
}

/// The name of the interface of a machine that has `k` interfaces already.
pub open spec fn nic_name(vm: Seq<char>, k: nat) -> Seq<char> {
    vm + "-nic"@ + decimal(k)
}

/// The name of the interface on the stub subnet of a machine whose address
/// there ends in `c`.
pub open spec fn stub_nic_name(vm: Seq<char>, c: nat) -> Seq<char> {
    vm + "-stub-nic-"@ + decimal(c)
}

/// The first place at or behind `i` where `v` stands in `m`; the length of
/// `m` where there is none.
pub open spec fn place_from(m: Seq<usize>, v: usize, i: int) -> int
    decreases m.len() - i,
{
    if i < 0 || i >= m.len() {
        m.len() as int
    } else if m[i] == v {
        i
    } else {
        place_from(m, v, i + 1)
    }
}

/// The address of machine `v` in a subnet that holds it.
pub open spec fn address_in(sn: pasir::connections::Subnet, v: usize) -> Ipv4Address {
    sn.connected_vms@[place_from(sn.machines(), v, 0)].1
}

/// Where no machine is named twice, each machine stands at its first place.
pub proof fn lemma_place_from(m: Seq<usize>, j: int, i: int)
    requires
        m.no_duplicates(),
        0 <= i <= j < m.len(),
    ensures
        place_from(m, m[j], i) == j,
    decreases j - i,
{
    if i < j {
        assert(m[i] != m[j]);
        lemma_place_from(m, j, i + 1);
    }
}

/// The interfaces that machine `v` has from the first `upto` subnets: one
/// for each subnet that holds it, in the subnets' order. The interface is
/// named by the number of interfaces before it, and has a public address if
/// it is the first and the machine has remote access.
pub open spec fn regular_nics(
    vms: Seq<pasir::machines::Vm>,
    network: Seq<pasir::connections::Subnet>,
    vnet: Seq<char>,
    v: int,
    upto: int,
) -> Seq<NicView>
    decreases upto,
{
    if upto <= 0 {
        Seq::empty()
    } else {
        let prev = regular_nics(vms, network, vnet, v, upto - 1);
        let sn = network[upto - 1];
        if sn.machines().contains(v as usize) {
            prev.push(
                NicView {
                    name: nic_name(vms[v].name@, prev.len()),
                    vnet: vnet,
                    subnet: subnet_name(vnet, (upto - 1) as nat),
                    private_ip_address: address_in(sn, v as usize),
                    has_public_ip_address: prev.len() == 0 && vms[v].has_remote_access,
                },
            )
        } else {
            prev
        }
    }
}

/// Whether machine `v` is in none of the subnets.
pub open spec fn is_isolated(network: Seq<pasir::connections::Subnet>, v: int) -> bool {
    forall|s: int| 0 <= s < network.len() ==> !(#[trigger] network[s]).machines().contains(v as usize)
}

/// How many of the machines below `upto` are in none of the subnets.
pub open spec fn isolated_count(network: Seq<pasir::connections::Subnet>, upto: int) -> nat
    decreases upto,
{
    if upto <= 0 {
        0
    } else {
        isolated_count(network, upto - 1) + if is_isolated(network, upto - 1) {
            1nat
        } else {
            0nat
        }
    }
}

/// The interface on the stub subnet of a machine whose address there ends
/// in `c`: it has the address `10.0.255.c` and a public address.
pub open spec fn stub_nic(vm: Seq<char>, vnet: Seq<char>, c: u8) -> NicView {
    NicView {
        name: stub_nic_name(vm, c as nat),
        vnet: vnet,
        subnet: stub_subnet_name(vnet),
        private_ip_address: Ipv4Address { value: (0x0A00_FF00 + c) as u32 },
        has_public_ip_address: true,
    }
}

/// The interfaces of machine `v`: those from the subnets that hold it; for a
/// machine in no subnet, one interface on the stub subnet, whose address ends
/// in the counter's value after as many steps as isolated machines stand
/// before `v`.
pub open spec fn nics_of(
    vms: Seq<pasir::machines::Vm>,
    network: Seq<pasir::connections::Subnet>,
    vnet: Seq<char>,
    v: int,
    counter: u8,
) -> Seq<NicView> {
    if is_isolated(network, v) {
        seq![stub_nic(vms[v].name@, vnet, ((counter + isolated_count(network, v)) % 256) as u8)]
    } else {
        regular_nics(vms, network, vnet, v, network.len() as int)
    }
}

/// A machine is in none of the first `upto` subnets exactly when it has no
/// interface from them.
pub proof fn lemma_no_nics_iff_unseen(
    vms: Seq<pasir::machines::Vm>,
    network: Seq<pasir::connections::Subnet>,
    vnet: Seq<char>,
    v: int,
    upto: int,
)
    requires
        0 <= upto <= network.len(),
    ensures
        regular_nics(vms, network, vnet, v, upto).len() == 0 <==> forall|s: int|
            0 <= s < upto ==> !(#[trigger] network[s]).machines().contains(v as usize),
        regular_nics(vms, network, vnet, v, upto).len() <= upto,
    decreases upto,
{
    if upto > 0 {
        lemma_no_nics_iff_unseen(vms, network, vnet, v, upto - 1);
    }
}

/// Only the first interface of a machine can have a public address, so the
/// interfaces with a public address stand before the others.
pub proof fn lemma_regular_nics_public_first(
    vms: Seq<pasir::machines::Vm>,
    network: Seq<pasir::connections::Subnet>,
    vnet: Seq<char>,
    v: int,
    upto: int,
)
    requires
        0 <= upto <= network.len(),
    ensures
        forall|k: int|
            1 <= k < regular_nics(vms, network, vnet, v, upto).len() ==> !(
            #[trigger] regular_nics(vms, network, vnet, v, upto)[k]).has_public_ip_address,
        public_first(regular_nics(vms, network, vnet, v, upto)),
    decreases upto,
{
    if upto > 0 {
        lemma_regular_nics_public_first(vms, network, vnet, v, upto - 1);
        let prev = regular_nics(vms, network, vnet, v, upto - 1);
        let cur = regular_nics(vms, network, vnet, v, upto);
        assert forall|k: int| 1 <= k < cur.len() implies !(#[trigger] cur[k]).has_public_ip_address by {
            if k < prev.len() {
                assert(cur[k] == prev[k]);
            }
        }
    }
}

/// In the list of interfaces of any machine, those with a public address
/// stand before those without, and at most one has a public address.
pub proof fn lemma_nics_public_first(
    vms: Seq<pasir::machines::Vm>,
    network: Seq<pasir::connections::Subnet>,
    vnet: Seq<char>,
    v: int,
    counter: u8,
)
    ensures
        public_first(nics_of(vms, network, vnet, v, counter)),
        forall|k: int|
            1 <= k < nics_of(vms, network, vnet, v, counter).len() ==> !(#[trigger] nics_of(
                vms,
                network,
                vnet,
                v,
                counter,
            )[k]).has_public_ip_address,
{
    lemma_regular_nics_public_first(vms, network, vnet, v, network.len() as int);
}

/// Every subnet names each of its machines once, and names machines below
/// `vm_count` only.
pub open spec fn network_fits(vm_count: nat, network: Seq<pasir::connections::Subnet>) -> bool {
    forall|s: int|
        0 <= s < network.len() ==> {
            &&& (#[trigger] network[s]).wf()
            &&& forall|j: int|
                0 <= j < network[s].connected_vms@.len() ==> (
                #[trigger] network[s].connected_vms@[j]).0 < vm_count
        }
}

/// The interfaces that machine `v` has once the first `s` subnets and the
/// first `j` machines of subnet `s` are done.
pub open spec fn nics_during(
    vms: Seq<pasir::machines::Vm>,
    network: Seq<pasir::connections::Subnet>,
    vnet: Seq<char>,
    v: int,
    s: int,
    j: int,
) -> Seq<NicView> {
    if network[s].machines().subrange(0, j).contains(v as usize) {
        regular_nics(vms, network, vnet, v, s + 1)
    } else {
        regular_nics(vms, network, vnet, v, s)
    }
}

/// The interfaces of every machine from the subnets that hold it.
pub fn build_nics(
    vms: &Vec<pasir::machines::Vm>,
    network: &Vec<pasir::connections::Subnet>,
    vnet_name: &str,
) -> (all_nics: Vec<Vec<Nic>>)
    requires
        network_fits(vms@.len(), network@),
    ensures
        all_nics@.len() == vms@.len(),
        forall|v: int|
            0 <= v < vms@.len() ==> nic_views((#[trigger] all_nics@[v])@) == regular_nics(
                vms@,
                network@,
                vnet_name@,
                v,
                network@.len() as int,
            ),
{
    let mut all_nics: Vec<Vec<Nic>> = Vec::new();
    let mut i: usize = 0;
    while i < vms.len()
        invariant
            i <= vms@.len(),
            all_nics@.len() == i,
            forall|v: int| 0 <= v < i ==> (#[trigger] all_nics@[v])@.len() == 0,
        decreases vms@.len() - i,
    {
        all_nics.push(Vec::new());
        i = i + 1;
    }
    proof {
        assert forall|v: int| 0 <= v < vms@.len() implies nic_views((#[trigger] all_nics@[v])@)
            == regular_nics(vms@, network@, vnet_name@, v, 0) by {
            assert(nic_views(all_nics@[v]@) =~= Seq::<NicView>::empty());
        }
    }
    let total = vms.len();
    let mut subnet_idx: usize = 0;
    while subnet_idx < network.len()
        invariant
            subnet_idx <= network@.len(),
            network_fits(vms@.len(), network@),
            all_nics@.len() == vms@.len(),
            vms@.len() <= usize::MAX,
            forall|v: int|
                0 <= v < vms@.len() ==> nic_views((#[trigger] all_nics@[v])@) == regular_nics(
                    vms@,
                    network@,
                    vnet_name@,
                    v,
                    subnet_idx as int,
                ),
        decreases network@.len() - subnet_idx,
    {
        let sn = &network[subnet_idx];
        let mut name = String::from_str(vnet_name);
        name.append("_subnet-");
        push_decimal(&mut name, subnet_idx as u64);
        let ghost machines = sn.machines();
        proof {
            assert forall|v: int| 0 <= v < vms@.len() implies nic_views((#[trigger] all_nics@[v])@)
                == nics_during(vms@, network@, vnet_name@, v, subnet_idx as int, 0) by {
                assert(machines.subrange(0, 0) =~= Seq::<usize>::empty());
            }
        }
        let mut j: usize = 0;
        while j < sn.connected_vms.len()
            invariant
                j <= sn.connected_vms@.len(),
                subnet_idx < network@.len(),
                *sn == network@[subnet_idx as int],
                machines == sn.machines(),
                name@ == subnet_name(vnet_name@, subnet_idx as nat),
                network_fits(vms@.len(), network@),
                all_nics@.len() == vms@.len(),
                vms@.len() <= usize::MAX,
                forall|v: int|
                    0 <= v < vms@.len() ==> nic_views((#[trigger] all_nics@[v])@) == nics_during(
                        vms@,
                        network@,
                        vnet_name@,
                        v,
                        subnet_idx as int,
                        j as int,
                    ),
            decreases sn.connected_vms@.len() - j,
        {
            let vm_idx = sn.connected_vms[j].0;
            let ip = sn.connected_vms[j].1;
            let ghost before = all_nics@;
            proof {
                assert(sn.wf());
                assert(machines[j as int] == vm_idx);
                assert(machines.contains(vm_idx));
                // the machine is not among the earlier ones of this subnet
                let early = machines.subrange(0, j as int);
                if early.contains(vm_idx) {
                    let k = choose|k: int| 0 <= k < early.len() && early[k] == vm_idx;
                    assert(machines[k] == machines[j as int]);
                }
                // its address in the subnet is the one that stands beside it
                lemma_place_from(machines, j as int, 0);
                assert(address_in(*sn, vm_idx) == ip);
            }
            let nic_num = all_nics[vm_idx].len();
            let mut label = vms[vm_idx].name.clone();
            label.append("-nic");
            push_decimal(&mut label, nic_num as u64);
            let nic = Nic {
                name: label,
                vnet: String::from_str(vnet_name),
                subnet: name.clone(),
                private_ip_address: ip,
                has_public_ip_address: nic_num == 0 && vms[vm_idx].has_remote_access,
            };
            let ghost nv = nic@;
            proof {
                assert(nic_views(before[vm_idx as int]@).len() == nic_num);
                assert(nv == (NicView {
                    name: nic_name(vms@[vm_idx as int].name@, nic_num as nat),
                    vnet: vnet_name@,
                    subnet: subnet_name(vnet_name@, subnet_idx as nat),
                    private_ip_address: address_in(*sn, vm_idx),
                    has_public_ip_address: nic_num == 0 && vms@[vm_idx as int].has_remote_access,
                }));
                assert(regular_nics(vms@, network@, vnet_name@, vm_idx as int, subnet_idx + 1)
                    == regular_nics(
                    vms@,
                    network@,
                    vnet_name@,
                    vm_idx as int,
                    subnet_idx as int,
                ).push(nv));
            }
            all_nics[vm_idx].push(nic);
            proof {
                let early = machines.subrange(0, j as int);
                let early1 = machines.subrange(0, j + 1);
                assert(early1 =~= early.push(vm_idx));
                assert forall|v: int| 0 <= v < vms@.len() implies nic_views(
                    (#[trigger] all_nics@[v])@,
                ) == nics_during(vms@, network@, vnet_name@, v, subnet_idx as int, j + 1) by {
                    if v == vm_idx {
                        assert(early1[j as int] == vm_idx);
                        assert(nic_views(all_nics@[v]@) =~= nic_views(before[v]@).push(nv));
                    } else {
                        assert(all_nics@[v] == before[v]);
                        if early.contains(v as usize) {
                            let k = choose|k: int| 0 <= k < early.len() && early[k] == v as usize;
                            assert(early1[k] == v as usize);
                        }
                        if early1.contains(v as usize) {
                            let k = choose|k: int| 0 <= k < early1.len() && early1[k] == v as usize;
                            if k < j {
                                assert(early[k] == v as usize);
                            } else {
                                assert(early1[k] == vm_idx);
                            }
                        }
                    }
                }
            }
            j = j + 1;
        }
        proof {
            assert(machines.subrange(0, j as int) =~= machines);
        }
        subnet_idx = subnet_idx + 1;
    }
    all_nics
}

/// Why no record could be made for a deployment. Each error names the
/// machine by its place.
#[derive(Clone, Copy, Debug, PartialEq, Eq, Structural)]
pub enum ProviderError {
    /// The machine names no size of the provider and asks for no hardware.
    NoHardwareDescription(usize),
    /// The machine asks for hardware, and the catalog of sizes is empty.
    NoMatchingSize(usize),
    /// The machine names no common operating system.
    NoCommonOs(usize),
    /// The provider has no image for the machine's operating system.
    UnknownOs(usize),
}

/// What stands in the way of a record for the machine at place `v`, if
/// anything. The size is looked at before the operating system.
pub open spec fn vm_problem(
    vm: pasir::machines::Vm,
    v: usize,
    os_map: Map<Seq<char>, Seq<char>>,
    catalog_len: nat,
) -> Option<ProviderError> {
    if vm.override_config is None && vm.hwconfig is None {
        Some(ProviderError::NoHardwareDescription(v))
    } else if vm.override_config is None && catalog_len == 0 {
        Some(ProviderError::NoMatchingSize(v))
    } else if vm.os.candidates.common_os@.len() == 0 {
        Some(ProviderError::NoCommonOs(v))
    } else if !os_map.contains_key(vm.os.candidates.common_os@[0]@) {
        Some(ProviderError::UnknownOs(v))
    } else {
        None
    }
}

/// The problem of the first machine at or behind place `from` that has one.
pub open spec fn first_problem(
    vms: Seq<pasir::machines::Vm>,
    os_map: Map<Seq<char>, Seq<char>>,
    catalog_len: nat,
    from: int,
) -> Option<ProviderError>
    decreases vms.len() - from,
{
    if from < 0 || from >= vms.len() {
        None
    } else if vm_problem(vms[from], from as usize, os_map, catalog_len) is Some {
        vm_problem(vms[from], from as usize, os_map, catalog_len)
    } else {
        first_problem(vms, os_map, catalog_len, from + 1)
    }
}

/// Where no machine has a problem, the machine at any place has none.
pub proof fn lemma_no_problem(
    vms: Seq<pasir::machines::Vm>,
    os_map: Map<Seq<char>, Seq<char>>,
    catalog_len: nat,
    from: int,
    v: int,
)
    requires
        0 <= from <= v < vms.len(),
        first_problem(vms, os_map, catalog_len, from) is None,
    ensures
        vm_problem(vms[v], v as usize, os_map, catalog_len) is None,
    decreases v - from,
{
    if from < v {
        lemma_no_problem(vms, os_map, catalog_len, from + 1, v);
    }
}

/// The problem of the first machine that has one.
pub fn find_problem(
    vms: &Vec<pasir::machines::Vm>,
    os_map: &StringMap,
    catalog: &Vec<AzureProperties>,
) -> (r: Option<ProviderError>)
    requires
        os_map.wf(),
    ensures
        r == first_problem(vms@, os_map@, catalog@.len(), 0),
{
    let mut v: usize = 0;
    while v < vms.len()
        invariant
            v <= vms@.len(),
            os_map.wf(),
            first_problem(vms@, os_map@, catalog@.len(), 0) == first_problem(
                vms@,
                os_map@,
                catalog@.len(),
                v as int,
            ),
        decreases vms@.len() - v,
    {
        let vm = &vms[v];
        if vm.override_config.is_none() && vm.hwconfig.is_none() {
            return Some(ProviderError::NoHardwareDescription(v));
        }
        if vm.override_config.is_none() && catalog.len() == 0 {
            return Some(ProviderError::NoMatchingSize(v));
        }
        if vm.os.candidates.common_os.len() == 0 {
            return Some(ProviderError::NoCommonOs(v));
        }
        if !os_map.contains_key(&vm.os.candidates.common_os[0]) {
            return Some(ProviderError::UnknownOs(v));
        }
        v = v + 1;
    }
    None
}

/// Whether `size` is the size for a machine: the size that the machine
/// names; else the name of the size that is chosen from the catalog for the
/// cores and the memory that the machine asks for.
pub open spec fn is_size_for(
    vm: pasir::machines::Vm,
    catalog: Seq<AzureProperties>,
    size: Seq<char>,
) -> bool {
    match vm.override_config {
        Some(over) => size == over@,
        None => vm.hwconfig is Some && exists|k: int, lenience: int|
            #[trigger] is_choice(
                catalog,
                Some(vm.hwconfig->0.cpu_cores),
                Some(vm.hwconfig->0.ram_gb),
                k,
                lenience,
            ) && size == catalog[k].name@,
    }
}

/// The size for a machine; `None` where the machine names none and asks for
/// no hardware, or asks for hardware while the catalog is empty.
pub fn find_most_fitting_vm(vm: &pasir::machines::Vm, catalog: &Vec<AzureProperties>) -> (r: Option<
    String,
>)
    ensures
        r is None <==> (vm.override_config is None && (vm.hwconfig is None || catalog@.len() == 0)),
        r is Some ==> is_size_for(*vm, catalog@, r->0@),
{
    match &vm.override_config {
        Some(over) => Some(over.clone()),
        None => match &vm.hwconfig {
            Some(conf) => match find_best_matching_vm_name(
                Some(conf.cpu_cores),
                Some(conf.ram_gb),
                catalog,
            ) {
                Some(props) => Some(props.name),
                None => None,
            },
            None => None,
        },
    }
}

/// The path of the script that is run on a machine when it is created; empty
/// for a machine without a template.
pub open spec fn custom_script_of(vm: pasir::machines::Vm) -> Seq<char> {
    if vm.config_template@.len() == 0 {
        Seq::empty()
    } else {
        "test-deployment/"@ + vm.name@ + "/script.sh"@
    }
}

/// Whether `out` is the provider's record of the machine at place `v`.
pub open spec fn is_record_of(
    out: Vm,
    vms: Seq<pasir::machines::Vm>,
    network: Seq<pasir::connections::Subnet>,
    vnet: Seq<char>,
    os_map: Map<Seq<char>, Seq<char>>,
    catalog: Seq<AzureProperties>,
    counter: u8,
    v: int,
) -> bool {
    let vm = vms[v];
    &&& out.name@ == vm.name@
    &&& nic_views(out.nics@) == nics_of(vms, network, vnet, v, counter)
    &&& out.image@ == os_map[vm.os.candidates.common_os@[0]@]
    &&& is_size_for(vm, catalog, out.size@)
    &&& out.admin_username@ == vm.auth.user@
    &&& out.admin_password@ == vm.auth.password@
    &&& out.authentication_type@ == "all"@
    &&& out.custom_script@ == custom_script_of(vm)
}

/// Whether `ws` is the provider's record of the whole deployment: one
/// virtual network with the prefix 10.0.0.0/8; one subnet for each physical
/// subnet, with its prefix, and behind them the stub subnet 10.0.255.0/24; and
/// one record for each machine.
pub open spec fn is_system_of(
    ws: WholeSystem,
    vms: Seq<pasir::machines::Vm>,
    network: Seq<pasir::connections::Subnet>,
    vnet: Seq<char>,
    os_map: Map<Seq<char>, Seq<char>>,
    resource_group: Seq<char>,
    catalog: Seq<AzureProperties>,
    counter: u8,
) -> bool {
    &&& ws.global_config.location@ == "westeurope"@
    &&& ws.global_config.resource_group@ == resource_group
    &&& ws.global_config.has_stub_network
    &&& ws.vnet.name@ == vnet
    &&& ws.vnet.address_prefixes == (CidrIP { ip: Ipv4Address { value: 0x0A00_0000 }, netmask: 8 })
    &&& ws.subnets@.len() == network.len() + 1
    &&& forall|s: int|
        0 <= s < network.len() ==> (#[trigger] ws.subnets@[s]).name@ == subnet_name(vnet, s as nat)
            && ws.subnets@[s].address_prefixes == network[s].prefix
    &&& ws.subnets@[network.len() as int].name@ == stub_subnet_name(vnet)
    &&& ws.subnets@[network.len() as int].address_prefixes == (CidrIP {
        ip: Ipv4Address { value: 0x0A00_FF00 },
        netmask: 24,
    })
    &&& ws.vms@.len() == vms.len()
    &&& forall|v: int|
        0 <= v < vms.len() ==> is_record_of(
            #[trigger] ws.vms@[v],
            vms,
            network,
            vnet,
            os_map,
            catalog,
            counter,
            v,
        )
}

/// The provider's subnets: one for each physical subnet, and the stub
/// subnet behind them.
pub fn build_subnets(network: &Vec<pasir::connections::Subnet>, vnet_name: &str) -> (r: Vec<Subnet>)
    ensures
        r@.len() == network@.len() + 1,
        forall|s: int|
            0 <= s < network@.len() ==> (#[trigger] r@[s]).name@ == subnet_name(
                vnet_name@,
                s as nat,
            ) && r@[s].address_prefixes == network@[s].prefix,
        r@[network@.len() as int].name@ == stub_subnet_name(vnet_name@),
        r@[network@.len() as int].address_prefixes == (CidrIP {
            ip: Ipv4Address { value: 0x0A00_FF00 },
            netmask: 24,
        }),
{
    let mut subnets: Vec<Subnet> = Vec::new();
    let mut s: usize = 0;
    while s < network.len()
        invariant
            s <= network@.len(),
            subnets@.len() == s,
            forall|k: int|
                0 <= k < s ==> (#[trigger] subnets@[k]).name@ == subnet_name(vnet_name@, k as nat)
                    && subnets@[k].address_prefixes == network@[k].prefix,
        decreases network@.len() - s,
    {
        let mut name = String::from_str(vnet_name);
        name.append("_subnet-");
        push_decimal(&mut name, s as u64);
        subnets.push(Subnet { name, address_prefixes: network[s].prefix });
        s = s + 1;
    }
    let mut stub_name = String::from_str(vnet_name);
    stub_name.append("-stub-subnet");
    subnets.push(
        Subnet {
            name: stub_name,
            address_prefixes: CidrIP { ip: Ipv4Address { value: 0x0A00_FF00 }, netmask: 24 },
        },
    );
    subnets
}

/// Whether machine `v` is in none of the subnets.
pub fn in_no_subnet(network: &Vec<pasir::connections::Subnet>, v: usize) -> (r: bool)
    ensures
        r == is_isolated(network@, v as int),
{
    let mut s: usize = 0;
    while s < network.len()
        invariant
            s <= network@.len(),
            forall|k: int| 0 <= k < s ==> !(#[trigger] network@[k]).machines().contains(v),
        decreases network@.len() - s,
    {
        let sn = &network[s];
        let mut j: usize = 0;
        while j < sn.connected_vms.len()
            invariant
                j <= sn.connected_vms@.len(),
                s < network@.len(),
                *sn == network@[s as int],
                forall|k: int| 0 <= k < j ==> sn.machines()[k] != v,
            decreases sn.connected_vms@.len() - j,
        {
            if sn.connected_vms[j].0 == v {
                proof {
                    assert(sn.machines()[j as int] == v);
                    assert(network@[s as int].machines().contains(v));
                }
                return false;
            }
            j = j + 1;
        }
        s = s + 1;
    }
    true
}

/// Makes the provider's record of a deployment. Machines that are in no
/// subnet get an interface on the stub subnet; its address ends in the value
/// of `stub_counter`, which then moves on by one and starts again at zero
/// behind 255. Where a machine has a problem, nothing is made and the counter
/// stays.
pub fn pasir_to_azuresir(
    vms: &Vec<pasir::machines::Vm>,
    network: &Vec<pasir::connections::Subnet>,
    vnet_name: &str,
    os_map: &StringMap,
    resource_group: &str,
    catalog: &Vec<AzureProperties>,
    stub_counter: &mut u8,
) -> (r: Result<WholeSystem, ProviderError>)
    requires
        network_fits(vms@.len(), network@),
        os_map.wf(),
    ensures
        match first_problem(vms@, os_map@, catalog@.len(), 0) {
            Some(e) => r == Err::<WholeSystem, ProviderError>(e) && *final(stub_counter) == *old(
                stub_counter,
            ),
            None => r is Ok && is_system_of(
                r->Ok_0,
                vms@,
                network@,
                vnet_name@,
                os_map@,
                resource_group@,
                catalog@,
                *old(stub_counter),
            ) && *final(stub_counter) == (*old(stub_counter) + isolated_count(
                network@,
                vms@.len() as int,
            )) % 256,
        },
{
    match find_problem(vms, os_map, catalog) {
        Some(e) => {
            return Err(e);
        },
        None => {},
    }
    let vnet = Vnet {
        name: String::from_str(vnet_name),
        address_prefixes: CidrIP { ip: Ipv4Address { value: 0x0A00_0000 }, netmask: 8 },
    };
    let mut all_nics = build_nics(vms, network, vnet_name);
    let subnets = build_subnets(network, vnet_name);
    let ghost counter0 = *stub_counter;
    let mut all_vms: Vec<Vm> = Vec::new();
    // the machines from the last to the first, so that each list of
    // interfaces can be taken off the end
    let mut isolated: Vec<bool> = Vec::new();
    let mut v: usize = 0;
    while v < vms.len()
        invariant
            v <= vms@.len(),
            isolated@.len() == v,
            forall|k: int| 0 <= k < v ==> #[trigger] isolated@[k] == is_isolated(network@, k),
        decreases vms@.len() - v,
    {
        isolated.push(in_no_subnet(network, v));
        v = v + 1;
    }
    let mut reversed: Vec<Vec<Nic>> = Vec::new();
    while all_nics.len() > 0
        invariant
            all_nics@.len() + reversed@.len() == vms@.len(),
            forall|k: int|
                0 <= k < all_nics@.len() ==> nic_views((#[trigger] all_nics@[k])@) == regular_nics(
                    vms@,
                    network@,
                    vnet_name@,
                    k,
                    network@.len() as int,
                ),
            forall|k: int|
                0 <= k < reversed@.len() ==> nic_views((#[trigger] reversed@[k])@) == regular_nics(
                    vms@,
                    network@,
                    vnet_name@,
                    vms@.len() - 1 - k,
                    network@.len() as int,
                ),
        decreases all_nics@.len(),
    {
        let last = all_nics.pop().unwrap();
        reversed.push(last);
    }
    let mut done: usize = 0;
    while done < vms.len()
        invariant
            done <= vms@.len(),
            os_map.wf(),
            all_vms@.len() == done,
            isolated@.len() == vms@.len(),
            forall|k: int| 0 <= k < vms@.len() ==> #[trigger] isolated@[k] == is_isolated(network@, k),
            reversed@.len() == vms@.len() - done,
            first_problem(vms@, os_map@, catalog@.len(), 0) is None,
            forall|k: int|
                0 <= k < reversed@.len() ==> nic_views((#[trigger] reversed@[k])@) == regular_nics(
                    vms@,
                    network@,
                    vnet_name@,
                    vms@.len() - 1 - k,
                    network@.len() as int,
                ),
            *stub_counter == (counter0 + isolated_count(network@, done as int)) % 256,
            forall|k: int|
                0 <= k < done ==> is_record_of(
                    #[trigger] all_vms@[k],
                    vms@,
                    network@,
                    vnet_name@,
                    os_map@,
                    catalog@,
                    counter0,
                    k,
                ),
        decreases vms@.len() - done,
    {
        let pasir_vm = &vms[done];
        let regular = reversed.pop().unwrap();
        proof {
            lemma_no_problem(vms@, os_map@, catalog@.len(), 0, done as int);
            lemma_no_nics_iff_unseen(vms@, network@, vnet_name@, done as int, network@.len() as int);
            assert(nic_views(regular@).len() == regular@.len());
        }
        let vm_nics = if isolated[done] {
            let c = *stub_counter;
            *stub_counter = if c == 255 {
                0
            } else {
                c + 1
            };
            let mut stub_name = pasir_vm.name.clone();
            stub_name.append("-stub-nic-");
            push_decimal(&mut stub_name, c as u64);
            let mut stub_subnet = String::from_str(vnet_name);
            stub_subnet.append("-stub-subnet");
            let nic = Nic::new_with_public_ip(
                stub_name,
                String::from_str(vnet_name),
                stub_subnet,
                Ipv4Address { value: 0x0A00_FF00 + c as u32 },
            );
            let mut one: Vec<Nic> = Vec::new();
            let ghost nv = nic@;
            one.push(nic);
            proof {
                assert(nic_views(one@) =~= seq![nv]);
            }
            one
        } else {
            regular
        };
        let vm_size = find_most_fitting_vm(pasir_vm, catalog).unwrap();
        let image = os_map.get(&pasir_vm.os.candidates.common_os[0]).unwrap().clone();
        let custom_script = if pasir_vm.config_template.as_str().is_empty() {
            String::new()
        } else {
            let mut p = String::from_str("test-deployment/");
            p.append(pasir_vm.name.as_str());
            p.append("/script.sh");
            p
        };
        all_vms.push(
            Vm {
                name: pasir_vm.name.clone(),
                nics: vm_nics,
                image,
                size: vm_size,
                admin_username: pasir_vm.auth.user.clone(),
                admin_password: pasir_vm.auth.password.clone(),
                authentication_type: String::from_str("all"),
                custom_script,
            },
        );
        done = done + 1;
    }
    let gc = Globals {
        location: String::from_str("westeurope"),
        resource_group: String::from_str(resource_group),
        has_stub_network: true,
    };
    Ok(WholeSystem { global_config: gc, vnet, subnets, vms: all_vms })
}

/// How many of the interfaces are on the subnet with the given name.
pub open spec fn count_on(nics: Seq<NicView>, subnet: Seq<char>) -> nat
    decreases nics.len(),
{
    if nics.len() == 0 {
        0
    } else {
        count_on(nics.drop_last(), subnet) + if nics.last().subnet == subnet {
            1nat
        } else {
            0nat
        }
    }
}

/// How many interfaces the first `upto` machines of a deployment have on
/// the stub subnet.
pub open spec fn stub_nic_total(ws: WholeSystem, upto: int) -> nat
    decreases upto,
{
    if upto <= 0 {
        0
    } else {
        stub_nic_total(ws, upto - 1) + count_on(
            nic_views(ws.vms@[upto - 1].nics@),
            stub_subnet_name(ws.vnet.name@),
        )
    }
}

/// No subnet made for a physical subnet has the name of the stub subnet.
pub proof fn lemma_stub_name_differs(vnet: Seq<char>, idx: nat)
    ensures
        subnet_name(vnet, idx) != stub_subnet_name(vnet),
{
    reveal_strlit("_subnet-");
    reveal_strlit("-stub-subnet");
    let a = subnet_name(vnet, idx);
    let b = stub_subnet_name(vnet);
    assert(a[vnet.len() as int] == '_');
    assert(b[vnet.len() as int] == '-');
}

/// None of the interfaces that a machine has from the subnets that hold it
/// is on the stub subnet.
pub proof fn lemma_regular_nics_off_stub(
    vms: Seq<pasir::machines::Vm>,
    network: Seq<pasir::connections::Subnet>,
    vnet: Seq<char>,
    v: int,
    upto: int,
)
    requires
        0 <= upto <= network.len(),
    ensures
        count_on(regular_nics(vms, network, vnet, v, upto), stub_subnet_name(vnet)) == 0,
    decreases upto,
{
    if upto > 0 {
        lemma_regular_nics_off_stub(vms, network, vnet, v, upto - 1);
        let prev = regular_nics(vms, network, vnet, v, upto - 1);
        let cur = regular_nics(vms, network, vnet, v, upto);
        if network[upto - 1].machines().contains(v as usize) {
            lemma_stub_name_differs(vnet, (upto - 1) as nat);
            assert(cur.drop_last() =~= prev);
        }
    }
}

/// A deployment has as many interfaces on the stub subnet as it has machines
/// that are in no subnet.
pub proof fn lemma_stub_nics_count(
    ws: WholeSystem,
    vms: Seq<pasir::machines::Vm>,
    network: Seq<pasir::connections::Subnet>,
    os_map: Map<Seq<char>, Seq<char>>,
    resource_group: Seq<char>,
    catalog: Seq<AzureProperties>,
    counter: u8,
    upto: int,
)
    requires
        is_system_of(ws, vms, network, ws.vnet.name@, os_map, resource_group, catalog, counter),
        0 <= upto <= vms.len(),
    ensures
        stub_nic_total(ws, upto) == isolated_count(network, upto),
    decreases upto,
{
    if upto > 0 {
        lemma_stub_nics_count(ws, vms, network, os_map, resource_group, catalog, counter, upto - 1);
        let vnet = ws.vnet.name@;
        let v = upto - 1;
        let nics = nic_views(ws.vms@[v].nics@);
        assert(is_record_of(ws.vms@[v], vms, network, vnet, os_map, catalog, counter, v));
        assert(nics == nics_of(vms, network, vnet, v, counter));
        if is_isolated(network, v) {
            assert(nics.len() == 1);
            assert(nics.drop_last() =~= Seq::<NicView>::empty());
            assert(nics.last().subnet == stub_subnet_name(vnet));
            assert(count_on(nics.drop_last(), stub_subnet_name(vnet)) == 0);
        } else {
            lemma_regular_nics_off_stub(vms, network, vnet, v, network.len() as int);
        }
    }
}

/// How many of the machines below `upto` are in none of the subnets and can
/// be reached from outside.
pub open spec fn isolated_reachable_count(
    vms: Seq<pasir::machines::Vm>,
    network: Seq<pasir::connections::Subnet>,
    upto: int,
) -> nat
    decreases upto,
{
    if upto <= 0 {
        0
    } else {
        isolated_reachable_count(vms, network, upto - 1) + if is_isolated(network, upto - 1)
            && vms[upto - 1].has_remote_access {
            1nat
        } else {
            0nat
        }
    }
}

/// Where every machine that is in no subnet can be reached from outside, a
/// deployment has as many interfaces on the stub subnet as it has machines
/// that are in no subnet and can be reached from outside.
pub proof fn lemma_stub_nics_of_reachable(
    ws: WholeSystem,
    vms: Seq<pasir::machines::Vm>,
    network: Seq<pasir::connections::Subnet>,
    os_map: Map<Seq<char>, Seq<char>>,
    resource_group: Seq<char>,
    catalog: Seq<AzureProperties>,
    counter: u8,
    upto: int,
)
    requires
        is_system_of(ws, vms, network, ws.vnet.name@, os_map, resource_group, catalog, counter),
        0 <= upto <= vms.len(),
        forall|v: int| 0 <= v < vms.len() && is_isolated(network, v) ==> vms[v].has_remote_access,
    ensures
        stub_nic_total(ws, upto) == isolated_reachable_count(vms, network, upto),
    decreases upto,
{
    lemma_stub_nics_count(ws, vms, network, os_map, resource_group, catalog, counter, upto);
    lemma_reachable_count(vms, network, upto);
}

/// Where every machine that is in no subnet can be reached from outside, the
/// machines in no subnet are as many as those of them that can be reached.
pub proof fn lemma_reachable_count(
    vms: Seq<pasir::machines::Vm>,
    network: Seq<pasir::connections::Subnet>,
    upto: int,
)
    requires
        0 <= upto <= vms.len(),
        forall|v: int| 0 <= v < vms.len() && is_isolated(network, v) ==> vms[v].has_remote_access,
    ensures
        isolated_count(network, upto) == isolated_reachable_count(vms, network, upto),
    decreases upto,
{
    if upto > 0 {
        lemma_reachable_count(vms, network, upto - 1);
    }
}

} // verus!
