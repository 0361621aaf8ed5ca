//! From the logical to the physical representation.

use vstd::prelude::*;
use crate::lasir;
use crate::lasir::connections::VmConnectionLogicalV2;
use crate::pasir::connections::{
    assign_subnets_and_ip_v2, cover_upto, create_network_from_logical, cursor_after,
    is_subnet_cover, member_counts, member_lists, subnet_start, AllocationError, Subnet,
    ADDRESS_LIMIT,
};
use crate::pasir::machines::{Auth, Disk, DiskType, HwConfig, Os, Vm};

verus! {

/// The member counts of lists of machines.
pub open spec fn list_sizes(lists: Seq<Seq<usize>>) -> Seq<nat> {
    Seq::new(lists.len(), |i: int| lists[i].len())
}

/// The subnets of a connection graph, each with its prefix and the addresses
/// of its machines: the subnets are inferred from the graph, and get their
/// addresses in the order in which they were inferred. Fails where the
/// subnets do not fit into 10.0.0.0/8.
pub fn lasir_network_to_pasir_network(connections: &VmConnectionLogicalV2) -> (r: Result<
    Vec<Subnet>,
    AllocationError,
>)
    requires
        connections.wf(),
    ensures
        ({
            let lists = cover_upto(*connections, connections.count() as int);
            let sizes = list_sizes(lists);
            &&& is_subnet_cover(*connections, lists)
            &&& r is Ok <==> cursor_after(sizes, sizes.len() as int) <= ADDRESS_LIMIT
            &&& r is Ok ==> r->Ok_0@.len() == lists.len() && forall|i: int|
                0 <= i < lists.len() ==> (#[trigger] r->Ok_0@[i]).is_allocation_of(
                    lists[i],
                    subnet_start(sizes, i),
                ) && r->Ok_0@[i].wf()
        }),
{
    let subnet_candidates = create_network_from_logical(connections);
    let real_subnets = assign_subnets_and_ip_v2(&subnet_candidates);
    proof {
        let lists = cover_upto(*connections, connections.count() as int);
        assert(member_counts(subnet_candidates@) =~= list_sizes(lists));
        assert forall|i: int| 0 <= i < lists.len() implies lists[i] == (
        #[trigger] subnet_candidates@[i])@ by {
            assert(member_lists(subnet_candidates@)[i] == subnet_candidates@[i]@);
        }
        if real_subnets is Ok {
            let subnets = real_subnets->Ok_0@;
            assert forall|i: int| 0 <= i < lists.len() implies (#[trigger] subnets[i]).wf() by {
                let sn = subnets[i];
                assert(subnet_candidates@[i].wf());
                assert(sn.machines() =~= lists[i]) by {
                    assert forall|j: int| 0 <= j < lists[i].len() implies sn.machines()[j]
                        == lists[i][j] by {
                        assert(sn.connected_vms@[j].0 == lists[i][j]);
                    }
                }
            }
        }
    }
    real_subnets
}

/// The disk kind of the physical representation for one of the logical
/// representation.
pub open spec fn disk_type_of(t: lasir::machines::DiskType) -> DiskType {
    match t {
        lasir::machines::DiskType::HDD => DiskType::HDD,
        lasir::machines::DiskType::SSD => DiskType::SSD,
        lasir::machines::DiskType::NVM => DiskType::NVM,
        lasir::machines::DiskType::OTHER1 => DiskType::OTHER1,
        lasir::machines::DiskType::OTHER2 => DiskType::OTHER2,
        lasir::machines::DiskType::OTHER3 => DiskType::OTHER3,
    }
}

/// The disk of the physical representation for one of the logical
/// representation.
pub open spec fn disk_of(d: lasir::machines::Disk) -> Disk {
    Disk {
        is_main: d.is_main,
        capacity_gb: d.capacity_gb,
        tpe: disk_type_of(d.tpe),
        grade: d.grade,
    }
}

/// Whether `p` asks for the hardware that `l` asks for.
pub open spec fn same_hardware(l: lasir::machines::HwConfig, p: HwConfig) -> bool {
    &&& p.cpu_freq_mhz == l.cpu_freq_mhz
    &&& p.cpu_cores == l.cpu_cores
    &&& p.ram_gb == l.ram_gb
    &&& p.storage@ == l.storage@.map_values(|d: lasir::machines::Disk| disk_of(d))
}

/// Whether `p` is the machine `l`, field by field.
pub open spec fn same_machine(l: lasir::machines::Vm, p: Vm) -> bool {
    &&& p.name == l.name
    &&& p.os.candidates.custom_os@ == l.os.candidates.custom_os@
    &&& p.os.candidates.common_os@ == l.os.candidates.common_os@
    &&& p.os.candidates.approx_os@ == l.os.candidates.approx_os@
    &&& p.override_config == l.override_config
    &&& match l.hwconfig {
        Some(lh) => p.hwconfig is Some && same_hardware(lh, p.hwconfig->0),
        None => p.hwconfig is None,
    }
    &&& p.config_template == l.config_template
    &&& p.has_remote_access == l.has_remote_access
    &&& p.role == l.role
    &&& p.auth.user == l.auth.user
    &&& p.auth.password == l.auth.password
}

/// One disk, carried over.
pub fn translate_storage(lasir_storage: &lasir::machines::Disk) -> (r: Disk)
    ensures
        r == disk_of(*lasir_storage),
{
    let dsk = lasir_storage;
    Disk {
        is_main: dsk.is_main,
        capacity_gb: dsk.capacity_gb,
        tpe: match dsk.tpe {
            lasir::machines::DiskType::HDD => DiskType::HDD,
            lasir::machines::DiskType::SSD => DiskType::SSD,
            lasir::machines::DiskType::NVM => DiskType::NVM,
            lasir::machines::DiskType::OTHER1 => DiskType::OTHER1,
            lasir::machines::DiskType::OTHER2 => DiskType::OTHER2,
            lasir::machines::DiskType::OTHER3 => DiskType::OTHER3,
        },
        grade: dsk.grade,
    }
}

/// The hardware of a machine, carried over.
pub fn gather_hwconfig(lasir_hwconfig: &lasir::machines::HwConfig) -> (r: HwConfig)
    ensures
        same_hardware(*lasir_hwconfig, r),
{
    let l = lasir_hwconfig;
    let mut storage: Vec<Disk> = Vec::new();
    let mut k: usize = 0;
    while k < l.storage.len()
        invariant
            k <= l.storage@.len(),
            storage@ == l.storage@.subrange(0, k as int).map_values(
                |d: lasir::machines::Disk| disk_of(d),
            ),
        decreases l.storage@.len() - k,
    {
        storage.push(translate_storage(&l.storage[k]));
        proof {
            assert(storage@ =~= l.storage@.subrange(0, k + 1).map_values(
                |d: lasir::machines::Disk| disk_of(d),
            ));
        }
        k = k + 1;
    }
    proof {
        assert(l.storage@.subrange(0, k as int) =~= l.storage@);
    }
    HwConfig { cpu_freq_mhz: l.cpu_freq_mhz, cpu_cores: l.cpu_cores, ram_gb: l.ram_gb, storage }
}

/// One machine, carried over.
pub fn translate_vm(vm: &lasir::machines::Vm) -> (r: Vm)
    ensures
        same_machine(*vm, r),
{
    let out_hwc = match &vm.hwconfig {
        Some(hwc) => Some(gather_hwconfig(hwc)),
        None => None,
    };
    let override_config = match &vm.override_config {
        Some(o) => Some(o.clone()),
        None => None,
    };
    Vm {
        name: vm.name.clone(),
        os: Os { candidates: vm.os.candidates.duplicate() },
        override_config,
        hwconfig: out_hwc,
        config_template: vm.config_template.clone(),
        has_remote_access: vm.has_remote_access,
        role: vm.role.clone(),
        auth: Auth { user: vm.auth.user.clone(), password: vm.auth.password.clone() },
    }
}

/// The machines of the logical representation, carried over one by one in
/// their order.
pub fn lasir_vms_to_pasir_vms(vms: &Vec<lasir::machines::Vm>) -> (r: Vec<Vm>)
    ensures
        r@.len() == vms@.len(),
        forall|i: int| 0 <= i < vms@.len() ==> same_machine(vms@[i], #[trigger] r@[i]),
{
    let mut ret: Vec<Vm> = Vec::new();
    let mut k: usize = 0;
    while k < vms.len()
        invariant
            k <= vms@.len(),
            ret@.len() == k,
            forall|i: int| 0 <= i < k ==> same_machine(vms@[i], #[trigger] ret@[i]),
        decreases vms@.len() - k,
    {
        ret.push(translate_vm(&vms[k]));
        k = k + 1;
    }
    ret
}

} // verus!
