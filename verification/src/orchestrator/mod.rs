//! The machine that serves the other machines their files.

use vstd::prelude::*;
use vstd::string::StringExecFns;
use crate::asir::OsCandidates;
use crate::pasir::connections::Subnet;
use crate::pasir::machines::{Auth, Disk, DiskType, HwConfig, Os, Vm};
use crate::utils::strmap::StringMap;
use crate::utils::types::{CidrIP, Ipv4Address};

verus! {

/// The user of the webserver.
pub const ORCH_USER: &'static str = "orch";

/// The password of the user of the webserver.
pub const ORCH_PASS: &'static str = "asdfgDDFjklqwe1234";

/// The map with the four global replacements of the webserver.
pub open spec fn with_orchestrator_tokens(map: Map<Seq<char>, Seq<char>>) -> Map<
    Seq<char>,
    Seq<char>,
> {
    map.insert("machines/orchestrator/user"@, ORCH_USER@).insert(
        "machines/orchestrator/username"@,
        ORCH_USER@,
    ).insert("machines/orchestrator/pass"@, ORCH_PASS@).insert(
        "machines/orchestrator/password"@,
        ORCH_PASS@,
    )
}

/// Makes the webserver: a machine named `orchestrator` with the default
/// hardware, remote access and the long-term release of Ubuntu, alone in the
/// subnet 10.1.0.0/16 at the address 10.1.0.5. Its size is the one from the
/// environment, where there is one; else the one from the configuration. Its
/// user and password go to the map of global replacements.
pub fn create(
    size_from_environment: Option<String>,
    size_from_config: Option<String>,
    global_replacements: &mut StringMap,
) -> (r: (Vm, Subnet))
    requires
        old(global_replacements).wf(),
    ensures
        final(global_replacements).wf(),
        final(global_replacements)@ == with_orchestrator_tokens(old(global_replacements)@),
        r.0.name@ == "orchestrator"@,
        r.0.os.candidates.custom_os@.len() == 0,
        r.0.os.candidates.approx_os@.len() == 0,
        r.0.os.candidates.common_os@.len() == 1,
        r.0.os.candidates.common_os@[0]@ == "UbuntuLTS"@,
        r.0.hwconfig is Some,
        r.0.hwconfig->0.cpu_freq_mhz == 5000,
        r.0.hwconfig->0.cpu_cores == 4,
        r.0.hwconfig->0.ram_gb == 16,
        r.0.hwconfig->0.storage@ == seq![
            Disk { is_main: true, capacity_gb: 1000, tpe: DiskType::SSD, grade: 255 },
        ],
        r.0.override_config == match size_from_environment {
            Some(s) => Some(s),
            None => size_from_config,
        },
        r.0.config_template@.len() == 0,
        r.0.role@.len() == 0,
        r.0.has_remote_access,
        r.0.auth.user@ == ORCH_USER@,
        r.0.auth.password@ == ORCH_PASS@,
        r.1.prefix == (CidrIP { ip: Ipv4Address { value: 0x0A01_0000 }, netmask: 16 }),
        r.1.connected_vms@ == seq![(0usize, Ipv4Address { value: 0x0A01_0005 })],
        r.1.wf(),
{
    let override_config = match size_from_environment {
        Some(val) => Some(val),
        None => size_from_config,
    };
    let vm = Vm {
        name: String::from_str("orchestrator"),
        os: Os { candidates: OsCandidates::common_only("UbuntuLTS") },
        hwconfig: Some(HwConfig::default()),
        override_config,
        config_template: String::new(),
        role: String::new(),
        has_remote_access: true,
        auth: Auth { user: String::from_str(ORCH_USER), password: String::from_str(ORCH_PASS) },
    };
    global_replacements.insert(
        String::from_str("machines/orchestrator/user"),
        String::from_str(ORCH_USER),
    );
    global_replacements.insert(
        String::from_str("machines/orchestrator/username"),
        String::from_str(ORCH_USER),
    );
    global_replacements.insert(
        String::from_str("machines/orchestrator/pass"),
        String::from_str(ORCH_PASS),
    );
    global_replacements.insert(
        String::from_str("machines/orchestrator/password"),
        String::from_str(ORCH_PASS),
    );
    let mut connected_vms: Vec<(usize, Ipv4Address)> = Vec::new();
    connected_vms.push((0, Ipv4Address { value: 0x0A01_0005 }));
    let sn = Subnet {
        prefix: CidrIP { ip: Ipv4Address { value: 0x0A01_0000 }, netmask: 16 },
        connected_vms,
    };
    proof {
        assert(sn.connected_vms@ =~= seq![(0usize, Ipv4Address { value: 0x0A01_0005 })]);
        assert(sn.machines() =~= seq![0usize]);
    }
    (vm, sn)
}

} // verus!
