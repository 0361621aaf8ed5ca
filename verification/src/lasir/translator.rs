//! From the scenario to the logical representation.

use vstd::prelude::*;
use vstd::string::StringExecFns;
use crate::asir::OsCandidates;
use crate::lasir::connections::{
    added, ConnectionError, ConnectionProperties, ConnectionTo, VmConnectionLogicalV2,
    DEFAULT_CONNECTION_DROP_CHANCE_BITS, DEFAULT_CONNECTION_LATENCY_US,
    DEFAULT_CONNECTION_SPEED_MBPS,
};
use crate::lasir::machines::{Auth, Disk, DiskType, HwConfig, LogicalSystem, Os, Vm};
use crate::pasir::connections::is_complete;
use crate::utils::global_config::DefaultValues;
use crate::utils::strmap::StringMap;
use crate::utils::text::{str_equal, views};
use crate::yamlsir;

verus! {

/// The kind of a disk for the word that names it.
pub open spec fn disk_type_for(word: Seq<char>) -> DiskType {
    if word == "ssd"@ {
        DiskType::SSD
    } else if word == "hdd"@ {
        DiskType::HDD
    } else if word == "nvm"@ {
        DiskType::NVM
    } else {
        DiskType::OTHER1
    }
}

/// The disk of the logical representation for one of the scenario.
pub open spec fn disk_for(d: yamlsir::Disk) -> Disk {
    Disk {
        is_main: d.is_os_disk,
        capacity_gb: d.capacity_gb,
        tpe: disk_type_for(d.disk_type@),
        grade: d.grade,
    }
}

/// Whether `out` is the hardware that `hw` asks for, with the default values
/// for what `hw` leaves out.
pub open spec fn is_hardware_of(out: HwConfig, hw: yamlsir::HwConfig, defaults: DefaultValues) -> bool {
    &&& out.cpu_freq_mhz == match hw.cpu_freq_mhz {
        Some(f) => f,
        None => defaults.cpu_freq_mhz,
    }
    &&& out.cpu_cores == match hw.cpu_cores {
        Some(c) => c,
        None => defaults.cpu_cores,
    }
    &&& out.ram_gb == match hw.ram_gb {
        Some(r) => r,
        None => defaults.ram_gb,
    }
    &&& out.storage@ == Seq::new(hw.storage@.len(), |i: int| disk_for(hw.storage@[i]))
}

/// The hardware of a machine, with the default values for what the scenario
/// leaves out.
pub fn gather_hwconfig(yamlsir_hwconfig: &yamlsir::HwConfig, defaults: &DefaultValues) -> (r: HwConfig)
    ensures
        is_hardware_of(r, *yamlsir_hwconfig, *defaults),
{
    let mut vm_storage: Vec<Disk> = Vec::new();
    let mut k: usize = 0;
    while k < yamlsir_hwconfig.storage.len()
        invariant
            k <= yamlsir_hwconfig.storage@.len(),
            vm_storage@.len() == k,
            forall|i: int|
                0 <= i < k ==> #[trigger] vm_storage@[i] == disk_for(yamlsir_hwconfig.storage@[i]),
        decreases yamlsir_hwconfig.storage@.len() - k,
    {
        let disk = &yamlsir_hwconfig.storage[k];
        let word = disk.disk_type.as_str();
        let tpe = if str_equal(word, "ssd") {
            DiskType::SSD
        } else if str_equal(word, "hdd") {
            DiskType::HDD
        } else if str_equal(word, "nvm") {
            DiskType::NVM
        } else {
            DiskType::OTHER1
        };
        vm_storage.push(
            Disk { is_main: disk.is_os_disk, capacity_gb: disk.capacity_gb, tpe, grade: disk.grade },
        );
        k = k + 1;
    }
    proof {
        assert(vm_storage@ =~= Seq::new(
            yamlsir_hwconfig.storage@.len(),
            |i: int| disk_for(yamlsir_hwconfig.storage@[i]),
        ));
    }
    HwConfig {
        cpu_freq_mhz: match yamlsir_hwconfig.cpu_freq_mhz {
            Some(f) => f,
            None => defaults.cpu_freq_mhz,
        },
        cpu_cores: match yamlsir_hwconfig.cpu_cores {
            Some(c) => c,
            None => defaults.cpu_cores,
        },
        ram_gb: match yamlsir_hwconfig.ram_gb {
            Some(r) => r,
            None => defaults.ram_gb,
        },
        storage: vm_storage,
    }
}

/// The custom name of an operating system, if one is given.
pub fn find_custom_os(custom_name: Option<&str>, _cloud_provider: &str) -> (r: Option<String>)
    ensures
        match custom_name {
            Some(n) => r is Some && r->0@ == n@,
            None => r is None,
        },
{
    match custom_name {
        Some(n) => Some(String::from_str(n)),
        None => None,
    }
}

/// The approximate name of an operating system: there is none.
pub fn find_approximate_os(_approx_name: Option<&str>, _cloud_provider: &str) -> (r: Option<String>)
    ensures
        r is None,
{
    None
}

/// The size that a machine names for the chosen provider, if it names one.
pub open spec fn override_for(m: yamlsir::Machine, cloud: Seq<char>) -> Option<Seq<char>> {
    match m.override_config {
        Some(map) => if map@.contains_key(cloud) {
            Some(map@[cloud])
        } else {
            None
        },
        None => None,
    }
}

/// Whether a machine names sizes, but none for the chosen provider.
pub open spec fn lacks_override(m: yamlsir::Machine, cloud: Seq<char>) -> bool {
    m.override_config is Some && !m.override_config->0@.contains_key(cloud)
}

/// Whether `vm` is the machine `m` of the scenario.
pub open spec fn is_machine_of(
    vm: Vm,
    m: yamlsir::Machine,
    cloud: Seq<char>,
    defaults: DefaultValues,
) -> bool {
    &&& vm.name@ == m.name@
    &&& vm.os.candidates.custom_os@.len() == 0
    &&& vm.os.candidates.approx_os@.len() == 0
    &&& vm.os.candidates.common_os@.len() == 1
    &&& vm.os.candidates.common_os@[0]@ == m.os_common@
    &&& match m.hwconfig {
        Some(hw) => vm.hwconfig is Some && is_hardware_of(vm.hwconfig->0, hw, defaults),
        None => vm.hwconfig is None,
    }
    &&& match override_for(m, cloud) {
        Some(o) => vm.override_config is Some && vm.override_config->0@ == o,
        None => vm.override_config is None,
    }
    &&& vm.config_template@ == m.config_template@
    &&& vm.has_remote_access == m.remote_access
    &&& vm.role@ == m.role@
    &&& vm.auth.user@ == m.auth.username@
    &&& vm.auth.password@ == m.auth.password@
}

/// The map with the four global replacements of one machine: the tokens
/// `machines/<name>/user` and `machines/<name>/username` give the user's
/// name, and `machines/<name>/pass` and `machines/<name>/password` the
/// password.
pub open spec fn with_machine_tokens(
    map: Map<Seq<char>, Seq<char>>,
    name: Seq<char>,
    user: Seq<char>,
    password: Seq<char>,
) -> Map<Seq<char>, Seq<char>> {
    map.insert("machines/"@ + name + "/user"@, user).insert(
        "machines/"@ + name + "/username"@,
        user,
    ).insert("machines/"@ + name + "/pass"@, password).insert(
        "machines/"@ + name + "/password"@,
        password,
    )
}

/// The map with the global replacements of the first `upto` machines.
pub open spec fn global_after(
    map: Map<Seq<char>, Seq<char>>,
    machines: Seq<yamlsir::Machine>,
    upto: int,
) -> Map<Seq<char>, Seq<char>>
    decreases upto,
{
    if upto <= 0 {
        map
    } else {
        with_machine_tokens(
            global_after(map, machines, upto - 1),
            machines[upto - 1].name@,
            machines[upto - 1].auth.username@,
            machines[upto - 1].auth.password@,
        )
    }
}

/// A token of a machine: `machines/`, the machine's name, and `what`.
fn machine_token(name: &String, what: &str) -> (r: String)
    ensures
        r@ == "machines/"@ + name@ + what@,
{
    let mut t = String::from_str("machines/");
    t.append(name.as_str());
    t.append(what);
    t
}

/// The machine of the logical representation for one of the scenario.
pub fn translate_machine(machine: &yamlsir::Machine, chosen_cloud: &String, defaults: &DefaultValues) -> (r:
    Vm)
    requires
        machine.override_config is Some ==> machine.override_config->0.wf(),
    ensures
        is_machine_of(r, *machine, chosen_cloud@, *defaults),
{
    let hwc = match &machine.hwconfig {
        Some(conf) => Some(gather_hwconfig(conf, defaults)),
        None => None,
    };
    let override_conf = match &machine.override_config {
        Some(map) => match map.get(chosen_cloud) {
            Some(config) => Some(config.clone()),
            None => None,
        },
        None => None,
    };
    Vm {
        name: machine.name.clone(),
        os: Os { candidates: OsCandidates::common_only(machine.os_common.as_str()) },
        hwconfig: hwc,
        override_config: override_conf,
        config_template: machine.config_template.clone(),
        has_remote_access: machine.remote_access,
        role: machine.role.clone(),
        auth: Auth { user: machine.auth.username.clone(), password: machine.auth.password.clone() },
    }
}

/// The place of the last of the first `upto` machines with the given name;
/// -1 where none has it.
pub open spec fn last_index_of(machines: Seq<yamlsir::Machine>, name: Seq<char>, upto: int) -> int
    decreases upto,
{
    if upto <= 0 {
        -1
    } else if machines[upto - 1].name@ == name {
        upto - 1
    } else {
        last_index_of(machines, name, upto - 1)
    }
}

/// The place of the last machine with the given name.
pub fn find_machine(machines: &Vec<yamlsir::Machine>, name: &String) -> (r: Option<usize>)
    ensures
        match r {
            Some(i) => i == last_index_of(machines@, name@, machines@.len() as int) && i
                < machines@.len(),
            None => last_index_of(machines@, name@, machines@.len() as int) == -1,
        },
{
    let mut k: usize = machines.len();
    while k > 0
        invariant
            k <= machines@.len(),
            last_index_of(machines@, name@, machines@.len() as int) == last_index_of(
                machines@,
                name@,
                k as int,
            ),
        decreases k,
    {
        if machines[k - 1].name == *name {
            return Some(k - 1);
        }
        k = k - 1;
    }
    None
}

/// Why a scenario stands for no system.
#[derive(Clone, Copy, Debug, PartialEq, Eq, Structural)]
pub enum TranslationError {
    /// The connection at this place names a machine that the scenario does
    /// not have.
    UnknownMachine(usize),
    /// The connection at this place was refused.
    Connection(usize, ConnectionError),
}

/// Whether an edge leads from `a` to `b` in the rows.
pub open spec fn rows_have_edge(rows: Seq<Seq<ConnectionTo>>, a: int, b: int) -> bool {
    0 <= a < rows.len() && exists|k: int|
        0 <= k < rows[a].len() && (#[trigger] rows[a][k]).vm_dest == b
}

/// The rows with one more edge between `a` and `b`, in both directions.
pub open spec fn rows_with(
    rows: Seq<Seq<ConnectionTo>>,
    a: usize,
    b: usize,
    cp: ConnectionProperties,
) -> Seq<Seq<ConnectionTo>> {
    rows.update(
        a as int,
        rows[a as int].push(
            ConnectionTo {
                vm_dest: b,
                speed_mbps: cp.speed_mbps,
                latency_us: cp.latency_us,
                drop_chance_percent_bits: cp.drop_chance_percent_bits,
            },
        ),
    ).update(
        b as int,
        rows[b as int].push(
            ConnectionTo {
                vm_dest: a,
                speed_mbps: cp.speed_mbps,
                latency_us: cp.latency_us,
                drop_chance_percent_bits: cp.drop_chance_percent_bits,
            },
        ),
    )
}

/// The properties of a connection of the scenario.
pub open spec fn properties_of(c: yamlsir::Connection) -> ConnectionProperties {
    ConnectionProperties {
        speed_mbps: c.speed_mbps,
        latency_us: c.latency_us,
        drop_chance_percent_bits: c.packet_drop_percent_bits,
    }
}

/// The rows of the graph after the first `upto` connections of the scenario;
/// the error of the first connection that is refused: because it names a
/// machine that the scenario does not have, connects a machine to itself, or
/// connects two machines a second time. A name stands for the last machine
/// that has it.
pub open spec fn rows_after(
    machines: Seq<yamlsir::Machine>,
    connections: Seq<yamlsir::Connection>,
    upto: int,
) -> Result<Seq<Seq<ConnectionTo>>, TranslationError>
    decreases upto,
{
    if upto <= 0 {
        Ok(Seq::new(machines.len(), |i: int| Seq::<ConnectionTo>::empty()))
    } else {
        match rows_after(machines, connections, upto - 1) {
            Err(e) => Err(e),
            Ok(rows) => {
                let c = connections[upto - 1];
                let ia = last_index_of(machines, c.a@, machines.len() as int);
                let ib = last_index_of(machines, c.b@, machines.len() as int);
                if ia < 0 || ib < 0 {
                    Err(TranslationError::UnknownMachine((upto - 1) as usize))
                } else if ia == ib {
                    Err(TranslationError::Connection((upto - 1) as usize, ConnectionError::Loopback))
                } else if rows_have_edge(rows, ia, ib) {
                    Err(
                        TranslationError::Connection(
                            (upto - 1) as usize,
                            ConnectionError::Duplicate,
                        ),
                    )
                } else {
                    Ok(rows_with(rows, ia as usize, ib as usize, properties_of(c)))
                }
            },
        }
    }
}

/// An error for the first connections is the error for more connections.
pub proof fn lemma_rows_error_stays(
    machines: Seq<yamlsir::Machine>,
    connections: Seq<yamlsir::Connection>,
    a: int,
    b: int,
)
    requires
        0 <= a <= b,
        rows_after(machines, connections, a) is Err,
    ensures
        rows_after(machines, connections, b) == rows_after(machines, connections, a),
    decreases b - a,
{
    if a < b {
        lemma_rows_error_stays(machines, connections, a, b - 1);
    }
}

/// The graph of the connections of a scenario.
pub fn connect_as_listed(machines: &Vec<yamlsir::Machine>, connections: &Vec<yamlsir::Connection>) -> (r:
    Result<VmConnectionLogicalV2, TranslationError>)
    ensures
        match rows_after(machines@, connections@, connections@.len() as int) {
            Ok(rows) => r is Ok && r->Ok_0.rows() == rows && r->Ok_0.wf() && r->Ok_0.count()
                == machines@.len(),
            Err(e) => r == Err::<VmConnectionLogicalV2, TranslationError>(e),
        },
{
    let mut vm_connections = VmConnectionLogicalV2::new(machines.len());
    let mut k: usize = 0;
    proof {
        vm_connections.lemma_rows_of_new();
    }
    while k < connections.len()
        invariant
            k <= connections@.len(),
            vm_connections.wf(),
            vm_connections.count() == machines@.len(),
            rows_after(machines@, connections@, k as int) == Ok::<
                Seq<Seq<ConnectionTo>>,
                TranslationError,
            >(vm_connections.rows()),
        decreases connections@.len() - k,
    {
        let connection = &connections[k];
        proof {
            if rows_after(machines@, connections@, k + 1) is Err {
                lemma_rows_error_stays(machines@, connections@, k + 1, connections@.len() as int);
            }
        }
        let ia = match find_machine(machines, &connection.a) {
            Some(i) => i,
            None => {
                return Err(TranslationError::UnknownMachine(k));
            },
        };
        let ib = match find_machine(machines, &connection.b) {
            Some(i) => i,
            None => {
                return Err(TranslationError::UnknownMachine(k));
            },
        };
        let added = vm_connections.add_sym_connection_with_speed(
            ia,
            ib,
            ConnectionProperties {
                speed_mbps: connection.speed_mbps,
                latency_us: connection.latency_us,
                drop_chance_percent_bits: connection.packet_drop_percent_bits,
            },
        );
        match added {
            Ok(()) => {},
            Err(e) => {
                return Err(TranslationError::Connection(k, e));
            },
        }
        k = k + 1;
    }
    Ok(vm_connections)
}

/// The edge with the default properties that leads to `dest`.
pub open spec fn default_to(dest: usize) -> ConnectionTo {
    ConnectionTo {
        vm_dest: dest,
        speed_mbps: DEFAULT_CONNECTION_SPEED_MBPS,
        latency_us: DEFAULT_CONNECTION_LATENCY_US,
        drop_chance_percent_bits: DEFAULT_CONNECTION_DROP_CHANCE_BITS,
    }
}

/// The first `len` edges of machine `v` in a graph that connects every
/// machine to every other: they lead to the other machines in rising order.
pub open spec fn full_row(v: int, len: int) -> Seq<ConnectionTo> {
    Seq::new(
        len as nat,
        |k: int|
            default_to(
                if k < v {
                    k as usize
                } else {
                    (k + 1) as usize
                },
            ),
    )
}

/// The rows of the graph that connects each of `n` machines to every other.
pub open spec fn full_rows(n: nat) -> Seq<Seq<ConnectionTo>> {
    Seq::new(n, |v: int| full_row(v, n - 1))
}

/// How many edges machine `v` has once the machines below `a` are connected
/// to all above them, and `a` to those below `b`.
pub open spec fn full_len(v: int, a: int, b: int, n: int) -> int {
    if v < a {
        n - 1
    } else if v == a {
        if b > a {
            b - 1
        } else {
            a
        }
    } else if v < b {
        a + 1
    } else {
        a
    }
}

/// The graph that connects each of `vm_num` machines to every other, with the
/// default properties.
pub fn connect_all(vm_num: usize) -> (r: VmConnectionLogicalV2)
    ensures
        r.wf(),
        r.count() == vm_num,
        r.rows() == full_rows(vm_num as nat),
        is_complete(r),
{
    let mut g = VmConnectionLogicalV2::new(vm_num);
    let n = vm_num;
    proof {
        g.lemma_rows_of_new();
        assert forall|v: int| 0 <= v < n implies #[trigger] g.rows()[v] == full_row(
            v,
            full_len(v, 0, 0, n as int),
        ) by {
            assert(full_row(v, 0) =~= Seq::<ConnectionTo>::empty());
        }
    }
    let mut a: usize = 0;
    while a < n
        invariant
            a <= n,
            g.wf(),
            g.count() == n,
            forall|v: int|
                0 <= v < n ==> #[trigger] g.rows()[v] == full_row(
                    v,
                    full_len(v, a as int, a as int, n as int),
                ),
        decreases n - a,
    {
        let mut b: usize = a;
        while b < n
            invariant
                a <= b <= n,
                a < n,
                g.wf(),
                g.count() == n,
                forall|v: int|
                    0 <= v < n ==> #[trigger] g.rows()[v] == full_row(
                        v,
                        full_len(v, a as int, b as int, n as int),
                    ),
            decreases n - b,
        {
            if a != b {
                let ghost before = g;
                proof {
                    // no edge leads from `a` to `b` yet
                    let row = g.rows()[a as int];
                    assert forall|k: int| 0 <= k < row.len() implies (#[trigger] row[k]).vm_dest
                        != b by {}
                }
                let res = g.add_sym_connection(a, b);
                proof {
                    assert(res is Ok);
                    let cp = ConnectionProperties {
                        speed_mbps: DEFAULT_CONNECTION_SPEED_MBPS,
                        latency_us: DEFAULT_CONNECTION_LATENCY_US,
                        drop_chance_percent_bits: DEFAULT_CONNECTION_DROP_CHANCE_BITS,
                    };
                    assert(added(before, g, a, b, cp));
                    assert forall|v: int| 0 <= v < n implies #[trigger] g.rows()[v] == full_row(
                        v,
                        full_len(v, a as int, b + 1, n as int),
                    ) by {
                        let old_row = before.rows()[v];
                        if v == a {
                            assert(g.rows()[v] == old_row.push(default_to(b)));
                            assert(old_row.push(default_to(b)) =~= full_row(v, b as int));
                        } else if v == b {
                            assert(g.rows()[v] == old_row.push(default_to(a)));
                            assert(old_row.push(default_to(a)) =~= full_row(v, a + 1));
                        } else {
                            assert(g.rows()[v] == old_row);
                        }
                    }
                }
            } else {
                proof {
                    assert forall|v: int| 0 <= v < n implies #[trigger] g.rows()[v] == full_row(
                        v,
                        full_len(v, a as int, b + 1, n as int),
                    ) by {}
                }
            }
            b = b + 1;
        }
        proof {
            assert forall|v: int| 0 <= v < n implies #[trigger] g.rows()[v] == full_row(
                v,
                full_len(v, a + 1, a + 1, n as int),
            ) by {}
        }
        a = a + 1;
    }
    proof {
        assert(g.rows() =~= full_rows(n as nat));
        assert forall|x: usize, y: usize| x < n && y < n && x != y implies #[trigger] g.has_edge(
            x as int,
            y as int,
        ) by {
            let row = g.rows()[x as int];
            let k = if y < x {
                y as int
            } else {
                y - 1
            };
            assert(row[k].vm_dest == y);
        }
    }
    g
}

/// Whether the options of a scenario ask for a connection between every two
/// machines.
pub open spec fn wants_full_network(root: yamlsir::Root) -> bool {
    root.options is Some && views(root.options->0@).contains("full_network"@)
}

/// Whether the options of a scenario ask for a connection between every two
/// machines.
pub fn has_full_network_option(root: &yamlsir::Root) -> (r: bool)
    ensures
        r == wants_full_network(*root),
{
    match &root.options {
        Some(options) => {
            let mut k: usize = 0;
            while k < options.len()
                invariant
                    k <= options@.len(),
                    root.options == Some(*options),
                    forall|j: int| 0 <= j < k ==> views(options@)[j] != "full_network"@,
                decreases options@.len() - k,
            {
                if str_equal(options[k].as_str(), "full_network") {
                    proof {
                        assert(views(options@)[k as int] == "full_network"@);
                    }
                    return true;
                }
                k = k + 1;
            }
            false
        },
        None => false,
    }
}

/// The names of those of the first `upto` machines that name sizes, but none
/// for the chosen provider.
pub open spec fn lacking_upto(machines: Seq<yamlsir::Machine>, cloud: Seq<char>, upto: int) -> Seq<
    Seq<char>,
>
    decreases upto,
{
    if upto <= 0 {
        Seq::empty()
    } else if lacks_override(machines[upto - 1], cloud) {
        lacking_upto(machines, cloud, upto - 1).push(machines[upto - 1].name@)
    } else {
        lacking_upto(machines, cloud, upto - 1)
    }
}

/// A system with what is to be reported of its making.
#[derive(Debug)]
pub struct Translated {
    /// The machines and the graph of their connections.
    pub system: LogicalSystem,
    /// The names of the machines that name sizes, but none for the chosen
    /// provider.
    pub missing_overrides: Vec<String>,
}

/// The rows of the graph of a scenario: every machine connected to every
/// other where the options ask for it, whatever connections are listed; else
/// the listed connections.
pub open spec fn network_rows(root: yamlsir::Root) -> Result<
    Seq<Seq<ConnectionTo>>,
    TranslationError,
> {
    if wants_full_network(root) {
        Ok(full_rows(root.machines@.len()))
    } else {
        rows_after(root.machines@, root.connections@, root.connections@.len() as int)
    }
}

/// Makes the logical representation of a scenario: its machines in order,
/// and the graph of their connections. The map of global replacements gets
/// the tokens for the user's name and the password of each machine, also
/// where the connections are refused.
pub fn yamlsir_to_lasir(
    root: &yamlsir::Root,
    chosen_cloud: &String,
    defaults: &DefaultValues,
    global_replacements: &mut StringMap,
) -> (r: Result<Translated, TranslationError>)
    requires
        old(global_replacements).wf(),
        forall|i: int|
            0 <= i < root.machines@.len() && (#[trigger] root.machines@[i]).override_config is Some
                ==> root.machines@[i].override_config->0.wf(),
    ensures
        final(global_replacements).wf(),
        final(global_replacements)@ == global_after(
            old(global_replacements)@,
            root.machines@,
            root.machines@.len() as int,
        ),
        match network_rows(*root) {
            Ok(rows) => {
                &&& r is Ok
                &&& r->Ok_0.system.wf()
                &&& r->Ok_0.system.network.rows() == rows
                &&& wants_full_network(*root) ==> is_complete(r->Ok_0.system.network)
                &&& r->Ok_0.system.vms@.len() == root.machines@.len()
                &&& forall|i: int|
                    0 <= i < root.machines@.len() ==> is_machine_of(
                        #[trigger] r->Ok_0.system.vms@[i],
                        root.machines@[i],
                        chosen_cloud@,
                        *defaults,
                    )
                &&& views(r->Ok_0.missing_overrides@) == lacking_upto(
                    root.machines@,
                    chosen_cloud@,
                    root.machines@.len() as int,
                )
            },
            Err(e) => r is Err && r->Err_0 == e,
        },
{
    let mut lasir_vms: Vec<Vm> = Vec::new();
    let mut missing: Vec<String> = Vec::new();
    let machines = &root.machines;
    let mut k: usize = 0;
    proof {
        assert(views(missing@) =~= Seq::<Seq<char>>::empty());
    }
    while k < machines.len()
        invariant
            k <= machines@.len(),
            *machines == root.machines,
            global_replacements.wf(),
            forall|i: int|
                0 <= i < machines@.len() && (#[trigger] machines@[i]).override_config is Some
                    ==> machines@[i].override_config->0.wf(),
            global_replacements@ == global_after(old(global_replacements)@, machines@, k as int),
            lasir_vms@.len() == k,
            forall|i: int|
                0 <= i < k ==> is_machine_of(
                    #[trigger] lasir_vms@[i],
                    machines@[i],
                    chosen_cloud@,
                    *defaults,
                ),
            views(missing@) == lacking_upto(machines@, chosen_cloud@, k as int),
        decreases machines@.len() - k,
    {
        let machine = &machines[k];
        let new_vm = translate_machine(machine, chosen_cloud, defaults);
        match &machine.override_config {
            Some(map) => {
                if !map.contains_key(chosen_cloud) {
                    let ghost before = views(missing@);
                    missing.push(machine.name.clone());
                    proof {
                        assert(views(missing@) =~= before.push(machine.name@));
                    }
                }
            },
            None => {},
        }
        global_replacements.insert(machine_token(&machine.name, "/user"), new_vm.auth.user.clone());
        global_replacements.insert(
            machine_token(&machine.name, "/username"),
            new_vm.auth.user.clone(),
        );
        global_replacements.insert(
            machine_token(&machine.name, "/pass"),
            new_vm.auth.password.clone(),
        );
        global_replacements.insert(
            machine_token(&machine.name, "/password"),
            new_vm.auth.password.clone(),
        );
        lasir_vms.push(new_vm);
        k = k + 1;
    }
    let network = if has_full_network_option(root) {
        connect_all(lasir_vms.len())
    } else {
        match connect_as_listed(machines, &root.connections) {
            Ok(g) => g,
            Err(e) => {
                return Err(e);
            },
        }
    };
    let out = Translated {
        system: LogicalSystem { vms: lasir_vms, network },
        missing_overrides: missing,
    };
    Ok(out)
}

} // verus!
