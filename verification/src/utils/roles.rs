//! For each machine and each role, the addresses under which the machine and
//! its neighbours of that role see one another.

use rand::distributions::{Distribution, Uniform};
use vstd::prelude::*;
use vstd::string::StringExecFns;
use crate::azuresir::translator::{address_in, lemma_place_from};
use crate::lasir::machines::{LogicalSystem, Vm};
use crate::pasir::connections::{lemma_neighbours_distinct, Subnet};
use crate::utils::strmap::StringMap;
use crate::utils::text::views;
use crate::utils::types::{dotted, Ipv4Address};

verus! {

/// A number below `max`, picked at random.
///
/// Trusted: states of `rand::distributions::Uniform::from(0..max)`, sampled
/// with `rand::thread_rng()`, that the sample lies in the range. For an empty
/// range the call panics, so `max` must not be zero.
#[verifier::external_body]
pub(crate) fn pick_random(max: usize) -> (r: usize)
    requires
        max > 0,
    ensures
        r < max,
{
    let mut rng = rand::thread_rng();
    let rnd = Uniform::from(0..max);
    rnd.sample(&mut rng)
}

/// Why the addresses of two connected machines could not be found.
#[derive(Clone, Copy, Debug, PartialEq, Eq, Structural)]
pub enum RolesError {
    /// The two machines are connected, and no subnet holds both.
    NotInSubnet(usize, usize),
    /// More than one subnet holds both machines.
    SharedTwice(usize, usize),
}

/// The roles of the first `upto` machines, each once, in the order in which
/// they first occur.
pub open spec fn roles_upto(vms: Seq<Vm>, upto: int) -> Seq<Seq<char>>
    decreases upto,
{
    if upto <= 0 {
        Seq::empty()
    } else {
        let before = roles_upto(vms, upto - 1);
        if before.contains(vms[upto - 1].role@) {
            before
        } else {
            before.push(vms[upto - 1].role@)
        }
    }
}

/// Whether `v` holds a string with the text of `s`.
fn holds_text(v: &Vec<String>, s: &String) -> (r: bool)
    ensures
        r == views(v@).contains(s@),
{
    let mut i: usize = 0;
    while i < v.len()
        invariant
            i <= v@.len(),
            forall|j: int| 0 <= j < i ==> views(v@)[j] != s@,
        decreases v@.len() - i,
    {
        if v[i] == *s {
            proof {
                assert(views(v@)[i as int] == s@);
            }
            return true;
        }
        i = i + 1;
    }
    false
}

/// The roles of the machines, each once, in the order in which they first
/// occur.
pub fn find_all_roles(vms: &Vec<Vm>) -> (r: Vec<String>)
    ensures
        views(r@) == roles_upto(vms@, vms@.len() as int),
{
    let mut ret: Vec<String> = Vec::new();
    let mut k: usize = 0;
    proof {
        assert(views(ret@) =~= Seq::<Seq<char>>::empty());
    }
    while k < vms.len()
        invariant
            k <= vms@.len(),
            views(ret@) == roles_upto(vms@, k as int),
        decreases vms@.len() - k,
    {
        if !holds_text(&ret, &vms[k].role) {
            let ghost before = views(ret@);
            ret.push(vms[k].role.clone());
            proof {
                assert(views(ret@) =~= before.push(vms@[k as int].role@));
            }
        }
        k = k + 1;
    }
    ret
}

/// Those of the first `upto` neighbours of a machine that have the given
/// role, in order.
pub open spec fn peers_with_role(
    vms: Seq<Vm>,
    neighbours: Seq<usize>,
    role: Seq<char>,
    upto: int,
) -> Seq<usize>
    decreases upto,
{
    if upto <= 0 {
        Seq::empty()
    } else {
        let before = peers_with_role(vms, neighbours, role, upto - 1);
        if vms[neighbours[upto - 1] as int].role@ == role {
            before.push(neighbours[upto - 1])
        } else {
            before
        }
    }
}

/// Every peer is a neighbour.
pub proof fn lemma_peers_are_neighbours(
    vms: Seq<Vm>,
    neighbours: Seq<usize>,
    role: Seq<char>,
    upto: int,
)
    requires
        0 <= upto <= neighbours.len(),
    ensures
        forall|i: int|
            0 <= i < peers_with_role(vms, neighbours, role, upto).len() ==> neighbours.contains(
                #[trigger] peers_with_role(vms, neighbours, role, upto)[i],
            ),
    decreases upto,
{
    if upto > 0 {
        lemma_peers_are_neighbours(vms, neighbours, role, upto - 1);
        let before = peers_with_role(vms, neighbours, role, upto - 1);
        let cur = peers_with_role(vms, neighbours, role, upto);
        assert forall|i: int| 0 <= i < cur.len() implies neighbours.contains(#[trigger] cur[i]) by {
            if i < before.len() {
                assert(cur[i] == before[i]);
            } else {
                assert(cur[i] == neighbours[upto - 1]);
            }
        }
    }
}

/// The neighbours of a machine that have the given role, in the order of the
/// machine's connections.
pub fn find_all_connected_vms_with_role(source_vm: usize, role: &String, system: &LogicalSystem) -> (r:
    Vec<usize>)
    requires
        system.wf(),
        source_vm < system.vms@.len(),
    ensures
        r@ == peers_with_role(
            system.vms@,
            system.network.neighbours(source_vm as int),
            role@,
            system.network.neighbours(source_vm as int).len() as int,
        ),
{
    let all_connected_vms = system.network.all_connections_for_vm(source_vm);
    let mut out: Vec<usize> = Vec::new();
    let mut k: usize = 0;
    proof {
        lemma_neighbours_distinct(system.network, source_vm as int);
    }
    while k < all_connected_vms.len()
        invariant
            k <= all_connected_vms@.len(),
            system.wf(),
            all_connected_vms@ == system.network.neighbours(source_vm as int),
            forall|x: usize| all_connected_vms@.contains(x) ==> x < system.vms@.len(),
            out@ == peers_with_role(system.vms@, all_connected_vms@, role@, k as int),
        decreases all_connected_vms@.len() - k,
    {
        let idx = all_connected_vms[k];
        proof {
            assert(all_connected_vms@.contains(idx));
        }
        if system.vms[idx].role == *role {
            out.push(idx);
        }
        k = k + 1;
    }
    out
}

/// Whether a subnet holds both machines.
pub open spec fn holds_both(sn: Subnet, a: usize, b: usize) -> bool {
    sn.machines().contains(a) && sn.machines().contains(b)
}

/// The place of the first subnet at or behind `from` that holds both
/// machines; the number of subnets where there is none.
pub open spec fn first_shared(subnets: Seq<Subnet>, a: usize, b: usize, from: int) -> int
    decreases subnets.len() - from,
{
    if from < 0 || from >= subnets.len() {
        subnets.len() as int
    } else if holds_both(subnets[from], a, b) {
        from
    } else {
        first_shared(subnets, a, b, from + 1)
    }
}

/// The addresses under which `a` and `b` see one another: those that they
/// have in the one subnet that holds both, the address of `a` first. Nothing
/// where no subnet holds both; an error where more than one does.
pub open spec fn connection_ip(subnets: Seq<Subnet>, a: usize, b: usize) -> Result<
    Option<(Ipv4Address, Ipv4Address)>,
    RolesError,
> {
    let s = first_shared(subnets, a, b, 0);
    if s >= subnets.len() {
        Ok(None)
    } else if first_shared(subnets, a, b, s + 1) < subnets.len() {
        Err(RolesError::SharedTwice(a, b))
    } else {
        Ok(Some((address_in(subnets[s], a), address_in(subnets[s], b))))
    }
}

/// The address of a machine in a subnet, if the subnet holds it.
pub fn find_in_subnet(sn: &Subnet, vm: usize) -> (r: Option<Ipv4Address>)
    requires
        sn.wf(),
    ensures
        r is Some <==> sn.machines().contains(vm),
        r is Some ==> r->0 == address_in(*sn, vm),
{
    let mut j: usize = 0;
    while j < sn.connected_vms.len()
        invariant
            j <= sn.connected_vms@.len(),
            sn.wf(),
            forall|k: int| 0 <= k < j ==> sn.machines()[k] != vm,
        decreases sn.connected_vms@.len() - j,
    {
        if sn.connected_vms[j].0 == vm {
            proof {
                assert(sn.machines()[j as int] == vm);
                lemma_place_from(sn.machines(), j as int, 0);
            }
            return Some(sn.connected_vms[j].1);
        }
        j = j + 1;
    }
    None
}

/// The addresses under which two connected machines see one another.
pub fn lasir_connection_to_ip(vm_a: usize, vm_b: usize, pasir_subnets: &Vec<Subnet>) -> (r: Result<
    Option<(Ipv4Address, Ipv4Address)>,
    RolesError,
>)
    requires
        vm_a != vm_b,
        forall|s: int| 0 <= s < pasir_subnets@.len() ==> (#[trigger] pasir_subnets@[s]).wf(),
    ensures
        r == connection_ip(pasir_subnets@, vm_a, vm_b),
{
    let mut ret: Option<(Ipv4Address, Ipv4Address)> = None;
    let ghost mut found: int = pasir_subnets@.len() as int;
    let mut s: usize = 0;
    while s < pasir_subnets.len()
        invariant
            s <= pasir_subnets@.len(),
            forall|k: int| 0 <= k < pasir_subnets@.len() ==> (#[trigger] pasir_subnets@[k]).wf(),
            ret is None ==> first_shared(pasir_subnets@, vm_a, vm_b, 0) == first_shared(
                pasir_subnets@,
                vm_a,
                vm_b,
                s as int,
            ),
            ret is Some ==> {
                &&& 0 <= found < s
                &&& first_shared(pasir_subnets@, vm_a, vm_b, 0) == found
                &&& first_shared(pasir_subnets@, vm_a, vm_b, found + 1) == first_shared(
                    pasir_subnets@,
                    vm_a,
                    vm_b,
                    s as int,
                )
                &&& ret->0 == (
                    address_in(pasir_subnets@[found], vm_a),
                    address_in(pasir_subnets@[found], vm_b),
                )
            },
        decreases pasir_subnets@.len() - s,
    {
        let subnet = &pasir_subnets[s];
        let found_a = find_in_subnet(subnet, vm_a);
        let found_b = find_in_subnet(subnet, vm_b);
        match (found_a, found_b) {
            (Some(ip_a), Some(ip_b)) => {
                match ret {
                    Some(_) => {
                        return Err(RolesError::SharedTwice(vm_a, vm_b));
                    },
                    None => {
                        ret = Some((ip_a, ip_b));
                        proof {
                            found = s as int;
                        }
                    },
                }
            },
            _ => {},
        }
        s = s + 1;
    }
    Ok(ret)
}

/// The neighbours of one role of a machine, each with the addresses under
/// which the machine and the neighbour see one another: the machine's own
/// address first.
#[derive(Debug)]
pub struct RolePairs {
    pub role: String,
    pub pairs: Vec<(Ipv4Address, Ipv4Address)>,
}

/// One neighbour of one role of a machine: the machine's own address, and
/// the neighbour's.
#[derive(Debug)]
pub struct RolePair {
    pub role: String,
    pub self_ip: Ipv4Address,
    pub other_ip: Ipv4Address,
}

/// The addresses under which machine `v` and each of the first `upto` of
/// `peers` see one another; the error of the first peer for which there are
/// none.
pub open spec fn pairs_for(subnets: Seq<Subnet>, v: usize, peers: Seq<usize>, upto: int) -> Result<
    Seq<(Ipv4Address, Ipv4Address)>,
    RolesError,
>
    decreases upto,
{
    if upto <= 0 {
        Ok(Seq::empty())
    } else {
        match pairs_for(subnets, v, peers, upto - 1) {
            Err(e) => Err(e),
            Ok(ps) => match connection_ip(subnets, v, peers[upto - 1]) {
                Ok(Some(p)) => Ok(ps.push(p)),
                Ok(None) => Err(RolesError::NotInSubnet(v, peers[upto - 1])),
                Err(e) => Err(e),
            },
        }
    }
}

/// The addresses under which a machine and each of its peers see one
/// another.
pub fn peer_addresses(curr_vm: usize, vms: &Vec<usize>, pasir_subnets: &Vec<Subnet>) -> (r: Result<
    Vec<(Ipv4Address, Ipv4Address)>,
    RolesError,
>)
    requires
        forall|i: int| 0 <= i < vms@.len() ==> #[trigger] vms@[i] != curr_vm,
        forall|s: int| 0 <= s < pasir_subnets@.len() ==> (#[trigger] pasir_subnets@[s]).wf(),
    ensures
        match pairs_for(pasir_subnets@, curr_vm, vms@, vms@.len() as int) {
            Ok(ps) => r is Ok && r->Ok_0@ == ps,
            Err(e) => r == Err::<Vec<(Ipv4Address, Ipv4Address)>, RolesError>(e),
        },
{
    let mut out: Vec<(Ipv4Address, Ipv4Address)> = Vec::new();
    let mut k: usize = 0;
    while k < vms.len()
        invariant
            k <= vms@.len(),
            forall|i: int| 0 <= i < vms@.len() ==> #[trigger] vms@[i] != curr_vm,
            forall|s: int| 0 <= s < pasir_subnets@.len() ==> (#[trigger] pasir_subnets@[s]).wf(),
            pairs_for(pasir_subnets@, curr_vm, vms@, k as int) == Ok::<
                Seq<(Ipv4Address, Ipv4Address)>,
                RolesError,
            >(out@),
        decreases vms@.len() - k,
    {
        proof {
            if pairs_for(pasir_subnets@, curr_vm, vms@, k + 1) is Err {
                lemma_pairs_error_stays(pasir_subnets@, curr_vm, vms@, k + 1, vms@.len() as int);
            }
        }
        match lasir_connection_to_ip(curr_vm, vms[k], pasir_subnets) {
            Ok(Some(p)) => {
                out.push(p);
            },
            Ok(None) => {
                return Err(RolesError::NotInSubnet(curr_vm, vms[k]));
            },
            Err(e) => {
                return Err(e);
            },
        }
        k = k + 1;
    }
    Ok(out)
}

/// An error for the first peers is the error for more peers.
pub proof fn lemma_pairs_error_stays(
    subnets: Seq<Subnet>,
    v: usize,
    peers: Seq<usize>,
    a: int,
    b: int,
)
    requires
        0 <= a <= b,
        pairs_for(subnets, v, peers, a) is Err,
    ensures
        pairs_for(subnets, v, peers, b) == pairs_for(subnets, v, peers, a),
    decreases b - a,
{
    if a < b {
        lemma_pairs_error_stays(subnets, v, peers, a, b - 1);
    }
}

/// The replacements that one neighbour adds to a map: the tokens `=>role`,
/// `=> role` and `=>  role` give the neighbour's address, and `<=role`,
/// `<= role` and `<=  role` the machine's own.
pub open spec fn with_role_tokens(
    m: Map<Seq<char>, Seq<char>>,
    role: Seq<char>,
    self_ip: Ipv4Address,
    other_ip: Ipv4Address,
) -> Map<Seq<char>, Seq<char>> {
    let o = dotted(other_ip.value as nat);
    let s = dotted(self_ip.value as nat);
    m.insert("=>"@ + role, o).insert("=> "@ + role, o).insert("=>  "@ + role, o).insert(
        "<="@ + role,
        s,
    ).insert("<= "@ + role, s).insert("<=  "@ + role, s)
}

/// The replacements of the first `upto` neighbours of a machine.
pub open spec fn role_tokens(singletons: Seq<RolePair>, upto: int) -> Map<Seq<char>, Seq<char>>
    decreases upto,
{
    if upto <= 0 {
        Map::empty()
    } else {
        with_role_tokens(
            role_tokens(singletons, upto - 1),
            singletons[upto - 1].role@,
            singletons[upto - 1].self_ip,
            singletons[upto - 1].other_ip,
        )
    }
}

/// A token: `prefix` followed by `role`.
fn token(prefix: &str, role: &String) -> (r: String)
    ensures
        r@ == prefix@ + role@,
{
    let mut t = String::from_str(prefix);
    t.append(role.as_str());
    t
}

/// For each machine the replacements of its role tokens: for each role, the
/// tokens that point to the role give the address of the one neighbour that
/// was picked for it, and the tokens that point from the role give the
/// machine's own address towards that neighbour.
pub fn create_ip_string_replacement_map(singleton_map: &Vec<Vec<RolePair>>) -> (r: Vec<StringMap>)
    ensures
        r@.len() == singleton_map@.len(),
        forall|i: int|
            0 <= i < singleton_map@.len() ==> (#[trigger] r@[i]).wf() && r@[i]@ == role_tokens(
                singleton_map@[i]@,
                singleton_map@[i]@.len() as int,
            ),
{
    let mut ret: Vec<StringMap> = Vec::new();
    let mut idx: usize = 0;
    while idx < singleton_map.len()
        invariant
            idx <= singleton_map@.len(),
            ret@.len() == idx,
            forall|i: int|
                0 <= i < idx ==> (#[trigger] ret@[i]).wf() && ret@[i]@ == role_tokens(
                    singleton_map@[i]@,
                    singleton_map@[i]@.len() as int,
                ),
        decreases singleton_map@.len() - idx,
    {
        let singleton = &singleton_map[idx];
        let mut new_random_replacement = StringMap::new();
        let mut k: usize = 0;
        while k < singleton.len()
            invariant
                k <= singleton@.len(),
                new_random_replacement.wf(),
                new_random_replacement@ == role_tokens(singleton@, k as int),
            decreases singleton@.len() - k,
        {
            let entry = &singleton[k];
            let out = entry.other_ip.to_string();
            let own = entry.self_ip.to_string();
            new_random_replacement.insert(token("=>", &entry.role), out.clone());
            new_random_replacement.insert(token("=> ", &entry.role), out.clone());
            new_random_replacement.insert(token("=>  ", &entry.role), out);
            new_random_replacement.insert(token("<=", &entry.role), own.clone());
            new_random_replacement.insert(token("<= ", &entry.role), own.clone());
            new_random_replacement.insert(token("<=  ", &entry.role), own);
            k = k + 1;
        }
        ret.push(new_random_replacement);
        idx = idx + 1;
    }
    ret
}

/// For machine `v` and each of the first `upto` roles that has neighbours of
/// `v`: the role with the addresses under which `v` and those neighbours see
/// one another. The error of the first neighbour without such addresses.
pub open spec fn complete_for(
    vms: Seq<Vm>,
    neighbours: Seq<usize>,
    subnets: Seq<Subnet>,
    v: usize,
    roles: Seq<Seq<char>>,
    upto: int,
) -> Result<Seq<(Seq<char>, Seq<(Ipv4Address, Ipv4Address)>)>, RolesError>
    decreases upto,
{
    if upto <= 0 {
        Ok(Seq::empty())
    } else {
        match complete_for(vms, neighbours, subnets, v, roles, upto - 1) {
            Err(e) => Err(e),
            Ok(cs) => {
                let peers = peers_with_role(
                    vms,
                    neighbours,
                    roles[upto - 1],
                    neighbours.len() as int,
                );
                if peers.len() == 0 {
                    Ok(cs)
                } else {
                    match pairs_for(subnets, v, peers, peers.len() as int) {
                        Ok(ps) => Ok(cs.push((roles[upto - 1], ps))),
                        Err(e) => Err(e),
                    }
                }
            },
        }
    }
}

/// An error for the first roles is the error for more roles.
pub proof fn lemma_complete_error_stays(
    vms: Seq<Vm>,
    neighbours: Seq<usize>,
    subnets: Seq<Subnet>,
    v: usize,
    roles: Seq<Seq<char>>,
    a: int,
    b: int,
)
    requires
        0 <= a <= b,
        complete_for(vms, neighbours, subnets, v, roles, a) is Err,
    ensures
        complete_for(vms, neighbours, subnets, v, roles, b) == complete_for(
            vms,
            neighbours,
            subnets,
            v,
            roles,
            a,
        ),
    decreases b - a,
{
    if a < b {
        lemma_complete_error_stays(vms, neighbours, subnets, v, roles, a, b - 1);
    }
}

/// The complete mapping of the first `upto` machines of a system; the error
/// of the first machine that has one.
pub open spec fn mapping_upto(system: LogicalSystem, subnets: Seq<Subnet>, upto: int) -> Result<
    Seq<Seq<(Seq<char>, Seq<(Ipv4Address, Ipv4Address)>)>>,
    RolesError,
>
    decreases upto,
{
    if upto <= 0 {
        Ok(Seq::empty())
    } else {
        match mapping_upto(system, subnets, upto - 1) {
            Err(e) => Err(e),
            Ok(ms) => {
                let roles = roles_upto(system.vms@, system.vms@.len() as int);
                match complete_for(
                    system.vms@,
                    system.network.neighbours(upto - 1),
                    subnets,
                    (upto - 1) as usize,
                    roles,
                    roles.len() as int,
                ) {
                    Ok(cs) => Ok(ms.push(cs)),
                    Err(e) => Err(e),
                }
            },
        }
    }
}

/// The complete mapping has one entry for each machine.
pub proof fn lemma_mapping_len(system: LogicalSystem, subnets: Seq<Subnet>, upto: int)
    requires
        0 <= upto,
    ensures
        mapping_upto(system, subnets, upto) is Ok ==> mapping_upto(system, subnets, upto)->Ok_0.len()
            == upto,
    decreases upto,
{
    if upto > 0 {
        lemma_mapping_len(system, subnets, upto - 1);
    }
}

/// An error for the first machines is the error for more machines.
pub proof fn lemma_mapping_error_stays(system: LogicalSystem, subnets: Seq<Subnet>, a: int, b: int)
    requires
        0 <= a <= b,
        mapping_upto(system, subnets, a) is Err,
    ensures
        mapping_upto(system, subnets, b) == mapping_upto(system, subnets, a),
    decreases b - a,
{
    if a < b {
        lemma_mapping_error_stays(system, subnets, a, b - 1);
    }
}

/// The roles of a machine with their addresses, as plain values.
pub open spec fn role_pairs_view(v: Seq<RolePairs>) -> Seq<
    (Seq<char>, Seq<(Ipv4Address, Ipv4Address)>),
> {
    Seq::new(v.len(), |i: int| (v[i].role@, v[i].pairs@))
}

/// The complete mapping as plain values.
pub open spec fn complete_view(v: Seq<Vec<RolePairs>>) -> Seq<
    Seq<(Seq<char>, Seq<(Ipv4Address, Ipv4Address)>)>,
> {
    Seq::new(v.len(), |i: int| role_pairs_view(v[i]@))
}

/// Whether `one` names the role of `all` and one of its pairs.
pub open spec fn is_one_of(one: RolePair, all: RolePairs) -> bool {
    one.role@ == all.role@ && all.pairs@.contains((one.self_ip, one.other_ip))
}

/// Whether the picks hold, for each machine and each of its roles, one of the
/// role's pairs.
pub open spec fn picks_match(picks: Seq<Vec<RolePair>>, complete: Seq<Vec<RolePairs>>) -> bool {
    &&& picks.len() == complete.len()
    &&& forall|v: int|
        0 <= v < picks.len() ==> (#[trigger] picks[v])@.len() == complete[v]@.len()
    &&& forall|v: int, k: int|
        0 <= v < picks.len() && 0 <= k < picks[v]@.len() ==> is_one_of(
            #[trigger] picks[v]@[k],
            #[trigger] complete[v]@[k],
        )
}

/// The pair at place `idx`, for the given role.
pub fn pick_pair(role: &String, all: &Vec<(Ipv4Address, Ipv4Address)>, idx: usize) -> (r: RolePair)
    requires
        idx < all@.len(),
    ensures
        r.role@ == role@,
        (r.self_ip, r.other_ip) == all@[idx as int],
{
    let p = all[idx];
    RolePair { role: role.clone(), self_ip: p.0, other_ip: p.1 }
}

/// For each machine and each role the addresses under which the machine and
/// its neighbours of that role see one another, and for each such role one of
/// them, picked at random. The roles come in the order in which they first
/// occur among the machines; a role without neighbours is left out.
pub fn create_vm_local_ip_mapping(lasir_system: &LogicalSystem, pasir_subnets: &Vec<Subnet>) -> (r:
    Result<(Vec<Vec<RolePairs>>, Vec<Vec<RolePair>>), RolesError>)
    requires
        lasir_system.wf(),
        forall|s: int| 0 <= s < pasir_subnets@.len() ==> (#[trigger] pasir_subnets@[s]).wf(),
    ensures
        match mapping_upto(*lasir_system, pasir_subnets@, lasir_system.vms@.len() as int) {
            Ok(ms) => match r {
                Ok((complete, picks)) => complete_view(complete@) == ms && picks_match(
                    picks@,
                    complete@,
                ),
                Err(_) => false,
            },
            Err(e) => r == Err::<(Vec<Vec<RolePairs>>, Vec<Vec<RolePair>>), RolesError>(e),
        },
{
    let all_roles = find_all_roles(&lasir_system.vms);
    let ghost roles = views(all_roles@);
    let n = lasir_system.vms.len();
    let mut complete_map: Vec<Vec<RolePairs>> = Vec::new();
    let mut random_map: Vec<Vec<RolePair>> = Vec::new();
    let mut curr_vm: usize = 0;
    proof {
        assert(complete_view(complete_map@) =~= Seq::<
            Seq<(Seq<char>, Seq<(Ipv4Address, Ipv4Address)>)>,
        >::empty());
    }
    while curr_vm < n
        invariant
            curr_vm <= n,
            n == lasir_system.vms@.len(),
            lasir_system.wf(),
            roles == views(all_roles@),
            roles == roles_upto(lasir_system.vms@, lasir_system.vms@.len() as int),
            forall|s: int| 0 <= s < pasir_subnets@.len() ==> (#[trigger] pasir_subnets@[s]).wf(),
            mapping_upto(*lasir_system, pasir_subnets@, curr_vm as int) == Ok::<
                Seq<Seq<(Seq<char>, Seq<(Ipv4Address, Ipv4Address)>)>>,
                RolesError,
            >(complete_view(complete_map@)),
            complete_map@.len() == curr_vm,
            picks_match(random_map@, complete_map@),
        decreases n - curr_vm,
    {
        let mut new_complete_map: Vec<RolePairs> = Vec::new();
        let mut new_random_map: Vec<RolePair> = Vec::new();
        let ghost neigh = lasir_system.network.neighbours(curr_vm as int);
        proof {
            lemma_neighbours_distinct(lasir_system.network, curr_vm as int);
            assert(role_pairs_view(new_complete_map@) =~= Seq::<
                (Seq<char>, Seq<(Ipv4Address, Ipv4Address)>),
            >::empty());
        }
        let mut k: usize = 0;
        while k < all_roles.len()
            invariant
                k <= all_roles@.len(),
                curr_vm < n,
                n == lasir_system.vms@.len(),
                lasir_system.wf(),
                roles == views(all_roles@),
                roles == roles_upto(lasir_system.vms@, lasir_system.vms@.len() as int),
                neigh == lasir_system.network.neighbours(curr_vm as int),
                !neigh.contains(curr_vm),
                forall|s: int| 0 <= s < pasir_subnets@.len() ==> (#[trigger] pasir_subnets@[s]).wf(),
                complete_for(
                    lasir_system.vms@,
                    neigh,
                    pasir_subnets@,
                    curr_vm,
                    roles,
                    k as int,
                ) == Ok::<Seq<(Seq<char>, Seq<(Ipv4Address, Ipv4Address)>)>, RolesError>(
                    role_pairs_view(new_complete_map@),
                ),
                mapping_upto(*lasir_system, pasir_subnets@, curr_vm as int) is Ok,
                new_random_map@.len() == new_complete_map@.len(),
                forall|j: int|
                    0 <= j < new_random_map@.len() ==> is_one_of(
                        #[trigger] new_random_map@[j],
                        new_complete_map@[j],
                    ),
            decreases all_roles@.len() - k,
        {
            let role = &all_roles[k];
            let vms = find_all_connected_vms_with_role(curr_vm, role, lasir_system);
            proof {
                assert(roles[k as int] == role@);
                lemma_peers_are_neighbours(lasir_system.vms@, neigh, role@, neigh.len() as int);
                assert forall|i: int| 0 <= i < vms@.len() implies #[trigger] vms@[i] != curr_vm by {
                    assert(neigh.contains(vms@[i]));
                }
                if complete_for(lasir_system.vms@, neigh, pasir_subnets@, curr_vm, roles, k + 1) is Err {
                    lemma_complete_error_stays(
                        lasir_system.vms@,
                        neigh,
                        pasir_subnets@,
                        curr_vm,
                        roles,
                        k + 1,
                        roles.len() as int,
                    );
                    assert(mapping_upto(*lasir_system, pasir_subnets@, curr_vm + 1) is Err);
                    lemma_mapping_error_stays(*lasir_system, pasir_subnets@, curr_vm + 1, n as int);
                }
            }
            if vms.len() != 0 {
                match peer_addresses(curr_vm, &vms, pasir_subnets) {
                    Ok(all_ipv4) => {
                        let idx = pick_random(all_ipv4.len());
                        let one = pick_pair(role, &all_ipv4, idx);
                        let ghost before = role_pairs_view(new_complete_map@);
                        let entry = RolePairs { role: role.clone(), pairs: all_ipv4 };
                        proof {
                            assert(entry.pairs@[idx as int] == (one.self_ip, one.other_ip));
                            assert(is_one_of(one, entry));
                        }
                        new_complete_map.push(entry);
                        new_random_map.push(one);
                        proof {
                            assert(role_pairs_view(new_complete_map@) =~= before.push(
                                (role@, new_complete_map@[before.len() as int].pairs@),
                            ));
                        }
                    },
                    Err(e) => {
                        return Err(e);
                    },
                }
            }
            k = k + 1;
        }
        let ghost before = complete_view(complete_map@);
        let ghost cs = role_pairs_view(new_complete_map@);
        complete_map.push(new_complete_map);
        random_map.push(new_random_map);
        proof {
            assert(complete_view(complete_map@) =~= before.push(cs));
        }
        curr_vm = curr_vm + 1;
    }
    Ok((complete_map, random_map))
}

} // verus!
