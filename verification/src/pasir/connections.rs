//! Subnets inferred from the connection graph, and their addresses.

use vstd::prelude::*;
use vstd::arithmetic::power2::{pow2, lemma_pow2_pos, lemma2_to64, lemma_pow2_strictly_increases, lemma_pow2_adds};
use vstd::arithmetic::div_mod::{lemma_mod_multiples_vanish, lemma_mod_multiples_basic, lemma_small_mod, lemma_fundamental_div_mod};
use crate::lasir::connections::{VmConnectionLogicalV2, lemma_mirror, lemma_neighbours};
use crate::utils::math::{log2_ceil, log2_ceil_spec, lemma_log2_ceil_bounds, pow2_u64, be_arr_as_be_u32, u32_as_be_arr, be_value};
use crate::utils::types::{CidrIP, Ipv4Address};

verus! {

/// Every member of `a` is a member of `b`.
pub open spec fn subset_of(a: Seq<usize>, b: Seq<usize>) -> bool {
    forall|x: usize| a.contains(x) ==> b.contains(x)
}

/// Some list among `cs` holds both `u` and `v`.
pub open spec fn covered(cs: Seq<Seq<usize>>, u: usize, v: usize) -> bool {
    exists|i: int| 0 <= i < cs.len() && (#[trigger] cs[i]).contains(u) && cs[i].contains(v)
}

/// Any two different members of `c` are connected in `g`.
pub open spec fn is_clique(g: VmConnectionLogicalV2, c: Seq<usize>) -> bool {
    forall|x: usize, y: usize|
        c.contains(x) && c.contains(y) && x != y ==> g.has_edge(x as int, y as int)
}

/// No list among `cs` is contained in another one.
pub open spec fn antichain(cs: Seq<Seq<usize>>) -> bool {
    forall|i: int, j: int|
        0 <= i < cs.len() && 0 <= j < cs.len() && i != j ==> !subset_of(
            #[trigger] cs[i],
            #[trigger] cs[j],
        )
}

/// Each list names machines of `g`, at least two of them, none twice, and
/// they are pairwise connected.
pub open spec fn all_cliques(g: VmConnectionLogicalV2, cs: Seq<Seq<usize>>) -> bool {
    forall|i: int|
        0 <= i < cs.len() ==> {
            &&& (#[trigger] cs[i]).no_duplicates()
            &&& cs[i].len() >= 2
            &&& is_clique(g, cs[i])
            &&& forall|x: usize| cs[i].contains(x) ==> x < g.count()
        }
}

/// How many lists among `cs` do not hold `v`.
pub open spec fn count_without(cs: Seq<Seq<usize>>, v: usize) -> nat
    decreases cs.len(),
{
    if cs.len() == 0 {
        0
    } else {
        count_without(cs.drop_last(), v) + if cs.last().contains(v) {
            0nat
        } else {
            1nat
        }
    }
}

/// A set of machines that all reach one another: the members of one subnet.
#[derive(Debug)]
pub struct SubnetCandidate {
    connected_vms: Vec<usize>,
}

impl View for SubnetCandidate {
    type V = Seq<usize>;

    /// The members, in the order in which they joined.
    closed spec fn view(&self) -> Seq<usize> {
        self.connected_vms@
    }
}

/// The member lists of a list of candidates.
pub open spec fn member_lists(cs: Seq<SubnetCandidate>) -> Seq<Seq<usize>> {
    Seq::new(cs.len(), |i: int| cs[i]@)
}

/// Whether `x` occurs in `v`.
pub fn vec_contains(v: &Vec<usize>, x: usize) -> (r: bool)
    ensures
        r == v@.contains(x),
{
    let mut k: usize = 0;
    while k < v.len()
        invariant
            k <= v@.len(),
            forall|j: int| 0 <= j < k ==> v@[j] != x,
        decreases v@.len() - k,
    {
        if v[k] == x {
            return true;
        }
        k = k + 1;
    }
    false
}

/// Whether every element of `a` occurs in `b`.
pub fn is_subset(a: &Vec<usize>, b: &Vec<usize>) -> (r: bool)
    ensures
        r == subset_of(a@, b@),
{
    let mut k: usize = 0;
    while k < a.len()
        invariant
            k <= a@.len(),
            forall|j: int| 0 <= j < k ==> b@.contains(#[trigger] a@[j]),
        decreases a@.len() - k,
    {
        if !vec_contains(b, a[k]) {
            proof {
                assert(a@.contains(a@[k as int]));
            }
            return false;
        }
        k = k + 1;
    }
    true
}

/// A copy of `v`.
pub fn copy_indices(v: &Vec<usize>) -> (r: Vec<usize>)
    ensures
        r@ == v@,
{
    let mut out: Vec<usize> = Vec::new();
    let mut k: usize = 0;
    while k < v.len()
        invariant
            k <= v@.len(),
            out@ == v@.subrange(0, k as int),
        decreases v@.len() - k,
    {
        out.push(v[k]);
        proof {
            assert(out@ =~= v@.subrange(0, k + 1));
        }
        k = k + 1;
    }
    proof {
        assert(out@ =~= v@);
    }
    out
}

impl SubnetCandidate {
    /// No machine is a member twice.
    pub open spec fn wf(&self) -> bool {
        self@.no_duplicates()
    }

    /// The candidate with the given members, unless one of them is named
    /// twice.
    pub fn from_members(members: Vec<usize>) -> (r: Option<Self>)
        ensures
            r is Some <==> members@.no_duplicates(),
            r is Some ==> r->0@ == members@,
    {
        let mut k: usize = 0;
        while k < members.len()
            invariant
                k <= members@.len(),
                members@.subrange(0, k as int).no_duplicates(),
            decreases members@.len() - k,
        {
            let mut j: usize = 0;
            while j < k
                invariant
                    j <= k,
                    k < members@.len(),
                    forall|i: int| 0 <= i < j ==> members@[i] != members@[k as int],
                decreases k - j,
            {
                if members[j] == members[k] {
                    return None;
                }
                j = j + 1;
            }
            proof {
                let s0 = members@.subrange(0, k as int);
                let s1 = members@.subrange(0, k + 1);
                assert forall|a: int, b: int| 0 <= a < s1.len() && 0 <= b < s1.len() && a != b implies s1[a] != s1[b] by {
                    if a < k && b < k {
                        assert(s0[a] != s0[b]);
                    }
                }
            }
            k = k + 1;
        }
        proof {
            assert(members@.subrange(0, k as int) =~= members@);
        }
        Some(SubnetCandidate { connected_vms: members })
    }

    /// Number of members.
    pub fn len(&self) -> (r: usize)
        ensures
            r == self@.len(),
    {
        self.connected_vms.len()
    }

    /// Whether `vm` is a member.
    pub fn contains(&self, vm: usize) -> (r: bool)
        ensures
            r == self@.contains(vm),
    {
        vec_contains(&self.connected_vms, vm)
    }

    /// The members, in the order in which they joined.
    pub fn members(&self) -> (r: Vec<usize>)
        ensures
            r@ == self@,
    {
        copy_indices(&self.connected_vms)
    }
}

/// Whether the list `c` can take `vm` in: `vm` is no member yet, and every
/// member is one of `neigh`.
pub open spec fn can_extend(c: Seq<usize>, vm: usize, neigh: Seq<usize>) -> bool {
    !c.contains(vm) && subset_of(c, neigh)
}

/// Whether the list at `j` stays when the lists contained in the one at `idx`
/// are removed.
pub open spec fn stays(cs: Seq<Seq<usize>>, idx: int, j: int) -> bool {
    j == idx || !subset_of(cs[j], cs[idx])
}

/// The first `n` lists of `cs` without those that are contained in the list
/// at `idx`; the list at `idx` itself stays.
pub open spec fn pruned(cs: Seq<Seq<usize>>, idx: int, n: int) -> Seq<Seq<usize>>
    decreases n,
{
    if n <= 0 {
        Seq::empty()
    } else if stays(cs, idx, n - 1) {
        pruned(cs, idx, n - 1).push(cs[n - 1])
    } else {
        pruned(cs, idx, n - 1)
    }
}

/// Every pair that `a` covers is covered by `b`.
pub open spec fn coverage_grows(a: Seq<Seq<usize>>, b: Seq<Seq<usize>>) -> bool {
    forall|u: usize, w: usize| #[trigger] covered(a, u, w) ==> covered(b, u, w)
}

/// For each list that `pruned` keeps, the place it came from: the places
/// rise, each names a list that stays, and each list that stays is named.
pub proof fn lemma_pruned_origin(cs: Seq<Seq<usize>>, idx: int, n: int) -> (m: Seq<int>)
    requires
        0 <= n <= cs.len(),
    ensures
        m.len() == pruned(cs, idx, n).len(),
        forall|k: int|
            0 <= k < m.len() ==> 0 <= #[trigger] m[k] < n && stays(cs, idx, m[k]) && pruned(
                cs,
                idx,
                n,
            )[k] == cs[m[k]],
        forall|k1: int, k2: int| 0 <= k1 < k2 < m.len() ==> #[trigger] m[k1] < #[trigger] m[k2],
        forall|j: int|
            0 <= j < n && #[trigger] stays(cs, idx, j) ==> exists|k: int|
                0 <= k < m.len() && #[trigger] m[k] == j,
    decreases n,
{
    if n <= 0 {
        Seq::empty()
    } else {
        let m0 = lemma_pruned_origin(cs, idx, n - 1);
        if stays(cs, idx, n - 1) {
            let m = m0.push(n - 1);
            assert forall|j: int| 0 <= j < n && #[trigger] stays(cs, idx, j) implies exists|k: int|

                0 <= k < m.len() && #[trigger] m[k] == j by {
                if j < n - 1 {
                    let k = choose|k: int| 0 <= k < m0.len() && #[trigger] m0[k] == j;
                    assert(m[k] == j);
                } else {
                    assert(m[m0.len() as int] == j);
                }
            }
            m
        } else {
            assert forall|j: int| 0 <= j < n && #[trigger] stays(cs, idx, j) implies exists|k: int|

                0 <= k < m0.len() && #[trigger] m0[k] == j by {
                assert(j < n - 1);
            }
            m0
        }
    }
}

/// Removing the lists contained in the one at `idx` loses no covered pair.
pub proof fn lemma_pruned_coverage(cs: Seq<Seq<usize>>, idx: int)
    requires
        0 <= idx < cs.len(),
    ensures
        coverage_grows(cs, pruned(cs, idx, cs.len() as int)),
{
    let n = cs.len() as int;
    let p = pruned(cs, idx, n);
    let m = lemma_pruned_origin(cs, idx, n);
    assert forall|u: usize, w: usize| #[trigger] covered(cs, u, w) implies covered(p, u, w) by {
        let j = choose|j: int| 0 <= j < cs.len() && (#[trigger] cs[j]).contains(u) && cs[j].contains(w);
        assert(stays(cs, idx, idx));
        if stays(cs, idx, j) {
            let k = choose|k: int| 0 <= k < m.len() && #[trigger] m[k] == j;
            assert(p[k].contains(u) && p[k].contains(w));
        } else {
            let k = choose|k: int| 0 <= k < m.len() && #[trigger] m[k] == idx;
            assert(p[k].contains(u) && p[k].contains(w));
        }
    }
}

/// Removing lists does not raise the number of lists without `v`.
pub proof fn lemma_pruned_count(cs: Seq<Seq<usize>>, idx: int, n: int, v: usize)
    requires
        0 <= n <= cs.len(),
    ensures
        count_without(pruned(cs, idx, n), v) <= count_without(cs.subrange(0, n), v),
    decreases n,
{
    if n > 0 {
        lemma_pruned_count(cs, idx, n - 1, v);
        assert(cs.subrange(0, n).drop_last() =~= cs.subrange(0, n - 1));
        assert(cs.subrange(0, n).last() == cs[n - 1]);
        if stays(cs, idx, n - 1) {
            let p0 = pruned(cs, idx, n - 1);
            assert(p0.push(cs[n - 1]).drop_last() =~= p0);
            assert(p0.push(cs[n - 1]).last() == cs[n - 1]);
        }
    }
}

/// Replacing a list without `v` by one with `v` lowers the number of lists
/// without `v` by one.
pub proof fn lemma_count_update(cs: Seq<Seq<usize>>, i: int, c: Seq<usize>, v: usize)
    requires
        0 <= i < cs.len(),
        !cs[i].contains(v),
        c.contains(v),
    ensures
        count_without(cs.update(i, c), v) + 1 == count_without(cs, v),
    decreases cs.len(),
{
    let n = cs.len() as int;
    if i == n - 1 {
        assert(cs.update(i, c).drop_last() =~= cs.drop_last());
    } else {
        lemma_count_update(cs.drop_last(), i, c, v);
        assert(cs.update(i, c).drop_last() =~= cs.drop_last().update(i, c));
    }
}

/// After the list at `i` took `v` in and the lists it then contains were
/// removed, the lists are again cliques of `g` of which none contains another.
pub proof fn lemma_extend_then_prune(
    g: VmConnectionLogicalV2,
    cs: Seq<Seq<usize>>,
    i: int,
    v: usize,
    neigh: Seq<usize>,
)
    requires
        g.wf(),
        v < g.count(),
        neigh == g.neighbours(v as int),
        all_cliques(g, cs),
        antichain(cs),
        0 <= i < cs.len(),
        can_extend(cs[i], v, neigh),
    ensures
        all_cliques(g, pruned(cs.update(i, cs[i].push(v)), i, cs.len() as int)),
        antichain(pruned(cs.update(i, cs[i].push(v)), i, cs.len() as int)),
        coverage_grows(cs, pruned(cs.update(i, cs[i].push(v)), i, cs.len() as int)),
        count_without(pruned(cs.update(i, cs[i].push(v)), i, cs.len() as int), v) < count_without(
            cs,
            v,
        ),
        forall|k: int|
            0 <= k < pruned(cs.update(i, cs[i].push(v)), i, cs.len() as int).len() ==> exists|
                j: int,
            |
                0 <= j < cs.len() && subset_of(
                    #[trigger] cs[j],
                    #[trigger] pruned(cs.update(i, cs[i].push(v)), i, cs.len() as int)[k],
                ),
{
    let c0 = cs[i];
    let c1 = c0.push(v);
    let cs1 = cs.update(i, c1);
    let n = cs.len() as int;
    let p = pruned(cs1, i, n);
    let m = lemma_pruned_origin(cs1, i, n);
    assert forall|x: usize| c1.contains(x) <==> (c0.contains(x) || x == v) by {
        if c0.contains(x) {
            let k = choose|k: int| 0 <= k < c0.len() && c0[k] == x;
            assert(c1[k] == x);
        }
        assert(c1[c0.len() as int] == v);
        if c1.contains(x) {
            let k = choose|k: int| 0 <= k < c1.len() && c1[k] == x;
            if k < c0.len() {
                assert(c0[k] == x);
            }
        }
    }
    // the extended list is a clique
    assert(is_clique(g, c1)) by {
        assert forall|x: usize, y: usize| c1.contains(x) && c1.contains(y) && x != y implies g.has_edge(
            x as int,
            y as int,
        ) by {
            if x == v {
                assert(neigh.contains(y));
                lemma_neighbours(g, v as int, y);
            } else if y == v {
                assert(neigh.contains(x));
                lemma_neighbours(g, v as int, x);
                lemma_mirror(g, v as int, x as int);
            }
        }
    }
    assert(c1.no_duplicates());
    assert(all_cliques(g, cs1)) by {
        assert forall|j: int| 0 <= j < cs1.len() implies {
            &&& (#[trigger] cs1[j]).no_duplicates()
            &&& cs1[j].len() >= 2
            &&& is_clique(g, cs1[j])
            &&& forall|x: usize| cs1[j].contains(x) ==> x < g.count()
        } by {
            if j != i {
                assert(cs1[j] == cs[j]);
            }
        }
    }
    assert(all_cliques(g, p)) by {
        assert forall|k: int| 0 <= k < p.len() implies {
            &&& (#[trigger] p[k]).no_duplicates()
            &&& p[k].len() >= 2
            &&& is_clique(g, p[k])
            &&& forall|x: usize| p[k].contains(x) ==> x < g.count()
        } by {
            assert(p[k] == cs1[m[k]]);
        }
    }
    assert(antichain(p)) by {
        assert forall|k1: int, k2: int|
            0 <= k1 < p.len() && 0 <= k2 < p.len() && k1 != k2 implies !subset_of(
            #[trigger] p[k1],
            #[trigger] p[k2],
        ) by {
            let j1 = m[k1];
            let j2 = m[k2];
            assert(j1 != j2) by {
                if k1 < k2 {
                    assert(m[k1] < m[k2]);
                } else {
                    assert(m[k2] < m[k1]);
                }
            }
            if subset_of(p[k1], p[k2]) {
                if j1 == i {
                    assert(cs1[j2] == cs[j2]);
                    assert(subset_of(cs[i], cs[j2]));
                } else if j2 == i {
                    assert(stays(cs1, i, j1));
                } else {
                    assert(cs1[j1] == cs[j1]);
                    assert(cs1[j2] == cs[j2]);
                }
            }
        }
    }
    assert(coverage_grows(cs, cs1)) by {
        assert forall|u: usize, w: usize| #[trigger] covered(cs, u, w) implies covered(cs1, u, w) by {
            let j = choose|j: int| 0 <= j < cs.len() && (#[trigger] cs[j]).contains(u) && cs[j].contains(w);
            assert(cs1[j].contains(u) && cs1[j].contains(w));
        }
    }
    assert forall|k: int| 0 <= k < p.len() implies exists|j: int|
        0 <= j < cs.len() && subset_of(#[trigger] cs[j], #[trigger] p[k]) by {
        let j = m[k];
        assert(p[k] == cs1[j]);
        if j != i {
            assert(cs1[j] == cs[j]);
        }
        assert(subset_of(cs[j], p[k]));
    }
    lemma_pruned_coverage(cs1, i);
    lemma_count_update(cs, i, c1, v);
    lemma_pruned_count(cs1, i, n, v);
    assert(cs1.subrange(0, n) =~= cs1);
}

/// The list of the two machines `v` and `m`.
pub open spec fn pair_of(v: usize, m: usize) -> Seq<usize> {
    seq![v, m]
}

/// A pair of connected machines that no list covers can join the lists: they
/// stay cliques of which none contains another, and the pair is covered.
pub proof fn lemma_add_pair(g: VmConnectionLogicalV2, cs: Seq<Seq<usize>>, v: usize, m: usize)
    requires
        g.wf(),
        all_cliques(g, cs),
        antichain(cs),
        g.has_edge(v as int, m as int),
        !covered(cs, v, m),
    ensures
        all_cliques(g, cs.push(pair_of(v, m))),
        antichain(cs.push(pair_of(v, m))),
        coverage_grows(cs, cs.push(pair_of(v, m))),
        covered(cs.push(pair_of(v, m)), v, m),
        forall|w: usize|
            w != m && w != v && !covered(cs, v, w) ==> !#[trigger] covered(
                cs.push(pair_of(v, m)),
                v,
                w,
            ),
{
    let pr = pair_of(v, m);
    let cs1 = cs.push(pr);
    let n = cs.len() as int;
    lemma_mirror(g, v as int, m as int);
    assert(pr[0] == v && pr[1] == m);
    assert forall|x: usize| pr.contains(x) <==> (x == v || x == m) by {
        if pr.contains(x) {
            let k = choose|k: int| 0 <= k < pr.len() && pr[k] == x;
        }
    }
    assert(all_cliques(g, cs1)) by {
        assert forall|j: int| 0 <= j < cs1.len() implies {
            &&& (#[trigger] cs1[j]).no_duplicates()
            &&& cs1[j].len() >= 2
            &&& is_clique(g, cs1[j])
            &&& forall|x: usize| cs1[j].contains(x) ==> x < g.count()
        } by {
            if j < n {
                assert(cs1[j] == cs[j]);
            }
        }
    }
    assert(antichain(cs1)) by {
        assert forall|i: int, j: int|
            0 <= i < cs1.len() && 0 <= j < cs1.len() && i != j implies !subset_of(
            #[trigger] cs1[i],
            #[trigger] cs1[j],
        ) by {
            if i < n && j < n {
                assert(cs1[i] == cs[i] && cs1[j] == cs[j]);
            } else if i == n {
                if subset_of(pr, cs1[j]) {
                    assert(cs[j].contains(v) && cs[j].contains(m));
                }
            } else {
                let c = cs[i];
                if subset_of(c, pr) {
                    assert(c.contains(c[0]) && c.contains(c[1]));
                    assert(c[0] != c[1]);
                    assert(c.contains(v) && c.contains(m));
                }
            }
        }
    }
    assert(coverage_grows(cs, cs1)) by {
        assert forall|u: usize, w: usize| #[trigger] covered(cs, u, w) implies covered(cs1, u, w) by {
            let j = choose|j: int| 0 <= j < cs.len() && (#[trigger] cs[j]).contains(u) && cs[j].contains(w);
            assert(cs1[j].contains(u) && cs1[j].contains(w));
        }
    }
    assert(cs1[n].contains(v) && cs1[n].contains(m));
    assert forall|w: usize| w != m && w != v && !covered(cs, v, w) implies !#[trigger] covered(
        cs1,
        v,
        w,
    ) by {
        if covered(cs1, v, w) {
            let j = choose|j: int| 0 <= j < cs1.len() && (#[trigger] cs1[j]).contains(v) && cs1[j].contains(w);
            if j < n {
                assert(cs[j].contains(v) && cs[j].contains(w));
            }
        }
    }
}

/// In a well-formed graph no machine is named twice among the neighbours of
/// one machine, and no machine is its own neighbour.
pub proof fn lemma_neighbours_distinct(g: VmConnectionLogicalV2, v: int)
    requires
        g.wf(),
        0 <= v < g.count(),
    ensures
        g.neighbours(v).no_duplicates(),
        !g.neighbours(v).contains(v as usize),
        forall|x: usize| g.neighbours(v).contains(x) ==> x < g.count(),
{
    let d = g.neighbours(v);
    let row = g.rows()[v];
    assert forall|a: int, b: int| 0 <= a < d.len() && 0 <= b < d.len() && a != b implies d[a]
        != d[b] by {
        if a < b {
            assert(row[a].vm_dest != row[b].vm_dest);
        } else {
            assert(row[b].vm_dest != row[a].vm_dest);
        }
    }
    if d.contains(v as usize) {
        let k = choose|k: int| 0 <= k < d.len() && d[k] == v as usize;
        assert(row[k].vm_dest != v);
    }
    assert forall|x: usize| d.contains(x) implies x < g.count() by {
        let k = choose|k: int| 0 <= k < d.len() && d[k] == x;
        assert(row[k].vm_dest < g.count());
    }
}

/// Adds `vm_idx` to the first candidate that can take it in, and says which
/// one that was; `None`, and nothing changed, where no candidate can.
pub fn extend_subnet(
    vm_idx: usize,
    current_subnets: &mut Vec<SubnetCandidate>,
    all_neighbours: &Vec<usize>,
) -> (r: Option<usize>)
    ensures
        match r {
            Some(i) => {
                &&& i < old(current_subnets)@.len()
                &&& can_extend(old(current_subnets)@[i as int]@, vm_idx, all_neighbours@)
                &&& forall|j: int|
                    0 <= j < i ==> !can_extend(
                        #[trigger] member_lists(old(current_subnets)@)[j],
                        vm_idx,
                        all_neighbours@,
                    )
                &&& member_lists(final(current_subnets)@) == member_lists(
                    old(current_subnets)@,
                ).update(i as int, old(current_subnets)@[i as int]@.push(vm_idx))
            },
            None => {
                &&& member_lists(final(current_subnets)@) == member_lists(old(current_subnets)@)
                &&& forall|j: int|
                    0 <= j < old(current_subnets)@.len() ==> !can_extend(
                        #[trigger] member_lists(old(current_subnets)@)[j],
                        vm_idx,
                        all_neighbours@,
                    )
            },
        },
{
    let sze: usize = current_subnets.len();
    let mut i: usize = 0;
    while i < sze
        invariant
            i <= sze,
            sze == current_subnets@.len(),
            current_subnets@ == old(current_subnets)@,
            forall|j: int|
                0 <= j < i ==> !can_extend(
                    #[trigger] member_lists(current_subnets@)[j],
                    vm_idx,
                    all_neighbours@,
                ),
        decreases sze - i,
    {
        if !vec_contains(&current_subnets[i].connected_vms, vm_idx) && is_subset(
            &current_subnets[i].connected_vms,
            all_neighbours,
        ) {
            current_subnets[i].connected_vms.push(vm_idx);
            proof {
                assert(member_lists(current_subnets@) =~= member_lists(
                    old(current_subnets)@,
                ).update(i as int, old(current_subnets)@[i as int]@.push(vm_idx)));
            }
            return Some(i);
        }
        i = i + 1;
    }
    None
}

/// Removes every candidate whose members all belong to the candidate at
/// `subnet_idx`; that candidate itself stays. The others keep their order.
pub fn remove_subsubnets(subnet_idx: usize, current_subnets: &mut Vec<SubnetCandidate>)
    requires
        subnet_idx < old(current_subnets)@.len(),
    ensures
        member_lists(final(current_subnets)@) == pruned(
            member_lists(old(current_subnets)@),
            subnet_idx as int,
            old(current_subnets)@.len() as int,
        ),
{
    let mut kept: Vec<SubnetCandidate> = Vec::new();
    let sze: usize = current_subnets.len();
    let ghost lists = member_lists(current_subnets@);
    let mut i: usize = 0;
    while i < sze
        invariant
            i <= sze,
            sze == current_subnets@.len(),
            subnet_idx < sze,
            current_subnets@ == old(current_subnets)@,
            lists == member_lists(current_subnets@),
            member_lists(kept@) == pruned(lists, subnet_idx as int, i as int),
        decreases sze - i,
    {
        let ghost before = member_lists(kept@);
        if subnet_idx == i || !is_subset(
            &current_subnets[i].connected_vms,
            &current_subnets[subnet_idx].connected_vms,
        ) {
            let members = copy_indices(&current_subnets[i].connected_vms);
            kept.push(SubnetCandidate { connected_vms: members });
            proof {
                assert(lists[i as int] == current_subnets@[i as int]@);
                assert(lists[subnet_idx as int] == current_subnets@[subnet_idx as int]@);
                assert(member_lists(kept@) =~= before.push(lists[i as int]));
            }
        } else {
            proof {
                assert(lists[i as int] == current_subnets@[i as int]@);
                assert(lists[subnet_idx as int] == current_subnets@[subnet_idx as int]@);
            }
        }
        i = i + 1;
    }
    *current_subnets = kept;
}

/// The neighbours of `vm_idx` that share no candidate with it. Each is named
/// once.
pub fn check_missing_neighbours(
    vm_idx: usize,
    current_subnets: &Vec<SubnetCandidate>,
    all_neighbours: &Vec<usize>,
) -> (r: Vec<usize>)
    requires
        all_neighbours@.no_duplicates(),
    ensures
        r@ == missing_upto(
            member_lists(current_subnets@),
            vm_idx,
            all_neighbours@,
            all_neighbours@.len() as int,
        ),
        r@.no_duplicates(),
        forall|m: usize|
            r@.contains(m) <==> (all_neighbours@.contains(m) && !covered(
                member_lists(current_subnets@),
                vm_idx,
                m,
            )),
{
    let mut missing: Vec<usize> = Vec::new();
    let ghost lists = member_lists(current_subnets@);
    let mut k: usize = 0;
    while k < all_neighbours.len()
        invariant
            k <= all_neighbours@.len(),
            all_neighbours@.no_duplicates(),
            lists == member_lists(current_subnets@),
            missing@ == missing_upto(lists, vm_idx, all_neighbours@, k as int),
            missing@.no_duplicates(),
            forall|m: usize|
                missing@.contains(m) <==> (all_neighbours@.subrange(0, k as int).contains(m)
                    && !covered(lists, vm_idx, m)),
        decreases all_neighbours@.len() - k,
    {
        let m = all_neighbours[k];
        let shared = shares_subnet(vm_idx, m, current_subnets);
        let ghost before = missing@;
        let ghost seen = all_neighbours@.subrange(0, k as int);
        let ghost seen1 = all_neighbours@.subrange(0, k + 1);
        proof {
            assert(seen1 =~= seen.push(m));
            assert forall|x: usize| #[trigger] seen1.contains(x) <==> (seen.contains(x) || x == m) by {
                if seen.contains(x) {
                    let j = choose|j: int| 0 <= j < seen.len() && seen[j] == x;
                    assert(seen1[j] == x);
                }
                assert(seen1[k as int] == m);
                if seen1.contains(x) {
                    let j = choose|j: int| 0 <= j < seen1.len() && seen1[j] == x;
                    if j < k {
                        assert(seen[j] == x);
                    }
                }
            }
            if seen.contains(m) {
                let j = choose|j: int| 0 <= j < seen.len() && seen[j] == m;
                assert(all_neighbours@[j] == all_neighbours@[k as int]);
            }
        }
        if !shared {
            missing.push(m);
            proof {
                assert forall|x: usize| #[trigger] missing@.contains(x) <==> (before.contains(x) || x == m) by {
                    if before.contains(x) {
                        let j = choose|j: int| 0 <= j < before.len() && before[j] == x;
                        assert(missing@[j] == x);
                    }
                    assert(missing@[before.len() as int] == m);
                    if missing@.contains(x) {
                        let j = choose|j: int| 0 <= j < missing@.len() && missing@[j] == x;
                        if j < before.len() {
                            assert(before[j] == x);
                        }
                    }
                }
                assert(missing@.no_duplicates()) by {
                    assert forall|a: int, b: int|
                        0 <= a < missing@.len() && 0 <= b < missing@.len() && a != b implies missing@[a]
                        != missing@[b] by {
                        if a < before.len() && b < before.len() {
                            assert(before[a] != before[b]);
                        } else if a < before.len() {
                            assert(before.contains(before[a]));
                        } else {
                            assert(before.contains(before[b]));
                        }
                    }
                }
            }
        }
        proof {
            assert forall|x: usize| missing@.contains(x) <==> (seen1.contains(x) && !covered(
                lists,
                vm_idx,
                x,
            )) by {
                assert(seen1.contains(x) <==> (seen.contains(x) || x == m));
                assert(before.contains(x) <==> (seen.contains(x) && !covered(lists, vm_idx, x)));
            }
        }
        k = k + 1;
    }
    proof {
        assert(all_neighbours@.subrange(0, k as int) =~= all_neighbours@);
    }
    missing
}

/// Whether some candidate holds both `a` and `b`.
pub fn shares_subnet(a: usize, b: usize, current_subnets: &Vec<SubnetCandidate>) -> (r: bool)
    ensures
        r == covered(member_lists(current_subnets@), a, b),
{
    let ghost lists = member_lists(current_subnets@);
    let mut i: usize = 0;
    while i < current_subnets.len()
        invariant
            i <= current_subnets@.len(),
            lists == member_lists(current_subnets@),
            forall|j: int| 0 <= j < i ==> !((#[trigger] lists[j]).contains(a) && lists[j].contains(b)),
        decreases current_subnets@.len() - i,
    {
        if vec_contains(&current_subnets[i].connected_vms, a) && vec_contains(
            &current_subnets[i].connected_vms,
            b,
        ) {
            proof {
                assert(lists[i as int].contains(a) && lists[i as int].contains(b));
            }
            return true;
        }
        i = i + 1;
    }
    false
}

/// Every edge that starts at a machine below `upto` is covered by a list.
pub open spec fn edges_covered(g: VmConnectionLogicalV2, cs: Seq<Seq<usize>>, upto: int) -> bool {
    forall|u: usize, w: usize|
        u < upto && #[trigger] g.has_edge(u as int, w as int) ==> covered(cs, u, w)
}

/// What a list of candidates must be to stand for the graph `g`: each
/// candidate is a clique of at least two machines, none is contained in
/// another, and every edge of `g` lies inside some candidate.
pub open spec fn is_subnet_cover(g: VmConnectionLogicalV2, cs: Seq<Seq<usize>>) -> bool {
    &&& all_cliques(g, cs)
    &&& antichain(cs)
    &&& edges_covered(g, cs, g.count() as int)
}

/// Any two different machines of `g` are connected.
pub open spec fn is_complete(g: VmConnectionLogicalV2) -> bool {
    forall|a: usize, b: usize|
        a < g.count() && b < g.count() && a != b ==> #[trigger] g.has_edge(a as int, b as int)
}

/// Every list holds every machine below `upto`.
pub open spec fn all_hold(cs: Seq<Seq<usize>>, upto: int) -> bool {
    forall|i: int, u: usize| 0 <= i < cs.len() && u < upto ==> #[trigger] cs[i].contains(u)
}

/// Lists of machines of a graph of `n` machines, of which none contains
/// another and each holds all `n` machines, are one list at most.
pub proof fn lemma_all_hold_single(g: VmConnectionLogicalV2, cs: Seq<Seq<usize>>)
    requires
        all_cliques(g, cs),
        antichain(cs),
        all_hold(cs, g.count() as int),
    ensures
        cs.len() <= 1,
{
    if cs.len() >= 2 {
        assert(subset_of(cs[0], cs[1])) by {
            assert forall|x: usize| cs[0].contains(x) implies cs[1].contains(x) by {
                assert(x < g.count());
            }
        }
    }
}

/// The place of the first list at or behind `from` that can take `v` in;
/// the number of lists where none can.
pub open spec fn first_extendable(cs: Seq<Seq<usize>>, v: usize, neigh: Seq<usize>, from: int) -> int
    decreases cs.len() - from,
{
    if from < 0 || from >= cs.len() {
        cs.len() as int
    } else if can_extend(cs[from], v, neigh) {
        from
    } else {
        first_extendable(cs, v, neigh, from + 1)
    }
}

/// What `first_extendable` finds: a list that can take `v` in, before which
/// none can; or no list at all.
pub proof fn lemma_first_extendable(cs: Seq<Seq<usize>>, v: usize, neigh: Seq<usize>, from: int)
    requires
        0 <= from <= cs.len(),
    ensures
        from <= first_extendable(cs, v, neigh, from) <= cs.len(),
        first_extendable(cs, v, neigh, from) < cs.len() ==> can_extend(
            cs[first_extendable(cs, v, neigh, from)],
            v,
            neigh,
        ),
        forall|j: int|
            from <= j < first_extendable(cs, v, neigh, from) ==> !can_extend(
                #[trigger] cs[j],
                v,
                neigh,
            ),
    decreases cs.len() - from,
{
    if from < cs.len() && !can_extend(cs[from], v, neigh) {
        lemma_first_extendable(cs, v, neigh, from + 1);
    }
}

/// A list that can take `v` in, before which none can, is the one that
/// `first_extendable` finds.
pub proof fn lemma_first_extendable_is(
    cs: Seq<Seq<usize>>,
    v: usize,
    neigh: Seq<usize>,
    from: int,
    i: int,
)
    requires
        0 <= from <= i <= cs.len(),
        i < cs.len() ==> can_extend(cs[i], v, neigh),
        forall|j: int| from <= j < i ==> !can_extend(#[trigger] cs[j], v, neigh),
    ensures
        first_extendable(cs, v, neigh, from) == i,
    decreases i - from,
{
    if from < i {
        lemma_first_extendable_is(cs, v, neigh, from + 1, i);
    }
}

/// The lists after `v` has joined every list that can take it in: the first
/// list that can takes `v` in and swallows the lists that it then contains,
/// again and again, until no list can take `v` in.
pub open spec fn extended(cs: Seq<Seq<usize>>, v: usize, neigh: Seq<usize>) -> Seq<Seq<usize>>
    decreases count_without(cs, v),
    via extended_decreases
{
    let i = first_extendable(cs, v, neigh, 0);
    if i < 0 || i >= cs.len() {
        cs
    } else {
        extended(pruned(cs.update(i, cs[i].push(v)), i, cs.len() as int), v, neigh)
    }
}

#[via_fn]
proof fn extended_decreases(cs: Seq<Seq<usize>>, v: usize, neigh: Seq<usize>) {
    let i = first_extendable(cs, v, neigh, 0);
    lemma_first_extendable(cs, v, neigh, 0);
    if 0 <= i < cs.len() {
        let c1 = cs[i].push(v);
        let cs1 = cs.update(i, c1);
        assert(c1[cs[i].len() as int] == v);
        lemma_count_update(cs, i, c1, v);
        lemma_pruned_count(cs1, i, cs.len() as int, v);
        assert(cs1.subrange(0, cs.len() as int) =~= cs1);
    }
}

/// Those of the first `upto` neighbours of `v` that share no list with `v`,
/// in order.
pub open spec fn missing_upto(cs: Seq<Seq<usize>>, v: usize, neigh: Seq<usize>, upto: int) -> Seq<
    usize,
>
    decreases upto,
{
    if upto <= 0 {
        Seq::empty()
    } else if covered(cs, v, neigh[upto - 1]) {
        missing_upto(cs, v, neigh, upto - 1)
    } else {
        missing_upto(cs, v, neigh, upto - 1).push(neigh[upto - 1])
    }
}

/// The lists with a pair of `v` and each of the first `upto` of `others`
/// behind them.
pub open spec fn with_pairs(cs: Seq<Seq<usize>>, v: usize, others: Seq<usize>, upto: int) -> Seq<
    Seq<usize>,
>
    decreases upto,
{
    if upto <= 0 {
        cs
    } else {
        with_pairs(cs, v, others, upto - 1).push(pair_of(v, others[upto - 1]))
    }
}

/// The lists after the turn of machine `v`: `v` joins every list that can
/// take it in, and forms a pair with each neighbour that then shares no list
/// with it.
pub open spec fn after_turn(g: VmConnectionLogicalV2, cs: Seq<Seq<usize>>, v: usize) -> Seq<
    Seq<usize>,
> {
    let neigh = g.neighbours(v as int);
    let grown = extended(cs, v, neigh);
    let missing = missing_upto(grown, v, neigh, neigh.len() as int);
    with_pairs(grown, v, missing, missing.len() as int)
}

/// The lists after the turns of the first `upto` machines.
pub open spec fn cover_upto(g: VmConnectionLogicalV2, upto: int) -> Seq<Seq<usize>>
    decreases upto,
{
    if upto <= 0 {
        Seq::empty()
    } else {
        after_turn(g, cover_upto(g, upto - 1), (upto - 1) as usize)
    }
}

/// Infers the subnets of a connection graph. Machine after machine joins
/// every candidate whose members are all its neighbours; a candidate that
/// grew this way swallows those it now contains; each neighbour that then
/// still shares no candidate with the machine forms a new pair with it.
pub fn create_network_from_logical(connections: &VmConnectionLogicalV2) -> (r: Vec<
    SubnetCandidate,
>)
    requires
        connections.wf(),
    ensures
        member_lists(r@) == cover_upto(*connections, connections.count() as int),
        is_subnet_cover(*connections, member_lists(r@)),
        forall|i: int| 0 <= i < r@.len() ==> (#[trigger] r@[i]).wf(),
        is_complete(*connections) && connections.count() >= 2 ==> r@.len() == 1 && all_hold(
            member_lists(r@),
            connections.count() as int,
        ),
{
    let mut current_subnets: Vec<SubnetCandidate> = Vec::new();
    let n = connections.vm_count();
    let mut vm_idx: usize = 0;
    while vm_idx < n
        invariant
            vm_idx <= n,
            n == connections.count(),
            connections.wf(),
            all_cliques(*connections, member_lists(current_subnets@)),
            antichain(member_lists(current_subnets@)),
            edges_covered(*connections, member_lists(current_subnets@), vm_idx as int),
            vm_idx == 0 ==> current_subnets@.len() == 0,
            is_complete(*connections) ==> all_hold(member_lists(current_subnets@), vm_idx as int),
            member_lists(current_subnets@) == cover_upto(*connections, vm_idx as int),
        decreases n - vm_idx,
    {
        let all_neighbours = connections.all_connections_for_vm(vm_idx);
        proof {
            lemma_neighbours_distinct(*connections, vm_idx as int);
        }
        let ghost at_entry = member_lists(current_subnets@);
        let mut extending = true;
        while extending
            invariant
                extended(at_entry, vm_idx, all_neighbours@) == extended(
                    member_lists(current_subnets@),
                    vm_idx,
                    all_neighbours@,
                ),
                !extending ==> extended(member_lists(current_subnets@), vm_idx, all_neighbours@)
                    == member_lists(current_subnets@),
                vm_idx < n,
                n == connections.count(),
                connections.wf(),
                all_neighbours@ == connections.neighbours(vm_idx as int),
                all_cliques(*connections, member_lists(current_subnets@)),
                antichain(member_lists(current_subnets@)),
                edges_covered(*connections, member_lists(current_subnets@), vm_idx as int),
                vm_idx == 0 ==> current_subnets@.len() == 0,
                is_complete(*connections) ==> all_hold(
                    member_lists(current_subnets@),
                    vm_idx as int,
                ),
                !extending ==> forall|j: int|
                    0 <= j < current_subnets@.len() ==> !can_extend(
                        #[trigger] member_lists(current_subnets@)[j],
                        vm_idx,
                        all_neighbours@,
                    ),
            decreases
                    count_without(member_lists(current_subnets@), vm_idx) + if extending {
                        1nat
                    } else {
                        0nat
                    },
        {
            let ghost before = member_lists(current_subnets@);
            let ghost before_len = current_subnets@.len();
            proof {
                assert forall|j: int| 0 <= j < before_len implies before[j] == (
                #[trigger] current_subnets@[j])@ by {}
            }
            match extend_subnet(vm_idx, &mut current_subnets, &all_neighbours) {
                Some(i) => {
                    proof {
                        assert(member_lists(current_subnets@).len() == current_subnets@.len());
                        assert(before.len() == before_len);
                        lemma_first_extendable_is(before, vm_idx, all_neighbours@, 0, i as int);
                        lemma_extend_then_prune(
                            *connections,
                            before,
                            i as int,
                            vm_idx,
                            all_neighbours@,
                        );
                    }
                    remove_subsubnets(i, &mut current_subnets);
                    proof {
                        let after = member_lists(current_subnets@);
                        if is_complete(*connections) {
                            assert forall|k: int, u: usize|
                                0 <= k < after.len() && u < vm_idx implies #[trigger] after[k].contains(
                                u,
                            ) by {
                                let j = choose|j: int|
                                    0 <= j < before.len() && subset_of(
                                        #[trigger] before[j],
                                        after[k],
                                    );
                                assert(before[j].contains(u));
                            }
                        }
                    }
                },
                None => {
                    proof {
                        lemma_first_extendable_is(
                            before,
                            vm_idx,
                            all_neighbours@,
                            0,
                            before.len() as int,
                        );
                    }
                    extending = false;
                },
            }
        }
        proof {
            let cs = member_lists(current_subnets@);
            if is_complete(*connections) {
                assert forall|i: int, u: usize| 0 <= i < cs.len() && u < vm_idx + 1 implies #[trigger] cs[i].contains(
                    u,
                ) by {
                    if u == vm_idx && !cs[i].contains(vm_idx) {
                        assert forall|x: usize| cs[i].contains(x) implies all_neighbours@.contains(
                            x,
                        ) by {
                            assert(x < connections.count());
                            assert(connections.has_edge(vm_idx as int, x as int));
                            lemma_neighbours(*connections, vm_idx as int, x);
                        }
                        assert(can_extend(cs[i], vm_idx, all_neighbours@));
                    }
                }
            }
        }
        let unreached_neighbours = check_missing_neighbours(
            vm_idx,
            &current_subnets,
            &all_neighbours,
        );
        proof {
            let cs = member_lists(current_subnets@);
            if is_complete(*connections) && vm_idx >= 1 && unreached_neighbours@.len() > 0 {
                let m = unreached_neighbours@[0];
                assert(unreached_neighbours@.contains(m));
                assert(connections.has_edge(0, m as int)) by {
                    lemma_neighbours_distinct(*connections, vm_idx as int);
                    if m == 0 {
                        assert(connections.has_edge(vm_idx as int, 0int));
                        lemma_mirror(*connections, vm_idx as int, 0);
                        assert(false);
                    }
                }
                assert(covered(cs, 0, m));
                let i = choose|i: int| 0 <= i < cs.len() && (#[trigger] cs[i]).contains(0) && cs[i].contains(m);
                assert(cs[i].contains(vm_idx));
                assert(false);
            }
        }
        proof {
            assert forall|j: int| 0 <= j < unreached_neighbours@.len() implies {
                &&& all_neighbours@.contains(#[trigger] unreached_neighbours@[j])
                &&& !covered(member_lists(current_subnets@), vm_idx, unreached_neighbours@[j])
            } by {
                assert(unreached_neighbours@.contains(unreached_neighbours@[j]));
            }
        }
        let ghost grown = member_lists(current_subnets@);
        proof {
            assert(grown == extended(at_entry, vm_idx, all_neighbours@));
        }
        let mut k: usize = 0;
        while k < unreached_neighbours.len()
            invariant
                k <= unreached_neighbours@.len(),
                member_lists(current_subnets@) == with_pairs(
                    grown,
                    vm_idx,
                    unreached_neighbours@,
                    k as int,
                ),
                vm_idx < n,
                n == connections.count(),
                connections.wf(),
                all_neighbours@ == connections.neighbours(vm_idx as int),
                !all_neighbours@.contains(vm_idx),
                unreached_neighbours@.no_duplicates(),
                is_complete(*connections) ==> all_hold(
                    member_lists(current_subnets@),
                    vm_idx + 1,
                ),
                is_complete(*connections) && vm_idx >= 1 ==> unreached_neighbours@.len() == 0,
                forall|j: int|
                    0 <= j < unreached_neighbours@.len() ==> all_neighbours@.contains(
                        #[trigger] unreached_neighbours@[j],
                    ),
                all_cliques(*connections, member_lists(current_subnets@)),
                antichain(member_lists(current_subnets@)),
                edges_covered(*connections, member_lists(current_subnets@), vm_idx as int),
                forall|m: usize|
                    all_neighbours@.contains(m) && !unreached_neighbours@.contains(m) ==> covered(
                        member_lists(current_subnets@),
                        vm_idx,
                        m,
                    ),
                forall|j: int|
                    0 <= j < k ==> covered(
                        member_lists(current_subnets@),
                        vm_idx,
                        #[trigger] unreached_neighbours@[j],
                    ),
                forall|j: int|
                    k <= j < unreached_neighbours@.len() ==> !covered(
                        member_lists(current_subnets@),
                        vm_idx,
                        #[trigger] unreached_neighbours@[j],
                    ),
            decreases unreached_neighbours@.len() - k,
        {
            let new_neighbour = unreached_neighbours[k];
            let ghost before = member_lists(current_subnets@);
            proof {
                assert(unreached_neighbours@.contains(new_neighbour));
                lemma_neighbours(*connections, vm_idx as int, new_neighbour);
                lemma_add_pair(*connections, before, vm_idx, new_neighbour);
            }
            let mut pair: Vec<usize> = Vec::new();
            pair.push(vm_idx);
            pair.push(new_neighbour);
            current_subnets.push(SubnetCandidate { connected_vms: pair });
            proof {
                assert(pair@ =~= pair_of(vm_idx, new_neighbour));
                assert(member_lists(current_subnets@) =~= before.push(
                    pair_of(vm_idx, new_neighbour),
                ));
                let after = member_lists(current_subnets@);
                if is_complete(*connections) {
                    assert(vm_idx == 0);
                    assert forall|i: int, u: usize|
                        0 <= i < after.len() && u < vm_idx + 1 implies #[trigger] after[i].contains(
                        u,
                    ) by {
                        if i < before.len() {
                            assert(after[i] == before[i]);
                        } else {
                            assert(after[i][0] == vm_idx);
                        }
                    }
                }
                assert forall|j: int| k + 1 <= j < unreached_neighbours@.len() implies !covered(
                    after,
                    vm_idx,
                    #[trigger] unreached_neighbours@[j],
                ) by {
                    let w = unreached_neighbours@[j];
                    assert(w != new_neighbour);
                    assert(all_neighbours@.contains(w));
                }
            }
            k = k + 1;
        }
        proof {
            assert(unreached_neighbours@ == missing_upto(
                grown,
                vm_idx,
                all_neighbours@,
                all_neighbours@.len() as int,
            ));
            assert(member_lists(current_subnets@) == after_turn(*connections, at_entry, vm_idx));
            let cs = member_lists(current_subnets@);
            assert forall|u: usize, w: usize|
                u < vm_idx + 1 && #[trigger] connections.has_edge(u as int, w as int) implies covered(
                cs,
                u,
                w,
            ) by {
                if u == vm_idx {
                    lemma_neighbours(*connections, vm_idx as int, w);
                    if unreached_neighbours@.contains(w) {
                        let j = choose|j: int|
                            0 <= j < unreached_neighbours@.len() && unreached_neighbours@[j] == w;
                        assert(covered(cs, vm_idx, unreached_neighbours@[j]));
                    }
                }
            }
        }
        vm_idx = vm_idx + 1;
    }
    proof {
        let cs = member_lists(current_subnets@);
        assert forall|i: int| 0 <= i < current_subnets@.len() implies (
        #[trigger] current_subnets@[i]).wf() by {
            assert(cs[i].no_duplicates());
        }
        if is_complete(*connections) && connections.count() >= 2 {
            lemma_all_hold_single(*connections, cs);
            assert(connections.has_edge(0, 1));
            assert(covered(cs, 0, 1));
        }
    }
    current_subnets
}

/// Addresses left unused at each end of a subnet.
pub const IP_ADDRESSES_RESERVED: u32 = 8;

/// The first address that is handed out: 10.1.0.0.
pub const FIRST_ADDRESS: u32 = 0x0A01_0000;

/// The first address behind the space 10.0.0.0/8.
pub const ADDRESS_LIMIT: u32 = 0x0B00_0000;

/// Where a block of `2^width` addresses starts for a cursor at `addr`: at
/// `addr` itself where that is a multiple of the block's size; else two blocks
/// above the multiple below `addr`.
pub open spec fn realigned(addr: nat, width: nat) -> nat {
    if addr % pow2(width) == 0 {
        addr
    } else {
        (addr - addr % pow2(width) + 2 * pow2(width)) as nat
    }
}

/// Number of addresses that a subnet of `members` machines takes, the
/// reserved ones included.
pub open spec fn subnet_size(members: nat) -> nat {
    members + 2 * IP_ADDRESSES_RESERVED as nat
}

/// Width in bits of the host part of a subnet of `members` machines.
pub open spec fn host_bits(members: nat) -> nat {
    log2_ceil_spec(subnet_size(members))
}

/// The cursor after the first `i` subnets, whose member counts are `sizes`.
pub open spec fn cursor_after(sizes: Seq<nat>, i: int) -> nat
    decreases i,
{
    if i <= 0 {
        FIRST_ADDRESS as nat
    } else {
        realigned(cursor_after(sizes, i - 1), host_bits(sizes[i - 1])) + subnet_size(sizes[i - 1])
    }
}

/// The first address of the prefix of subnet `i`.
pub open spec fn subnet_start(sizes: Seq<nat>, i: int) -> nat {
    realigned(cursor_after(sizes, i), host_bits(sizes[i]))
}

/// A block never starts below the cursor, and starts on a multiple of its
/// size.
pub proof fn lemma_realigned(addr: nat, width: nat)
    ensures
        realigned(addr, width) >= addr,
        realigned(addr, width) % pow2(width) == 0,
        realigned(addr, width) <= addr + 2 * pow2(width),
{
    lemma_pow2_pos(width);
    let p = pow2(width) as int;
    let a = addr as int;
    if a % p != 0 {
        let r = a - a % p + 2 * p;
        assert(r % p == 0) by (nonlinear_arith)
            requires
                p > 0,
                r == a - a % p + 2 * p,
        {
            assert(a == p * (a / p) + a % p);
            assert(r == p * (a / p + 2));
            assert((p * (a / p + 2)) % p == 0);
        }
        assert(0 <= a % p < p) by (nonlinear_arith)
            requires
                p > 0,
        ;
    }
}

/// The cursor never moves back.
pub proof fn lemma_cursor_monotone(sizes: Seq<nat>, i: int, j: int)
    requires
        0 <= i <= j <= sizes.len(),
    ensures
        cursor_after(sizes, i) <= cursor_after(sizes, j),
    decreases j - i,
{
    if i < j {
        lemma_cursor_monotone(sizes, i, j - 1);
        lemma_realigned(cursor_after(sizes, j - 1), host_bits(sizes[j - 1]));
    }
}

/// An IPv4 address that moves upwards through the address space, held as the
/// number that its bytes spell in network order.
#[derive(Debug)]
pub struct Ipv4Counter {
    curr_addr: u32,
}

impl View for Ipv4Counter {
    type V = nat;

    /// The address as a number.
    closed spec fn view(&self) -> nat {
        self.curr_addr as nat
    }
}

/// The counter that stands at the address with the given bytes, the first of
/// the numeral first.
#[allow(non_snake_case)]
pub fn Ipv4Counter_from_ip_order(address: [u8; 4]) -> (r: Ipv4Counter)
    ensures
        r@ == be_value(address[0], address[1], address[2], address[3]),
{
    let u = be_arr_as_be_u32(address);
    Ipv4Counter { curr_addr: u }
}

impl Ipv4Counter {
    /// The address at which the counter stands.
    #[allow(non_snake_case)]
    pub fn to_Ipv4Addr(&self) -> (r: Ipv4Address)
        ensures
            r.value == self@,
    {
        Ipv4Address { value: self.curr_addr }
    }

    /// The address as a number.
    pub fn as_u32(&self) -> (r: u32)
        ensures
            r == self@,
    {
        self.curr_addr
    }

    /// Number of zero bits at the low end of the address; 32 for the address
    /// zero.
    pub fn trailing_zeros(&self) -> (r: u32)
        ensures
            r == vstd::std_specs::bits::u32_trailing_zeros(self@ as u32),
            r <= 32,
    {
        proof {
            vstd::std_specs::bits::axiom_u32_trailing_zeros(self.curr_addr);
        }
        self.curr_addr.trailing_zeros()
    }

    /// Width of the widest network part of a prefix that can start at the
    /// address.
    pub fn minimum_netmask(&self) -> (r: u32)
        ensures
            r == 32 - vstd::std_specs::bits::u32_trailing_zeros(self@ as u32),
    {
        32 - self.trailing_zeros()
    }

    /// Whether a block for `num_addr` addresses, started where
    /// `make_room_for` would start it, ends inside 10.0.0.0/8.
    pub fn has_room_for(&self, num_addr: u32) -> (r: bool)
        requires
            0 < num_addr,
        ensures
            r == (realigned(self@, log2_ceil_spec(num_addr as nat)) + num_addr
                <= ADDRESS_LIMIT),
    {
        if num_addr > ADDRESS_LIMIT {
            return false;
        }
        let log_bits = log2_ceil(num_addr as i32);
        let block: u64 = pow2_u64(log_bits as u32);
        proof {
            lemma2_to64();
            if log_bits < 31 {
                lemma_pow2_strictly_increases(log_bits as nat, 31);
            }
            lemma_realigned(self@, log_bits as nat);
        }
        let cursor: u64 = self.curr_addr as u64;
        let rem: u64 = cursor % block;
        assert(rem <= cursor) by (nonlinear_arith)
            requires
                rem == cursor % block,
                block > 0,
        ;
        let start: u64 = if rem == 0 {
            cursor
        } else {
            cursor - rem + 2 * block
        };
        start + num_addr as u64 <= ADDRESS_LIMIT as u64
    }

    /// Moves the counter to the start of a block that holds `num_addr`
    /// addresses: it stays where it is a multiple of the block's size, else it
    /// moves two blocks above the multiple below it.
    pub fn make_room_for(&mut self, num_addr: u32)
        requires
            0 < num_addr <= i32::MAX,
            realigned(old(self)@, log2_ceil_spec(num_addr as nat)) <= u32::MAX,
        ensures
            final(self)@ == realigned(old(self)@, log2_ceil_spec(num_addr as nat)),
    {
        let log_bits = log2_ceil(num_addr as i32);
        let block: u64 = pow2_u64(log_bits as u32);
        proof {
            lemma2_to64();
            if log_bits < 31 {
                lemma_pow2_strictly_increases(log_bits as nat, 31);
            }
        }
        let cursor: u64 = self.curr_addr as u64;
        let rem: u64 = cursor % block;
        assert(rem <= cursor) by (nonlinear_arith)
            requires
                rem == cursor % block,
                block > 0,
        ;
        if rem != 0 {
            let new_addr: u64 = cursor - rem + 2 * block;
            self.curr_addr = new_addr as u32;
        }
    }

    /// One byte of the address; byte 0 is the first of the numeral.
    pub fn byte_at(&self, idx: usize) -> (r: u8)
        requires
            idx < 4,
        ensures
            idx == 0 ==> r == self@ / 0x100_0000,
            idx == 1 ==> r == (self@ / 0x1_0000) % 0x100,
            idx == 2 ==> r == (self@ / 0x100) % 0x100,
            idx == 3 ==> r == self@ % 0x100,
    {
        u32_as_be_arr(self.curr_addr)[idx]
    }

    /// The counter `num` addresses further on.
    pub fn add(self, num: u32) -> (r: Self)
        requires
            self@ + num <= u32::MAX,
        ensures
            r@ == self@ + num,
    {
        Ipv4Counter { curr_addr: self.curr_addr + num }
    }
}

/// The member counts of a list of candidates.
pub open spec fn member_counts(cs: Seq<SubnetCandidate>) -> Seq<nat> {
    Seq::new(cs.len(), |i: int| cs[i]@.len())
}

/// A subnet with its prefix and the address of each member machine. No
/// machine is named twice.
#[derive(Clone, Debug)]
pub struct Subnet {
    pub prefix: CidrIP,
    pub connected_vms: Vec<(usize, Ipv4Address)>,
}

impl Subnet {
    /// The machines of the subnet, in order.
    pub open spec fn machines(&self) -> Seq<usize> {
        Seq::new(self.connected_vms@.len(), |j: int| self.connected_vms@[j].0)
    }

    /// No machine is named twice.
    pub open spec fn wf(&self) -> bool {
        self.machines().no_duplicates()
    }

    /// The subnet that allocation gives to `members` when its prefix starts
    /// at `start`: the prefix leaves room for the members and the reserved
    /// addresses, and the members get consecutive addresses behind the
    /// reserved ones at the start.
    pub open spec fn is_allocation_of(&self, members: Seq<usize>, start: nat) -> bool {
        &&& self.prefix.ip.value == start
        &&& self.prefix.netmask == 32 - host_bits(members.len())
        &&& self.connected_vms@.len() == members.len()
        &&& forall|j: int|
            0 <= j < members.len() ==> (#[trigger] self.connected_vms@[j]).0 == members[j]
                && self.connected_vms@[j].1.value == start + IP_ADDRESSES_RESERVED + j
    }
}

/// Why no addresses could be assigned.
#[derive(Clone, Copy, Debug, PartialEq, Eq, Structural)]
pub enum AllocationError {
    /// The subnets do not fit into the space 10.0.0.0/8.
    AddressSpaceExhausted,
}

/// Gives each candidate a prefix in 10.0.0.0/8, starting at 10.1.0.0, and
/// each member an address in it. Fails where the space does not hold them
/// all.
pub fn assign_subnets_and_ip_v2(logical_subnets: &Vec<SubnetCandidate>) -> (r: Result<
    Vec<Subnet>,
    AllocationError,
>)
    ensures
        r is Ok <==> cursor_after(
            member_counts(logical_subnets@),
            logical_subnets@.len() as int,
        ) <= ADDRESS_LIMIT,
        r is Ok ==> {
            &&& r->Ok_0@.len() == logical_subnets@.len()
            &&& forall|i: int|
                0 <= i < logical_subnets@.len() ==> (#[trigger] r->Ok_0@[i]).is_allocation_of(
                    logical_subnets@[i]@,
                    subnet_start(member_counts(logical_subnets@), i),
                )
        },
{
    let mut final_subnets: Vec<Subnet> = Vec::new();
    let mut ip_counter = Ipv4Counter_from_ip_order([10, 1, 0, 0]);
    let ghost sizes = member_counts(logical_subnets@);
    let n = logical_subnets.len();
    let mut i: usize = 0;
    while i < n
        invariant
            i <= n,
            n == logical_subnets@.len(),
            sizes == member_counts(logical_subnets@),
            ip_counter@ == cursor_after(sizes, i as int),
            ip_counter@ <= ADDRESS_LIMIT,
            final_subnets@.len() == i,
            forall|k: int|
                0 <= k < i ==> (#[trigger] final_subnets@[k]).is_allocation_of(
                    logical_subnets@[k]@,
                    subnet_start(sizes, k),
                ),
        decreases n - i,
    {
        let l_subnet = &logical_subnets[i];
        let count = l_subnet.connected_vms.len();
        proof {
            assert(sizes[i as int] == count);
            lemma_cursor_monotone(sizes, i + 1, n as int);
            lemma_realigned(ip_counter@, host_bits(count as nat));
        }
        if count > ADDRESS_LIMIT as usize {
            return Err(AllocationError::AddressSpaceExhausted);
        }
        let subnet_size: u32 = count as u32 + IP_ADDRESSES_RESERVED * 2;
        if !ip_counter.has_room_for(subnet_size) {
            return Err(AllocationError::AddressSpaceExhausted);
        }
        ip_counter.make_room_for(subnet_size);
        let orig_ip = ip_counter.to_Ipv4Addr();
        let ghost start = ip_counter@;
        assert(start == subnet_start(sizes, i as int));
        ip_counter = ip_counter.add(IP_ADDRESSES_RESERVED);
        let mut connected_vms: Vec<(usize, Ipv4Address)> = Vec::new();
        let mut j: usize = 0;
        while j < count
            invariant
                j <= count,
                count == l_subnet.connected_vms@.len(),
                start + 2 * IP_ADDRESSES_RESERVED + count <= ADDRESS_LIMIT,
                ip_counter@ == start + IP_ADDRESSES_RESERVED + j,
                connected_vms@.len() == j,
                forall|k: int|
                    0 <= k < j ==> (#[trigger] connected_vms@[k]).0 == l_subnet.connected_vms@[k]
                        && connected_vms@[k].1.value == start + IP_ADDRESSES_RESERVED + k,
            decreases count - j,
        {
            connected_vms.push((l_subnet.connected_vms[j], ip_counter.to_Ipv4Addr()));
            ip_counter = ip_counter.add(1);
            j = j + 1;
        }
        ip_counter = ip_counter.add(IP_ADDRESSES_RESERVED);
        let netmask: u8 = (32 - log2_ceil(subnet_size as i32)) as u8;
        final_subnets.push(Subnet { prefix: CidrIP { ip: orig_ip, netmask }, connected_vms });
        i = i + 1;
    }
    Ok(final_subnets)
}

/// A multiple of `2^wide` is a multiple of `2^narrow` for `narrow <= wide`.
pub proof fn lemma_multiple_of_smaller_power(a: nat, wide: nat, narrow: nat)
    requires
        narrow <= wide,
        a % pow2(wide) == 0,
    ensures
        a % pow2(narrow) == 0,
{
    lemma_pow2_pos(wide);
    lemma_pow2_pos(narrow);
    lemma_pow2_adds(narrow, (wide - narrow) as nat);
    let pw = pow2(wide) as int;
    let pn = pow2(narrow) as int;
    let pd = pow2((wide - narrow) as nat) as int;
    let q = (a as int) / pw;
    lemma_fundamental_div_mod(a as int, pw);
    assert(a == pw * q);
    assert(a == (pd * q) * pn) by (nonlinear_arith)
        requires
            a == pw * q,
            pw == pn * pd,
    ;
    lemma_mod_multiples_basic(pd * q, pn);
}

/// Moving the cursor by a multiple of the block's size moves the block's
/// start by as much.
pub proof fn lemma_realigned_shift(base: nat, s: nat, width: nat)
    requires
        base % pow2(width) == 0,
    ensures
        realigned(base + s, width) == base + realigned(s, width),
{
    lemma_pow2_pos(width);
    let p = pow2(width) as int;
    let q = (base as int) / p;
    lemma_fundamental_div_mod(base as int, p);
    assert(base == p * q);
    lemma_mod_multiples_vanish(q, s as int, p);
    assert((base + s) % (p as nat) == s % (p as nat));
}

/// Whether the prefix of subnet `i + 1` starts behind the end of the prefix
/// of subnet `i`, said of the member counts alone: the block of subnet
/// `i + 1`, placed for a cursor that stands as far from zero as subnet `i` is
/// large, starts no lower than the prefix of subnet `i` is long.
pub open spec fn keeps_clear(sizes: Seq<nat>, i: int) -> bool {
    realigned(subnet_size(sizes[i]), host_bits(sizes[i + 1])) >= pow2(host_bits(sizes[i]))
}

/// The prefix of a subnet starts on a multiple of its size, and the subnet's
/// addresses, the reserved ones included, end inside it.
pub proof fn lemma_subnet_in_prefix(sizes: Seq<nat>, i: int)
    requires
        0 <= i < sizes.len(),
    ensures
        subnet_start(sizes, i) % pow2(host_bits(sizes[i])) == 0,
        subnet_size(sizes[i]) <= pow2(host_bits(sizes[i])),
        cursor_after(sizes, i) <= subnet_start(sizes, i),
        cursor_after(sizes, i + 1) == subnet_start(sizes, i) + subnet_size(sizes[i]),
        cursor_after(sizes, i + 1) <= subnet_start(sizes, i) + pow2(host_bits(sizes[i])),
{
    lemma_realigned(cursor_after(sizes, i), host_bits(sizes[i]));
    lemma_log2_ceil_bounds(subnet_size(sizes[i]));
}

/// Consecutive prefixes: where `keeps_clear` holds of subnet `i` and the
/// next, the next prefix starts at or behind the end of the prefix of `i`;
/// where it does not hold, the next prefix starts inside the prefix of `i`.
pub proof fn lemma_next_prefix(sizes: Seq<nat>, i: int)
    requires
        0 <= i,
        i + 1 < sizes.len(),
    ensures
        keeps_clear(sizes, i) <==> subnet_start(sizes, i) + pow2(host_bits(sizes[i]))
            <= subnet_start(sizes, i + 1),
{
    let b = host_bits(sizes[i]);
    let b2 = host_bits(sizes[i + 1]);
    let s = subnet_size(sizes[i]);
    let base = subnet_start(sizes, i);
    lemma_subnet_in_prefix(sizes, i);
    lemma_pow2_pos(b);
    lemma_pow2_pos(b2);
    assert(subnet_start(sizes, i + 1) == realigned(base + s, b2));
    if b2 <= b {
        lemma_multiple_of_smaller_power(base, b, b2);
        lemma_realigned_shift(base, s, b2);
    } else {
        lemma_pow2_strictly_increases(b, b2);
        let p = pow2(b) as int;
        let p2 = pow2(b2) as int;
        // the count alone: `s <= 2^b < 2^b2`, so `s` is no multiple of `2^b2`
        lemma_small_mod(s, p2 as nat);
        assert(realigned(s, b2) == (s - s + 2 * p2) as nat);
        assert(keeps_clear(sizes, i));
        // the addresses
        let c = (base + s) as int;
        if c % p2 == 0 {
            lemma_multiple_of_smaller_power(c as nat, b2, b);
            let q = (base as int) / p;
            lemma_fundamental_div_mod(base as int, p);
            assert(base == p * q);
            lemma_mod_multiples_vanish(q, s as int, p);
            assert(s % (p as nat) == 0);
            if s < p {
                lemma_small_mod(s, p as nat);
            }
            assert(s == p);
        } else {
            assert(0 <= c % p2 < p2) by (nonlinear_arith)
                requires
                    p2 > 0,
            ;
        }
    }
}

/// The prefixes of two subnets do not overlap where `keeps_clear` holds of
/// the earlier one and its successor: the later prefix then starts at or
/// behind the end of the earlier one. The used addresses of two subnets never
/// overlap.
pub proof fn lemma_prefixes_disjoint(sizes: Seq<nat>, i: int, j: int)
    requires
        0 <= i < j < sizes.len(),
    ensures
        subnet_start(sizes, i) + subnet_size(sizes[i]) <= subnet_start(sizes, j),
        keeps_clear(sizes, i) ==> subnet_start(sizes, i) + pow2(host_bits(sizes[i]))
            <= subnet_start(sizes, j),
{
    lemma_subnet_in_prefix(sizes, i);
    lemma_subnet_in_prefix(sizes, j);
    lemma_cursor_monotone(sizes, i + 1, j);
    lemma_next_prefix(sizes, i);
    if i + 1 < j {
        lemma_subnet_in_prefix(sizes, i + 1);
        lemma_cursor_monotone(sizes, i + 2, j);
    }
}

/// Every address that allocation gives to a member lies in the subnet's
/// prefix, with at least the reserved addresses between it and either end of
/// the prefix, and the prefix is as long as its netmask says.
pub proof fn lemma_addresses_inside(subnet: Subnet, members: Seq<usize>, sizes: Seq<nat>, i: int)
    requires
        0 <= i < sizes.len(),
        sizes[i] == members.len(),
        subnet.is_allocation_of(members, subnet_start(sizes, i)),
    ensures
        subnet.prefix.netmask <= 32,
        (subnet.prefix.ip.value as nat) % pow2((32 - subnet.prefix.netmask) as nat) == 0,
        members.len() + 2 * IP_ADDRESSES_RESERVED <= pow2((32 - subnet.prefix.netmask) as nat),
        forall|j: int|
            0 <= j < members.len() ==> {
                &&& subnet.prefix.ip.value + IP_ADDRESSES_RESERVED <= (
                #[trigger] subnet.connected_vms@[j]).1.value
                &&& subnet.connected_vms@[j].1.value + IP_ADDRESSES_RESERVED
                    < subnet.prefix.ip.value + pow2((32 - subnet.prefix.netmask) as nat)
            },
        forall|j: int, k: int|
            0 <= j < k < members.len() ==> (#[trigger] subnet.connected_vms@[j]).1.value != (
            #[trigger] subnet.connected_vms@[k]).1.value,
{
    lemma_subnet_in_prefix(sizes, i);
}

/// A list that holds each of `n` machines has at least `n` members.
pub proof fn lemma_holds_all_len(s: Seq<usize>, n: nat)
    requires
        n <= usize::MAX,
        forall|u: usize| u < n ==> s.contains(u),
    ensures
        s.len() >= n,
    decreases n,
{
    if n > 0 {
        let top = (n - 1) as usize;
        assert(s.contains(top));
        let i = choose|i: int| 0 <= i < s.len() && s[i] == top;
        let t = s.remove(i);
        assert forall|u: usize| u < n - 1 implies t.contains(u) by {
            assert(s.contains(u));
            let j = choose|j: int| 0 <= j < s.len() && s[j] == u;
            if j < i {
                assert(t[j] == u);
            } else {
                assert(j > i);
                assert(t[j - 1] == u);
            }
        }
        lemma_holds_all_len(t, (n - 1) as nat);
    }
}

/// The one subnet of a system in which every machine is connected to every
/// other has a prefix that is long enough for all machines and the reserved
/// addresses.
pub proof fn lemma_full_network_prefix(subnet: Subnet, members: Seq<usize>, n: nat, sizes: Seq<nat>)
    requires
        n <= usize::MAX,
        forall|u: usize| u < n ==> members.contains(u),
        sizes.len() == 1,
        sizes[0] == members.len(),
        subnet.is_allocation_of(members, subnet_start(sizes, 0)),
    ensures
        n + 2 * IP_ADDRESSES_RESERVED <= pow2((32 - subnet.prefix.netmask) as nat),
{
    lemma_holds_all_len(members, n);
    lemma_addresses_inside(subnet, members, sizes, 0);
}

} // verus!
