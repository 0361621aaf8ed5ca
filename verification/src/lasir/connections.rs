//! The connection graph between machines, stored as one edge list per machine.

use vstd::prelude::*;
use crate::utils::types::CidrIP;

verus! {

/// Default speed of a connection, in megabits per second.
pub const DEFAULT_CONNECTION_SPEED_MBPS: usize = 1000;

/// Default latency of a connection, in microseconds.
pub const DEFAULT_CONNECTION_LATENCY_US: usize = 0;

/// Default drop chance of a connection: the bit pattern of the
/// single-precision number zero.
pub const DEFAULT_CONNECTION_DROP_CHANCE_BITS: u32 = 0;

/// What is known of a link. The drop chance is a percentage stored as the bit
/// pattern of a single-precision number; the graph never computes with it.
#[derive(Clone, Copy, Debug, PartialEq, Eq, Structural)]
pub struct ConnectionProperties {
    pub speed_mbps: usize,
    pub latency_us: usize,
    pub drop_chance_percent_bits: u32,
}

/// One directed edge: the destination machine and the link's properties.
#[derive(Clone, Copy, Debug, PartialEq, Eq, Structural)]
pub struct ConnectionTo {
    pub vm_dest: usize,
    pub speed_mbps: usize,
    pub latency_us: usize,
    pub drop_chance_percent_bits: u32,
}

/// Why an edge was refused.
#[derive(Clone, Copy, Debug, PartialEq, Eq, Structural)]
pub enum ConnectionError {
    /// One of the two machines is not in the graph.
    UnknownMachine,
    /// Both ends are the same machine.
    Loopback,
    /// The two machines are connected already.
    Duplicate,
}

/// A subnet before it has addresses: its prefix, if one is chosen, and the
/// machines in it.
#[derive(Debug)]
pub struct AbstractSubnet {
    pub address_prefix: Option<CidrIP>,
    pub connected_vm_idxs: Vec<usize>,
}

/// What the inference of subnets asks of a connection graph.
pub trait VmConnectionLogical: Sized {
    /// Number of machines.
    spec fn machine_count(&self) -> nat;

    /// The machines that `vm` is connected to, in order.
    spec fn connected_to(&self, vm: int) -> Seq<usize>;

    /// Whether the graph can be used.
    spec fn usable(&self) -> bool;

    /// A graph over `vm_num` machines without any edge.
    fn new(vm_num: usize) -> (r: Self)
        ensures
            r.usable(),
            r.machine_count() == vm_num,
            forall|a: int| 0 <= a < vm_num ==> #[trigger] r.connected_to(a) == Seq::<usize>::empty(),
    ;

    /// The machines that `vm_idx` is connected to, in order.
    fn all_connections_for_vm(&self, vm_idx: usize) -> (r: Vec<usize>)
        requires
            vm_idx < self.machine_count(),
        ensures
            r@ == self.connected_to(vm_idx as int),
    ;

    /// Whether an edge leads from `vm_in` to `vm_out`.
    fn connection_exists(&self, vm_in: usize, vm_out: usize) -> (r: bool)
        requires
            vm_in < self.machine_count(),
        ensures
            r == self.connected_to(vm_in as int).contains(vm_out),
    ;

    /// Connects `vm_a` and `vm_b` in both directions. Refuses machines
    /// outside the graph, a machine connected to itself, and a pair that is
    /// connected already; the graph is then left as it was.
    fn add_sym_connection_with_speed(&mut self, vm_a: usize, vm_b: usize, cp: ConnectionProperties) -> (r:
        Result<(), ConnectionError>)
        requires
            old(self).usable(),
        ensures
            final(self).usable(),
            final(self).machine_count() == old(self).machine_count(),
            r is Ok <==> (vm_a < old(self).machine_count() && vm_b < old(self).machine_count()
                && vm_a != vm_b && !old(self).connected_to(vm_a as int).contains(vm_b)),
            forall|v: int|
                0 <= v < old(self).machine_count() ==> #[trigger] final(self).connected_to(v) == (if r
                    is Ok && v == vm_a {
                    old(self).connected_to(v).push(vm_b)
                } else if r is Ok && v == vm_b {
                    old(self).connected_to(v).push(vm_a)
                } else {
                    old(self).connected_to(v)
                }),
    ;

    /// Whether every edge has its mirror image.
    fn is_symmetric(&self) -> (r: bool)
        ensures
            r,
    ;

    /// Number of machines.
    fn vm_count(&self) -> (r: usize)
        ensures
            r == self.machine_count(),
    ;
}

/// A symmetric connection graph over machines `0..vm_count()`.
#[derive(Debug)]
pub struct VmConnectionLogicalV2 {
    connections: Vec<Vec<ConnectionTo>>,
}

/// The machines that the edges of one row lead to, in the row's order.
pub open spec fn row_dests(row: Seq<ConnectionTo>) -> Seq<usize> {
    Seq::new(row.len(), |k: int| row[k].vm_dest)
}

/// The edge `c` seen from its destination, when `c` starts at `from`.
pub open spec fn mirrored(c: ConnectionTo, from: int) -> ConnectionTo {
    ConnectionTo {
        vm_dest: from as usize,
        speed_mbps: c.speed_mbps,
        latency_us: c.latency_us,
        drop_chance_percent_bits: c.drop_chance_percent_bits,
    }
}

/// The `k`-th edge of machine `i` has its mirror image in the row of its
/// destination.
pub open spec fn has_mirror(rows: Seq<Seq<ConnectionTo>>, i: int, k: int) -> bool {
    let c = rows[i][k];
    0 <= c.vm_dest < rows.len() && rows[c.vm_dest as int].contains(mirrored(c, i))
}

impl VmConnectionLogicalV2 {
    /// The edge lists, one per machine.
    pub closed spec fn rows(&self) -> Seq<Seq<ConnectionTo>> {
        Seq::new(self.connections@.len(), |i: int| self.connections@[i]@)
    }

    /// Number of machines.
    pub open spec fn count(&self) -> nat {
        self.rows().len()
    }

    /// The machines that `vm` is connected to, in insertion order.
    pub open spec fn neighbours(&self, vm: int) -> Seq<usize> {
        row_dests(self.rows()[vm])
    }

    /// Whether an edge leads from `a` to `b`.
    pub open spec fn has_edge(&self, a: int, b: int) -> bool {
        0 <= a < self.count() && exists|k: int|
            0 <= k < self.rows()[a].len() && (#[trigger] self.rows()[a][k]).vm_dest == b
    }

    /// Every edge stays inside the graph, no machine is connected to itself,
    /// no row names a machine twice, and each edge has its mirror image with
    /// the same properties.
    pub open spec fn wf(&self) -> bool {
        let rows = self.rows();
        &&& rows.len() <= usize::MAX
        &&& forall|i: int, k: int|
            0 <= i < rows.len() && 0 <= k < rows[i].len() ==> {
                &&& (#[trigger] rows[i][k]).vm_dest < rows.len()
                &&& rows[i][k].vm_dest != i
            }
        &&& forall|i: int, k1: int, k2: int|
            0 <= i < rows.len() && 0 <= k1 < k2 < rows[i].len() ==> (#[trigger] rows[i][k1]).vm_dest
                != (#[trigger] rows[i][k2]).vm_dest
        &&& forall|i: int, k: int|
            0 <= i < rows.len() && 0 <= k < rows[i].len() ==> #[trigger] has_mirror(rows, i, k)
    }

    /// A graph over `vm_num` machines without any edge.
    pub fn new(vm_num: usize) -> (r: Self)
        ensures
            r.wf(),
            r.count() == vm_num,
            forall|a: int, b: int| !r.has_edge(a, b),
            forall|a: int| 0 <= a < vm_num ==> #[trigger] r.neighbours(a) == Seq::<usize>::empty(),
    {
        let mut rows: Vec<Vec<ConnectionTo>> = Vec::new();
        let mut i: usize = 0;
        while i < vm_num
            invariant
                i <= vm_num,
                rows@.len() == i,
                forall|j: int| 0 <= j < i ==> (#[trigger] rows@[j])@.len() == 0,
            decreases vm_num - i,
        {
            rows.push(Vec::new());
            i = i + 1;
        }
        let r = VmConnectionLogicalV2 { connections: rows };
        proof {
            assert forall|a: int| 0 <= a < vm_num implies #[trigger] r.neighbours(a) == Seq::<usize>::empty() by {
                assert(r.neighbours(a) =~= Seq::<usize>::empty());
            }
        }
        r
    }

    /// A graph without edges has empty rows.
    pub proof fn lemma_rows_of_new(&self)
        requires
            forall|a: int| 0 <= a < self.count() ==> #[trigger] self.neighbours(a) == Seq::<
                usize,
            >::empty(),
        ensures
            self.rows() == Seq::new(self.count(), |i: int| Seq::<ConnectionTo>::empty()),
    {
        assert forall|i: int| 0 <= i < self.count() implies #[trigger] self.rows()[i] == Seq::<
            ConnectionTo,
        >::empty() by {
            assert(self.neighbours(i).len() == 0);
            assert(self.rows()[i] =~= Seq::<ConnectionTo>::empty());
        }
        assert(self.rows() =~= Seq::new(self.count(), |i: int| Seq::<ConnectionTo>::empty()));
    }

    /// Number of machines in the graph.
    pub fn vm_count(&self) -> (r: usize)
        ensures
            r == self.count(),
    {
        self.connections.len()
    }

    /// Whether every edge has its mirror image. This structure holds no other
    /// kind of graph.
    pub fn is_symmetric(&self) -> (r: bool)
        ensures
            r,
    {
        true
    }

    /// The machines that `vm_idx` is connected to, in insertion order.
    pub fn all_connections_for_vm(&self, vm_idx: usize) -> (r: Vec<usize>)
        requires
            vm_idx < self.count(),
        ensures
            r@ == self.neighbours(vm_idx as int),
    {
        let row = &self.connections[vm_idx];
        let mut out: Vec<usize> = Vec::new();
        let mut k: usize = 0;
        while k < row.len()
            invariant
                k <= row@.len(),
                vm_idx < self.count(),
                row@ == self.rows()[vm_idx as int],
                out@ == row_dests(row@).subrange(0, k as int),
            decreases row@.len() - k,
        {
            out.push(row[k].vm_dest);
            proof {
                assert(out@ =~= row_dests(row@).subrange(0, k + 1));
            }
            k = k + 1;
        }
        proof {
            assert(out@ =~= row_dests(row@));
        }
        out
    }

    /// Whether an edge leads from `vm_in` to `vm_out`.
    pub fn connection_exists(&self, vm_in: usize, vm_out: usize) -> (r: bool)
        requires
            vm_in < self.count(),
        ensures
            r == self.has_edge(vm_in as int, vm_out as int),
    {
        let row = &self.connections[vm_in];
        let mut k: usize = 0;
        while k < row.len()
            invariant
                k <= row@.len(),
                vm_in < self.count(),
                row@ == self.rows()[vm_in as int],
                forall|j: int| 0 <= j < k ==> row@[j].vm_dest != vm_out,
            decreases row@.len() - k,
        {
            if row[k].vm_dest == vm_out {
                proof {
                    assert(self.rows()[vm_in as int][k as int].vm_dest == vm_out);
                }
                return true;
            }
            k = k + 1;
        }
        false
    }
    /// Appends one directed edge to the row of `from`.
    fn push_edge(&mut self, from: usize, conn: ConnectionTo)
        requires
            from < old(self).count(),
        ensures
            final(self).rows() == old(self).rows().update(
                from as int,
                old(self).rows()[from as int].push(conn),
            ),
    {
        self.connections[from].push(conn);
        proof {
            assert(final(self).rows() =~= old(self).rows().update(
                from as int,
                old(self).rows()[from as int].push(conn),
            ));
        }
    }

    /// Connects `vm_a` and `vm_b` in both directions with the default
    /// properties.
    pub fn add_sym_connection(&mut self, vm_a: usize, vm_b: usize) -> (r: Result<
        (),
        ConnectionError,
    >)
        requires
            old(self).wf(),
        ensures
            final(self).wf(),
            final(self).count() == old(self).count(),
            add_result(*old(self), vm_a, vm_b) == r,
            r is Err ==> final(self).rows() == old(self).rows(),
            r is Ok ==> added(
                *old(self),
                *final(self),
                vm_a,
                vm_b,
                ConnectionProperties {
                    speed_mbps: DEFAULT_CONNECTION_SPEED_MBPS,
                    latency_us: DEFAULT_CONNECTION_LATENCY_US,
                    drop_chance_percent_bits: DEFAULT_CONNECTION_DROP_CHANCE_BITS,
                },
            ),
    {
        self.add_sym_connection_with_speed(
            vm_a,
            vm_b,
            ConnectionProperties {
                speed_mbps: DEFAULT_CONNECTION_SPEED_MBPS,
                latency_us: DEFAULT_CONNECTION_LATENCY_US,
                drop_chance_percent_bits: DEFAULT_CONNECTION_DROP_CHANCE_BITS,
            },
        )
    }

    /// Connects `vm_a` and `vm_b` in both directions with the given
    /// properties. Refuses machines outside the graph, a machine connected to
    /// itself, and a pair that is connected already; the graph is then left
    /// as it was.
    pub fn add_sym_connection_with_speed(
        &mut self,
        vm_a: usize,
        vm_b: usize,
        cp: ConnectionProperties,
    ) -> (r: Result<(), ConnectionError>)
        requires
            old(self).wf(),
        ensures
            final(self).wf(),
            final(self).count() == old(self).count(),
            add_result(*old(self), vm_a, vm_b) == r,
            r is Err ==> final(self).rows() == old(self).rows(),
            r is Ok ==> added(*old(self), *final(self), vm_a, vm_b, cp),
    {
        let n = self.connections.len();
        if vm_a >= n || vm_b >= n {
            return Err(ConnectionError::UnknownMachine);
        }
        if vm_a == vm_b {
            return Err(ConnectionError::Loopback);
        }
        if self.connection_exists(vm_a, vm_b) {
            return Err(ConnectionError::Duplicate);
        }
        let ghost before = *self;
        proof {
            lemma_no_mirror(before, vm_a as int, vm_b as int);
        }
        let to_b = ConnectionTo {
            vm_dest: vm_b,
            speed_mbps: cp.speed_mbps,
            latency_us: cp.latency_us,
            drop_chance_percent_bits: cp.drop_chance_percent_bits,
        };
        let to_a = ConnectionTo {
            vm_dest: vm_a,
            speed_mbps: cp.speed_mbps,
            latency_us: cp.latency_us,
            drop_chance_percent_bits: cp.drop_chance_percent_bits,
        };
        self.push_edge(vm_a, to_b);
        self.push_edge(vm_b, to_a);
        proof {
            lemma_added_wf(before, *self, vm_a, vm_b, cp);
        }
        Ok(())
    }
}

/// What adding an edge between `a` and `b` answers.
pub open spec fn add_result(g: VmConnectionLogicalV2, a: usize, b: usize) -> Result<
    (),
    ConnectionError,
> {
    if a >= g.count() || b >= g.count() {
        Err(ConnectionError::UnknownMachine)
    } else if a == b {
        Err(ConnectionError::Loopback)
    } else if g.has_edge(a as int, b as int) {
        Err(ConnectionError::Duplicate)
    } else {
        Ok(())
    }
}

/// `after` is `before` with one edge appended to the row of `a` and its
/// mirror image appended to the row of `b`.
pub open spec fn added(
    before: VmConnectionLogicalV2,
    after: VmConnectionLogicalV2,
    a: usize,
    b: usize,
    cp: ConnectionProperties,
) -> bool {
    &&& a < before.count()
    &&& b < before.count()
    &&& a != b
    &&& after.rows() == before.rows().update(
        a as int,
        before.rows()[a as int].push(
            ConnectionTo {
                vm_dest: b,
                speed_mbps: cp.speed_mbps,
                latency_us: cp.latency_us,
                drop_chance_percent_bits: cp.drop_chance_percent_bits,
            },
        ),
    ).update(
        b as int,
        before.rows()[b as int].push(
            ConnectionTo {
                vm_dest: a,
                speed_mbps: cp.speed_mbps,
                latency_us: cp.latency_us,
                drop_chance_percent_bits: cp.drop_chance_percent_bits,
            },
        ),
    )
}

/// The neighbours of a machine are the destinations of its edges.
pub proof fn lemma_neighbours(g: VmConnectionLogicalV2, a: int, b: usize)
    requires
        0 <= a < g.count(),
    ensures
        g.neighbours(a).contains(b) == g.has_edge(a, b as int),
{
    let d = g.neighbours(a);
    let row = g.rows()[a];
    if d.contains(b) {
        let k = choose|k: int| 0 <= k < d.len() && d[k] == b;
        assert(row[k].vm_dest == b);
    }
    if g.has_edge(a, b as int) {
        let k = choose|k: int| 0 <= k < row.len() && (#[trigger] row[k]).vm_dest == b;
        assert(d[k] == b);
    }
}

/// In a well-formed graph an edge exists in one direction exactly when it
/// exists in the other.
pub proof fn lemma_no_mirror(g: VmConnectionLogicalV2, a: int, b: int)
    requires
        g.wf(),
    ensures
        g.has_edge(a, b) == g.has_edge(b, a),
{
    if g.has_edge(a, b) {
        lemma_mirror(g, a, b);
    }
    if g.has_edge(b, a) {
        lemma_mirror(g, b, a);
    }
}

/// In a well-formed graph every edge has its mirror image.
pub proof fn lemma_mirror(g: VmConnectionLogicalV2, a: int, b: int)
    requires
        g.wf(),
        g.has_edge(a, b),
    ensures
        g.has_edge(b, a),
        0 <= a < g.count(),
        0 <= b < g.count(),
        a != b,
{
    let rows = g.rows();
    let k = choose|k: int| 0 <= k < rows[a].len() && (#[trigger] rows[a][k]).vm_dest == b;
    assert(has_mirror(rows, a, k));
    let m = mirrored(rows[a][k], a);
    let k2 = choose|k2: int| 0 <= k2 < rows[b].len() && rows[b][k2] == m;
    assert(rows[b][k2].vm_dest == a);
}

/// After one edge and its mirror image were added to a well-formed graph, the
/// graph is well formed and has exactly the old edges and the new pair.
pub proof fn lemma_added_wf(
    before: VmConnectionLogicalV2,
    after: VmConnectionLogicalV2,
    a: usize,
    b: usize,
    cp: ConnectionProperties,
)
    requires
        before.wf(),
        added(before, after, a, b, cp),
        !before.has_edge(a as int, b as int),
    ensures
        after.wf(),
        after.count() == before.count(),
        forall|u: int, v: int|
            after.has_edge(u, v) <==> (before.has_edge(u, v) || (u == a && v == b) || (u == b && v
                == a)),
{
    let r0 = before.rows();
    let r1 = after.rows();
    let to_b = ConnectionTo {
        vm_dest: b,
        speed_mbps: cp.speed_mbps,
        latency_us: cp.latency_us,
        drop_chance_percent_bits: cp.drop_chance_percent_bits,
    };
    let to_a = ConnectionTo {
        vm_dest: a,
        speed_mbps: cp.speed_mbps,
        latency_us: cp.latency_us,
        drop_chance_percent_bits: cp.drop_chance_percent_bits,
    };
    lemma_no_mirror(before, a as int, b as int);
    assert(r1[a as int] == r0[a as int].push(to_b));
    assert(r1[b as int] == r0[b as int].push(to_a));
    assert forall|i: int| 0 <= i < r0.len() && i != a && i != b implies r1[i] == r0[i] by {}
    assert forall|i: int, k: int| 0 <= i < r0.len() && 0 <= k < r0[i].len() implies r1[i][k]
        == r0[i][k] by {}
    assert forall|k: int| 0 <= k < r0[a as int].len() implies (#[trigger] r0[a as int][k]).vm_dest
        != b by {}
    assert forall|k: int| 0 <= k < r0[b as int].len() implies (#[trigger] r0[b as int][k]).vm_dest
        != a by {}
    assert forall|i: int, k: int| 0 <= i < r1.len() && 0 <= k < r1[i].len() implies #[trigger] has_mirror(
        r1,
        i,
        k,
    ) by {
        let want = mirrored(r1[i][k], i);
        if k < r0[i].len() {
            assert(has_mirror(r0, i, k));
            let d = r0[i][k].vm_dest as int;
            let k2 = choose|k2: int| 0 <= k2 < r0[d].len() && r0[d][k2] == want;
            assert(r1[d][k2] == want);
        } else if i == a {
            assert(r1[b as int][r0[b as int].len() as int] == want);
        } else {
            assert(r1[a as int][r0[a as int].len() as int] == want);
        }
    }
    assert(after.wf());
    assert forall|u: int, v: int|
        after.has_edge(u, v) <==> (before.has_edge(u, v) || (u == a && v == b) || (u == b && v
            == a)) by {
        if 0 <= u < r0.len() {
            if before.has_edge(u, v) {
                let k = choose|k: int| 0 <= k < r0[u].len() && (#[trigger] r0[u][k]).vm_dest == v;
                assert(r1[u][k].vm_dest == v);
            }
            if u == a && v == b {
                assert(r1[u][r0[a as int].len() as int].vm_dest == v);
            }
            if u == b && v == a {
                assert(r1[u][r0[b as int].len() as int].vm_dest == v);
            }
            if after.has_edge(u, v) {
                let k = choose|k: int| 0 <= k < r1[u].len() && (#[trigger] r1[u][k]).vm_dest == v;
                if k < r0[u].len() {
                    assert(r0[u][k].vm_dest == v);
                }
            }
        }
    }
}

/// A graph over `vm_num` machines without any edge.
pub fn new_connection_vec(vm_num: usize) -> (r: VmConnectionLogicalV2)
    ensures
        r.wf(),
        r.count() == vm_num,
        forall|a: int, b: int| !r.has_edge(a, b),
        forall|a: int| 0 <= a < vm_num ==> #[trigger] r.neighbours(a) == Seq::<usize>::empty(),
{
    VmConnectionLogicalV2::new(vm_num)
}

impl VmConnectionLogical for VmConnectionLogicalV2 {
    open spec fn machine_count(&self) -> nat {
        self.count()
    }

    open spec fn connected_to(&self, vm: int) -> Seq<usize> {
        self.neighbours(vm)
    }

    open spec fn usable(&self) -> bool {
        self.wf()
    }

    fn new(vm_num: usize) -> (r: Self) {
        VmConnectionLogicalV2::new(vm_num)
    }

    fn all_connections_for_vm(&self, vm_idx: usize) -> (r: Vec<usize>) {
        VmConnectionLogicalV2::all_connections_for_vm(self, vm_idx)
    }

    fn connection_exists(&self, vm_in: usize, vm_out: usize) -> (r: bool) {
        proof {
            lemma_neighbours(*self, vm_in as int, vm_out);
        }
        VmConnectionLogicalV2::connection_exists(self, vm_in, vm_out)
    }

    fn add_sym_connection_with_speed(&mut self, vm_a: usize, vm_b: usize, cp: ConnectionProperties) -> (r:
        Result<(), ConnectionError>) {
        let ghost before = *self;
        proof {
            if vm_a < before.count() {
                lemma_neighbours(before, vm_a as int, vm_b);
            }
        }
        let r = VmConnectionLogicalV2::add_sym_connection_with_speed(self, vm_a, vm_b, cp);
        proof {
            assert forall|v: int| 0 <= v < before.count() implies #[trigger] self.neighbours(v) == (if r
                is Ok && v == vm_a {
                before.neighbours(v).push(vm_b)
            } else if r is Ok && v == vm_b {
                before.neighbours(v).push(vm_a)
            } else {
                before.neighbours(v)
            }) by {
                if r is Ok {
                    if v == vm_a {
                        assert(self.neighbours(v) =~= before.neighbours(v).push(vm_b));
                    } else if v == vm_b {
                        assert(self.neighbours(v) =~= before.neighbours(v).push(vm_a));
                    } else {
                        assert(self.rows()[v] == before.rows()[v]);
                    }
                }
            }
        }
        r
    }

    fn is_symmetric(&self) -> (r: bool) {
        true
    }

    fn vm_count(&self) -> (r: usize) {
        VmConnectionLogicalV2::vm_count(self)
    }
}

} // verus!
