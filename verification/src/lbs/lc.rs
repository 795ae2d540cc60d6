use vstd::prelude::*;

use crate::lbs::LoadBalancer;

verus! {

/// Least-connections strategy: each server carries a counter of in-flight
/// requests; `select_server` picks the server with the strictly smallest
/// counter (ties broken by lowest index) and increments it, and
/// `request_complete` decrements the counter of the named server.
pub struct LeastConn {
    servers: Vec<String>,
    connections: Vec<usize>,
}

/// `i` is the lowest index at which `c` attains its minimum.
pub open spec fn is_first_min(c: Seq<usize>, i: int) -> bool {
    &&& 0 <= i < c.len()
    &&& forall|j: int| 0 <= j < c.len() ==> c[i] <= c[j]
    &&& forall|j: int| 0 <= j < i ==> c[j] > c[i]
}

/// Scan of `c` from position `i` with current candidate `best`, keeping the
/// candidate on ties so the lowest index wins.
pub open spec fn lc_pick_from(c: Seq<usize>, i: int, best: int) -> int
    decreases c.len() - i,
{
    if i < 0 || i >= c.len() {
        best
    } else if c[i] < c[best] {
        lc_pick_from(c, i + 1, i)
    } else {
        lc_pick_from(c, i + 1, best)
    }
}

/// The index `select_server` picks: the first index of the minimal counter.
pub open spec fn lc_pick(c: Seq<usize>) -> int {
    lc_pick_from(c, 1, 0)
}

/// What one `select_server` call does to the counters: the picked counter
/// grows by one, unless the list is empty or the counter is at the machine
/// limit, in which case nothing changes.
pub open spec fn lc_select_step(c: Seq<usize>) -> Seq<usize> {
    if c.len() == 0 {
        c
    } else {
        let i = lc_pick(c);
        if c[i] < usize::MAX {
            c.update(i, (c[i] + 1) as usize)
        } else {
            c
        }
    }
}

/// First index of address `a` in `addrs` at or after `i`, or `-1`.
pub open spec fn find_addr_from(addrs: Seq<Seq<char>>, a: Seq<char>, i: int) -> int
    decreases addrs.len() - i,
{
    if i < 0 || i >= addrs.len() {
        -1
    } else if addrs[i] == a {
        i
    } else {
        find_addr_from(addrs, a, i + 1)
    }
}

/// First index of address `a` in `addrs`, or `-1` if absent.
pub open spec fn find_addr(addrs: Seq<Seq<char>>, a: Seq<char>) -> int {
    find_addr_from(addrs, a, 0)
}

/// What one `request_complete(a)` call does to the counters: the counter of
/// the first server named `a` drops by one; an unknown address or a counter
/// already at zero leaves everything unchanged.
pub open spec fn lc_complete_step(c: Seq<usize>, addrs: Seq<Seq<char>>, a: Seq<char>) -> Seq<
    usize,
> {
    let p = find_addr(addrs, a);
    if 0 <= p < c.len() && c[p] > 0 {
        c.update(p, (c[p] - 1) as usize)
    } else {
        c
    }
}

/// The sum of all per-server counters.
pub open spec fn counter_sum(c: Seq<usize>) -> int
    decreases c.len(),
{
    if c.len() == 0 {
        0
    } else {
        c[0] + counter_sum(c.drop_first())
    }
}

impl LeastConn {
    /// The in-flight counters, one per server, in server order.
    pub closed spec fn counters(&self) -> Seq<usize> {
        self.connections@
    }

    pub fn new(servers: Vec<String>) -> (r: Self)
        ensures
            r.wf(),
            r.addrs() == servers.deep_view(),
            r.counters() =~= Seq::<usize>::new(servers@.len() as nat, |i: int| 0usize),
    {
        let n = servers.len();
        let mut connections: Vec<usize> = Vec::new();
        let mut i: usize = 0;
        while i < n
            invariant
                i <= n,
                connections@.len() == i,
                forall|j: int| 0 <= j < i ==> connections@[j] == 0usize,
            decreases n - i,
        {
            connections.push(0);
            i += 1;
        }
        let r = LeastConn { servers, connections };
        proof {
            assert(r.counters() =~= Seq::<usize>::new(r.addrs().len() as nat, |i: int| 0usize));
        }
        r
    }

    /// Well-formedness means one counter per server: a caller that holds
    /// only `wf` may bound an index for `count_at` by the address count.
    pub proof fn lemma_wf_lengths(&self)
        requires
            self.wf(),
        ensures
            self.counters().len() == self.addrs().len(),
    {
    }

    /// The in-flight counter of the server at index `i`.
    pub fn count_at(&self, i: usize) -> (r: usize)
        requires
            i < self.counters().len(),
        ensures
            r == self.counters()[i as int],
    {
        self.connections[i]
    }
}

impl LoadBalancer for LeastConn {
    closed spec fn addrs(&self) -> Seq<Seq<char>> {
        self.servers.deep_view()
    }

    closed spec fn wf(&self) -> bool {
        self.connections@.len() == self.servers@.len()
    }

    /// A selection succeeds when there is a server and the least counter can
    /// still be incremented.
    closed spec fn can_select(&self) -> bool {
        self.connections@.len() > 0 && self.connections@[lc_pick(self.connections@)]
            < usize::MAX
    }

    /// A selection steps the counters by `lc_select_step` and changes
    /// nothing else.
    closed spec fn selected_to(&self, post: Self) -> bool {
        post.servers == self.servers && post.connections@ == lc_select_step(self.connections@)
    }

    /// A completion steps the counters by `lc_complete_step` and changes
    /// nothing else.
    closed spec fn completed_to(&self, a: Seq<char>, post: Self) -> bool {
        post.servers == self.servers && post.connections@ == lc_complete_step(
            self.connections@,
            self.addrs(),
            a,
        )
    }

    /// Picks the first server with the least in-flight counter and increments
    /// that counter. `None` when the list is empty, or when the picked
    /// counter has reached the machine limit and cannot be incremented.
    fn select_server(&mut self) -> (r: Option<String>)
        ensures
            final(self).counters() == lc_select_step(old(self).counters()),
            old(self).addrs().len() == 0 ==> r is None && *final(self) == *old(self),
            old(self).addrs().len() > 0 ==> ({
                let i = lc_pick(old(self).counters());
                &&& is_first_min(old(self).counters(), i)
                &&& old(self).counters()[i] < usize::MAX ==> (r matches Some(s) && s@ == old(
                    self,
                ).addrs()[i])
                &&& old(self).counters()[i] == usize::MAX ==> r is None && *final(self) == *old(
                    self,
                )
            }),
    {
        if self.servers.is_empty() {
            return None;
        }
        let ghost c = self.connections@;
        let n = self.connections.len();
        let mut best: usize = 0;
        let mut i: usize = 1;
        while i < n
            invariant
                1 <= i <= n,
                best < i,
                n == c.len(),
                self.connections@ == c,
                lc_pick_from(c, i as int, best as int) == lc_pick(c),
            decreases n - i,
        {
            if self.connections[i] < self.connections[best] {
                best = i;
            }
            i += 1;
        }
        proof {
            lemma_lc_pick_first_min(c);
            assert(best as int == lc_pick(c));
        }
        let cur = self.connections[best];
        if cur == usize::MAX {
            return None;
        }
        self.connections.set(best, cur + 1);
        let chosen = self.servers[best].clone();
        proof {
            assert(self.addrs()[best as int] == self.servers@[best as int]@);
        }
        Some(chosen)
    }

    /// Decrements the counter of the first server whose address equals
    /// `server`; a no-op for an unknown address or a counter already at zero.
    fn request_complete(&mut self, server: String)
        ensures
            final(self).counters() == lc_complete_step(
                old(self).counters(),
                old(self).addrs(),
                server@,
            ),
            final(self).addrs() == old(self).addrs(),
    {
        let ghost addrs = self.addrs();
        let ghost a = server@;
        let n = self.servers.len();
        let mut i: usize = 0;
        while i < n
            invariant
                i <= n,
                n == self.servers@.len(),
                self.wf(),
                *self == *old(self),
                addrs == self.addrs(),
                a == server@,
                find_addr(addrs, a) == find_addr_from(addrs, a, i as int),
            decreases n - i,
        {
            proof {
                assert(addrs[i as int] == self.servers@[i as int]@);
            }
            if self.servers[i] == server {
                proof {
                    assert(find_addr(addrs, a) == i as int);
                }
                let v = self.connections[i];
                if v > 0 {
                    self.connections.set(i, v - 1);
                }
                return;
            }
            i += 1;
        }
        proof {
            assert(find_addr(addrs, a) == -1);
        }
    }
}

/// `lc_pick_from` extends a first-minimum of the prefix `[0, i)` to a first
/// minimum of the whole sequence.
proof fn lemma_lc_pick_from_first_min(c: Seq<usize>, i: int, best: int)
    requires
        0 <= best < c.len(),
        best < i,
        forall|j: int| 0 <= j < i && j < c.len() ==> c[best] <= c[j],
        forall|j: int| 0 <= j < best ==> c[j] > c[best],
    ensures
        is_first_min(c, lc_pick_from(c, i, best)),
    decreases c.len() - i,
{
    if i >= c.len() {
    } else if c[i] < c[best] {
        lemma_lc_pick_from_first_min(c, i + 1, i);
    } else {
        lemma_lc_pick_from_first_min(c, i + 1, best);
    }
}

/// The index picked by `select_server` is the lowest index of the minimal
/// counter.
pub proof fn lemma_lc_pick_first_min(c: Seq<usize>)
    requires
        c.len() > 0,
    ensures
        is_first_min(c, lc_pick(c)),
{
    lemma_lc_pick_from_first_min(c, 1, 0);
}

/// Replacing one counter changes the sum by the difference at that index.
pub proof fn lemma_counter_sum_update(c: Seq<usize>, i: int, v: usize)
    requires
        0 <= i < c.len(),
    ensures
        counter_sum(c.update(i, v)) == counter_sum(c) - c[i] + v,
    decreases c.len(),
{
    if i == 0 {
        assert(c.update(0, v).drop_first() =~= c.drop_first());
    } else {
        lemma_counter_sum_update(c.drop_first(), i - 1, v);
        assert(c.update(i, v).drop_first() =~= c.drop_first().update(i - 1, v));
    }
}

/// A single operation against a least-connections balancer: one
/// `select_server` call, or one `request_complete` call with an address.
pub enum LbOp {
    Select,
    Complete(Seq<char>),
}

/// The counters after one operation.
pub open spec fn lc_step(c: Seq<usize>, addrs: Seq<Seq<char>>, op: LbOp) -> Seq<usize> {
    match op {
        LbOp::Select => lc_select_step(c),
        LbOp::Complete(a) => lc_complete_step(c, addrs, a),
    }
}

/// The counters after a whole sequence of operations.
pub open spec fn lc_run(c: Seq<usize>, addrs: Seq<Seq<char>>, ops: Seq<LbOp>) -> Seq<usize>
    decreases ops.len(),
{
    if ops.len() == 0 {
        c
    } else {
        lc_run(lc_step(c, addrs, ops[0]), addrs, ops.drop_first())
    }
}

/// How one operation changes the number of outstanding requests: `1` for a
/// select that acquires a server, `-1` for a complete that releases one, `0`
/// for the operations that change nothing.
pub open spec fn lc_op_delta(c: Seq<usize>, addrs: Seq<Seq<char>>, op: LbOp) -> int {
    match op {
        LbOp::Select => if c.len() > 0 && c[lc_pick(c)] < usize::MAX {
            1
        } else {
            0
        },
        LbOp::Complete(a) => {
            let p = find_addr(addrs, a);
            if 0 <= p < c.len() && c[p] > 0 {
                -1
            } else {
                0
            }
        },
    }
}

/// The number of requests selected but not yet completed over a sequence of
/// operations starting from counters `c`.
pub open spec fn lc_outstanding(c: Seq<usize>, addrs: Seq<Seq<char>>, ops: Seq<LbOp>) -> int
    decreases ops.len(),
{
    if ops.len() == 0 {
        0
    } else {
        lc_op_delta(c, addrs, ops[0]) + lc_outstanding(
            lc_step(c, addrs, ops[0]),
            addrs,
            ops.drop_first(),
        )
    }
}

/// One operation changes the counter sum by exactly its outstanding delta.
proof fn lemma_lc_step_sum(c: Seq<usize>, addrs: Seq<Seq<char>>, op: LbOp)
    ensures
        counter_sum(lc_step(c, addrs, op)) == counter_sum(c) + lc_op_delta(c, addrs, op),
{
    match op {
        LbOp::Select => {
            if c.len() > 0 {
                lemma_lc_pick_first_min(c);
                let i = lc_pick(c);
                if c[i] < usize::MAX {
                    lemma_counter_sum_update(c, i, (c[i] + 1) as usize);
                }
            }
        },
        LbOp::Complete(a) => {
            let p = find_addr(addrs, a);
            if 0 <= p < c.len() && c[p] > 0 {
                lemma_counter_sum_update(c, p, (c[p] - 1) as usize);
            }
        },
    }
}

/// Accounting invariant of the least-connections strategy: over any sequence
/// of selects and completes, the sum of all per-server counters differs from
/// its starting value by exactly the number of outstanding
/// (selected-but-not-completed) requests. In particular, starting from
/// all-zero counters the sum always equals the number of outstanding
/// requests.
pub proof fn lemma_lc_accounting(c: Seq<usize>, addrs: Seq<Seq<char>>, ops: Seq<LbOp>)
    ensures
        counter_sum(lc_run(c, addrs, ops)) == counter_sum(c) + lc_outstanding(c, addrs, ops),
    decreases ops.len(),
{
    if ops.len() > 0 {
        lemma_lc_step_sum(c, addrs, ops[0]);
        lemma_lc_accounting(lc_step(c, addrs, ops[0]), addrs, ops.drop_first());
    }
}

proof fn lemma_counter_sum_zero(n: nat)
    ensures
        counter_sum(Seq::new(n, |i: int| 0usize)) == 0,
    decreases n,
{
    if n > 0 {
        assert(Seq::new(n, |i: int| 0usize).drop_first() =~= Seq::new(
            (n - 1) as nat,
            |i: int| 0usize,
        ));
        lemma_counter_sum_zero((n - 1) as nat);
    }
}

/// On a fresh balancer, whose counters all start at zero, the sum of the
/// per-server counters equals the number of outstanding
/// (selected-but-not-completed) requests after any sequence of selects and
/// completes.
pub proof fn lemma_lc_accounting_from_start(n: nat, addrs: Seq<Seq<char>>, ops: Seq<LbOp>)
    ensures
        counter_sum(lc_run(Seq::new(n, |i: int| 0usize), addrs, ops)) == lc_outstanding(
            Seq::new(n, |i: int| 0usize),
            addrs,
            ops,
        ),
{
    lemma_counter_sum_zero(n);
    lemma_lc_accounting(Seq::new(n, |i: int| 0usize), addrs, ops);
}

/// With distinct addresses, the first occurrence of `addrs[i]` is `i` itself.
proof fn lemma_find_addr_of_distinct(addrs: Seq<Seq<char>>, i: int, k: int)
    requires
        0 <= k <= i < addrs.len(),
        forall|p: int, q: int| 0 <= p < q < addrs.len() ==> addrs[p] != addrs[q],
    ensures
        find_addr_from(addrs, addrs[i], k) == i,
    decreases addrs.len() - k,
{
    if k < i {
        lemma_find_addr_of_distinct(addrs, i, k + 1);
    }
}

/// The connect-failure path of the dispatch core is net-zero on a
/// least-connections balancer: a selection step (`selected_to`) followed by
/// the completion (`completed_to`) of the selected address leaves every
/// counter, and the address list, exactly as before the selection — provided
/// the addresses are distinct.
pub proof fn lemma_failed_connect_restores_counters(
    pre: LeastConn,
    mid: LeastConn,
    post: LeastConn,
)
    requires
        pre.wf(),
        pre.can_select(),
        pre.selected_to(mid),
        mid.completed_to(pre.addrs()[lc_pick(pre.counters())], post),
        forall|p: int, q: int|
            0 <= p < q < pre.addrs().len() ==> pre.addrs()[p] != pre.addrs()[q],
    ensures
        post.counters() == pre.counters(),
        post.addrs() == pre.addrs(),
{
    lemma_select_complete_net_zero(pre.counters(), pre.addrs());
}

/// Releasing what a select acquired restores the counters exactly: when a
/// select picks a server and the connect attempt then fails, the matching
/// `request_complete` brings every counter back to its value before the
/// select, provided the server addresses are distinct.
pub proof fn lemma_select_complete_net_zero(c: Seq<usize>, addrs: Seq<Seq<char>>)
    requires
        c.len() == addrs.len(),
        c.len() > 0,
        c[lc_pick(c)] < usize::MAX,
        forall|p: int, q: int| 0 <= p < q < addrs.len() ==> addrs[p] != addrs[q],
    ensures
        lc_complete_step(lc_select_step(c), addrs, addrs[lc_pick(c)]) == c,
{
    lemma_lc_pick_first_min(c);
    let i = lc_pick(c);
    lemma_find_addr_of_distinct(addrs, i, 0);
    let c1 = c.update(i, (c[i] + 1) as usize);
    assert(c1[i] > 0);
    assert(c1.update(i, (c1[i] - 1) as usize) =~= c);
}

} // verus!
