use vstd::prelude::*;

use crate::errors::ArtError;
use crate::expression::{eq_except_edges, Expression};
use crate::table::Table;
use crate::types::ArtResult;

verus! {

/// A dependency: the expression `to` consumes what `from` produces, so
/// `from` must run first.
#[derive(Clone, Copy, Debug, PartialEq, Eq, Structural)]
pub struct Edge {
    pub from: u32,
    pub to: u32,
}

/// The transient dependency graph between expressions, rebuilt by the
/// host's edge commands and discarded every block.
pub struct Graph {
    edges: Vec<Edge>,
    max_edges: u32,
}

/// How many edges lead into `to` from sources not yet scheduled.
pub open spec fn pending_edges(edges: Seq<Edge>, scheduled: Seq<u32>, to: u32) -> int
    decreases edges.len(),
{
    if edges.len() == 0 {
        0
    } else {
        pending_edges(edges.drop_last(), scheduled, to) + if edges.last().to == to
            && !scheduled.contains(edges.last().from) {
            1int
        } else {
            0int
        }
    }
}

/// How many edges lead from `from` into `to`.
pub open spec fn edges_between(edges: Seq<Edge>, from: u32, to: u32) -> int
    decreases edges.len(),
{
    if edges.len() == 0 {
        0
    } else {
        edges_between(edges.drop_last(), from, to) + if edges.last().from == from
            && edges.last().to == to {
            1int
        } else {
            0int
        }
    }
}

proof fn lemma_pending_nonneg(edges: Seq<Edge>, scheduled: Seq<u32>, to: u32)
    ensures
        0 <= pending_edges(edges, scheduled, to) <= edges.len(),
    decreases edges.len(),
{
    if edges.len() > 0 {
        lemma_pending_nonneg(edges.drop_last(), scheduled, to);
    }
}

proof fn lemma_between_nonneg(edges: Seq<Edge>, from: u32, to: u32)
    ensures
        0 <= edges_between(edges, from, to) <= edges.len(),
    decreases edges.len(),
{
    if edges.len() > 0 {
        lemma_between_nonneg(edges.drop_last(), from, to);
    }
}

proof fn lemma_pending_take_step(edges: Seq<Edge>, scheduled: Seq<u32>, to: u32, k: int)
    requires
        0 <= k < edges.len(),
    ensures
        pending_edges(edges.take(k + 1), scheduled, to) == pending_edges(
            edges.take(k),
            scheduled,
            to,
        ) + if edges[k].to == to && !scheduled.contains(edges[k].from) {
            1int
        } else {
            0int
        },
{
    assert(edges.take(k + 1).drop_last() =~= edges.take(k));
    assert(edges.take(k + 1).last() == edges[k]);
}

proof fn lemma_between_take_step(edges: Seq<Edge>, from: u32, to: u32, k: int)
    requires
        0 <= k < edges.len(),
    ensures
        edges_between(edges.take(k + 1), from, to) == edges_between(edges.take(k), from, to)
            + if edges[k].from == from && edges[k].to == to {
            1int
        } else {
            0int
        },
{
    assert(edges.take(k + 1).drop_last() =~= edges.take(k));
    assert(edges.take(k + 1).last() == edges[k]);
}

proof fn lemma_between_take_le(edges: Seq<Edge>, from: u32, to: u32, k: int)
    requires
        0 <= k <= edges.len(),
    ensures
        edges_between(edges.take(k), from, to) <= edges_between(edges, from, to),
    decreases edges.len(),
{
    if k == edges.len() {
        assert(edges.take(k) =~= edges);
    } else {
        assert(edges.take(k) =~= edges.drop_last().take(k));
        lemma_between_take_le(edges.drop_last(), from, to, k);
    }
}

proof fn lemma_between_le_pending(edges: Seq<Edge>, scheduled: Seq<u32>, from: u32, to: u32)
    requires
        !scheduled.contains(from),
    ensures
        edges_between(edges, from, to) <= pending_edges(edges, scheduled, to),
    decreases edges.len(),
{
    if edges.len() > 0 {
        lemma_between_le_pending(edges.drop_last(), scheduled, from, to);
    }
}

proof fn lemma_contains_push(scheduled: Seq<u32>, x: u32, f: u32)
    ensures
        scheduled.push(x).contains(f) <==> (scheduled.contains(f) || f == x),
{
    if scheduled.contains(f) {
        let w = choose|w: int| 0 <= w < scheduled.len() && scheduled[w] == f;
        assert(scheduled.push(x)[w] == f);
    }
    if f == x {
        assert(scheduled.push(x)[scheduled.len() as int] == f);
    }
    if scheduled.push(x).contains(f) {
        let w = choose|w: int| 0 <= w < scheduled.push(x).len() && scheduled.push(x)[w] == f;
        if w < scheduled.len() {
            assert(scheduled[w] == f);
        }
    }
}

/// Scheduling a source removes exactly its edges from every target's
/// pending count.
proof fn lemma_pending_push(edges: Seq<Edge>, scheduled: Seq<u32>, x: u32, to: u32)
    requires
        !scheduled.contains(x),
    ensures
        pending_edges(edges, scheduled.push(x), to) == pending_edges(edges, scheduled, to)
            - edges_between(edges, x, to),
    decreases edges.len(),
{
    if edges.len() > 0 {
        lemma_pending_push(edges.drop_last(), scheduled, x, to);
        lemma_contains_push(scheduled, x, edges.last().from);
    }
}

/// A target with no pending edges has every incoming source scheduled.
proof fn lemma_zero_pending(edges: Seq<Edge>, scheduled: Seq<u32>, to: u32)
    requires
        pending_edges(edges, scheduled, to) == 0,
    ensures
        forall|j: int|
            0 <= j < edges.len() && (#[trigger] edges[j]).to == to ==> scheduled.contains(
                edges[j].from,
            ),
    decreases edges.len(),
{
    if edges.len() > 0 {
        lemma_pending_nonneg(edges.drop_last(), scheduled, to);
        lemma_zero_pending(edges.drop_last(), scheduled, to);
        assert forall|j: int|
            0 <= j < edges.len() && (#[trigger] edges[j]).to == to implies scheduled.contains(
            edges[j].from,
        ) by {
            if j < edges.len() - 1 {
                assert(edges.drop_last()[j] == edges[j]);
            }
        }
    }
}

/// The edge that links a cycle member to the next one, wrapping around.
pub open spec fn cycle_step(cyc: Seq<u32>, k: int) -> Edge {
    Edge {
        from: cyc[k],
        to: cyc[
            if k + 1 == cyc.len() {
                0int
            } else {
                k + 1
            }
        ],
    }
}

/// No member of a dependency cycle is ever scheduled: in any order that
/// respects every edge — such as the prefix [`Graph::topological_sort`]
/// produces — none of the first `scheduled` nodes belongs to the cycle.
pub proof fn lemma_cycle_unscheduled(
    edges: Seq<Edge>,
    nodes: Seq<u32>,
    scheduled: int,
    cyc: Seq<u32>,
)
    requires
        0 <= scheduled <= nodes.len(),
        forall|e: Edge, j: int|
            #![trigger edges.contains(e), nodes[j]]
            edges.contains(e) && 0 <= j < scheduled && nodes[j] == e.to ==> exists|i: int|
                0 <= i < j && nodes[i] == e.from,
        cyc.len() > 0,
        forall|k: int| 0 <= k < cyc.len() ==> #[trigger] edges.contains(cycle_step(cyc, k)),
    ensures
        forall|j: int| 0 <= j < scheduled ==> !cyc.contains(#[trigger] nodes[j]),
{
    assert forall|j: int| 0 <= j < scheduled implies !cyc.contains(#[trigger] nodes[j]) by {
        lemma_cycle_member_not_at(edges, nodes, scheduled, cyc, j);
    }
}

proof fn lemma_cycle_member_not_at(
    edges: Seq<Edge>,
    nodes: Seq<u32>,
    scheduled: int,
    cyc: Seq<u32>,
    j: int,
)
    requires
        0 <= j < scheduled <= nodes.len(),
        forall|e: Edge, j2: int|
            #![trigger edges.contains(e), nodes[j2]]
            edges.contains(e) && 0 <= j2 < scheduled && nodes[j2] == e.to ==> exists|i: int|
                0 <= i < j2 && nodes[i] == e.from,
        cyc.len() > 0,
        forall|k: int| 0 <= k < cyc.len() ==> #[trigger] edges.contains(cycle_step(cyc, k)),
    ensures
        !cyc.contains(nodes[j]),
    decreases j,
{
    if cyc.contains(nodes[j]) {
        let k = choose|k: int| 0 <= k < cyc.len() && cyc[k] == nodes[j];
        let kp: int = if k == 0 {
            cyc.len() - 1
        } else {
            k - 1
        };
        let e = Edge { from: cyc[kp], to: cyc[k] };
        assert(edges.contains(e)) by {
            assert(edges.contains(cycle_step(cyc, kp)));
            assert(cycle_step(cyc, kp) == e);
        }
        assert(nodes[j] == e.to);
        let i = choose|i: int| 0 <= i < j && nodes[i] == e.from;
        lemma_cycle_member_not_at(edges, nodes, scheduled, cyc, i);
        assert(cyc.contains(cyc[kp]));
    }
}

/// The counters of `b` match `pending_edges` over `edges` and `scheduled`,
/// and `b` differs from `a` in nothing else.
pub open spec fn counters_match(
    a: Table<Expression>,
    b: Table<Expression>,
    edges: Seq<Edge>,
    scheduled: Seq<u32>,
) -> bool {
    &&& b.wf()
    &&& b.spec_capacity() == a.spec_capacity()
    &&& b.keys() == a.keys()
    &&& b@.dom() == a@.dom()
    &&& forall|q: u128|
        b@.dom().contains(q) ==> eq_except_edges(#[trigger] b@[q], a@[q])
    &&& forall|q: u128|
        b@.dom().contains(q) ==> (#[trigger] b@[q]).incoming_edges == pending_edges(
            edges,
            scheduled,
            q as u32,
        )
}

impl Graph {
    /// The edges declared so far, in arrival order.
    pub closed spec fn view(&self) -> Seq<Edge> {
        self.edges@
    }

    /// The fixed edge capacity.
    pub closed spec fn spec_capacity(&self) -> int {
        self.max_edges as int
    }

    /// No more edges than the capacity.
    pub closed spec fn wf(&self) -> bool {
        self.edges@.len() <= self.max_edges
    }

    /// A graph that can hold no edges at all.
    pub fn new() -> (r: Graph)
        ensures
            r.wf(),
            r@ == Seq::<Edge>::empty(),
            r.spec_capacity() == 0,
    {
        Graph { edges: Vec::new(), max_edges: 0 }
    }

    /// A graph that can hold at most `edge_capacity` edges.
    pub fn with_capacity(edge_capacity: u32) -> (r: Graph)
        ensures
            r.wf(),
            r@ == Seq::<Edge>::empty(),
            r.spec_capacity() == edge_capacity,
    {
        Graph { edges: Vec::new(), max_edges: edge_capacity }
    }

    /// Declare that `to` depends on `from`. Fails closed with
    /// `BufferOverflow` exactly when the edge store is full.
    pub fn add_edge(&mut self, from: u32, to: u32) -> (r: ArtResult<()>)
        requires
            old(self).wf(),
        ensures
            final(self).wf(),
            final(self).spec_capacity() == old(self).spec_capacity(),
            match r {
                Ok(()) => {
                    &&& old(self)@.len() < old(self).spec_capacity()
                    &&& final(self)@ == old(self)@.push(Edge { from, to })
                },
                Err(e) => {
                    &&& e == ArtError::BufferOverflow
                    &&& old(self)@.len() == old(self).spec_capacity()
                    &&& *final(self) == *old(self)
                },
            },
    {
        if self.edges.len() >= self.max_edges as usize {
            return Err(ArtError::BufferOverflow);
        }
        self.edges.push(Edge { from, to });
        Ok(())
    }

    /// Forget every edge; the capacity stays.
    pub fn clear(&mut self)
        ensures
            final(self).wf(),
            final(self)@ == Seq::<Edge>::empty(),
            final(self).spec_capacity() == old(self).spec_capacity(),
    {
        self.edges.clear();
    }

    /// Clear every scheduling counter.
    fn reset_counters(expressions: &mut Table<Expression>, nodes: &Vec<u32>)
        requires
            old(expressions).wf(),
            nodes@.len() == old(expressions).keys().len(),
            forall|i: int|
                0 <= i < nodes@.len() ==> (#[trigger] nodes@[i]) as u128 == old(
                    expressions,
                ).keys()[i],
        ensures
            counters_match(*old(expressions), *final(expressions), Seq::<Edge>::empty(), Seq::<u32>::empty()),
    {
        let ghost old_exprs = *expressions;
        proof {
            expressions.lemma_dom();
            assert forall|i: int| 0 <= i < nodes@.len() implies expressions@.dom().contains(
                (#[trigger] nodes@[i]) as u128,
            ) by {
                assert(expressions.keys().contains(nodes@[i] as u128));
            }
        }
        let n = nodes.len();
        let mut p: usize = 0;
        while p < n
            invariant
                n == nodes@.len(),
                p <= n,
                n == old_exprs.keys().len(),
                forall|i: int|
                    0 <= i < nodes@.len() ==> (#[trigger] nodes@[i]) as u128
                        == old_exprs.keys()[i],
                expressions.wf(),
                expressions.spec_capacity() == old_exprs.spec_capacity(),
                expressions.keys() == old_exprs.keys(),
                expressions@.dom() == old_exprs@.dom(),
                forall|i: int|
                    0 <= i < nodes@.len() ==> expressions@.dom().contains(
                        (#[trigger] nodes@[i]) as u128,
                    ),
                forall|q: u128|
                    expressions@.dom().contains(q) ==> eq_except_edges(
                        #[trigger] expressions@[q],
                        old_exprs@[q],
                    ),
                forall|j: int|
                    0 <= j < p ==> (#[trigger] expressions@[nodes@[j] as u128]).incoming_edges
                        == 0,
            decreases n - p,
        {
            let key = nodes[p] as u128;
            let mut e = match expressions.get(key) {
                Some(e) => e,
                None => {
                    proof {
                        assert(false);
                    }
                    Expression::new(0, 0, 0)
                },
            };
            e.incoming_edges = 0;
            let r = expressions.insert(key, e);
            proof {
                assert(r is Ok);
                assert forall|j: int|
                    0 <= j <= p implies (
                #[trigger] expressions@[nodes@[j] as u128]).incoming_edges == 0 by {}
            }
            p = p + 1;
        }
        proof {
            expressions.lemma_dom();
            assert forall|q: u128| expressions@.dom().contains(q) implies (
            #[trigger] expressions@[q]).incoming_edges == pending_edges(
                Seq::<Edge>::empty(),
                Seq::<u32>::empty(),
                q as u32,
            ) by {
                let i = choose|i: int| 0 <= i < old_exprs.keys().len() && old_exprs.keys()[i] == q;
                assert(nodes@[i] as u128 == q);
            }
        }
    }

    /// Count every edge into its target's scheduling counter.
    fn count_edges(&self, expressions: &mut Table<Expression>)
        requires
            self.wf(),
            old(expressions).wf(),
            forall|q: u128|
                old(expressions)@.dom().contains(q) ==> (#[trigger] old(
                    expressions,
                )@[q]).incoming_edges == 0,
            forall|q: u128| old(expressions)@.dom().contains(q) ==> q < 0x1_0000_0000,
        ensures
            counters_match(*old(expressions), *final(expressions), self@, Seq::<u32>::empty()),
    {
        let ghost old_exprs = *expressions;
        let ghost empty_sched = Seq::<u32>::empty();
        proof {
            assert forall|q: u128| expressions@.dom().contains(q) implies (
            #[trigger] expressions@[q]).incoming_edges == pending_edges(
                self@.take(0),
                empty_sched,
                q as u32,
            ) by {
                assert(self@.take(0) =~= Seq::<Edge>::empty());
            }
        }
        let ecount = self.edges.len();
        let mut k: usize = 0;
        while k < ecount
            invariant
                self.wf(),
                ecount == self@.len(),
                k <= ecount,
                empty_sched == Seq::<u32>::empty(),
                expressions.wf(),
                expressions.spec_capacity() == old_exprs.spec_capacity(),
                expressions.keys() == old_exprs.keys(),
                expressions@.dom() == old_exprs@.dom(),
                forall|q: u128|
                    expressions@.dom().contains(q) ==> eq_except_edges(
                        #[trigger] expressions@[q],
                        old_exprs@[q],
                    ),
                forall|q: u128|
                    expressions@.dom().contains(q) ==> (#[trigger] expressions@[q]).incoming_edges
                        == pending_edges(self@.take(k as int), empty_sched, q as u32),
                forall|q: u128| expressions@.dom().contains(q) ==> q < 0x1_0000_0000,
            decreases ecount - k,
        {
            let edge = self.edges[k];
            let key = edge.to as u128;
            let ghost pre = *expressions;
            match expressions.get(key) {
                Some(mut e) => {
                    proof {
                        lemma_pending_nonneg(self@.take(k as int), empty_sched, edge.to);
                        assert(self@.take(k as int).len() == k);
                        assert(expressions@.dom().contains(key));
                        assert(e.incoming_edges == pending_edges(
                            self@.take(k as int),
                            empty_sched,
                            key as u32,
                        ));
                    }
                    e.incoming_edges = e.incoming_edges + 1;
                    let r = expressions.insert(key, e);
                    proof {
                        assert(r is Ok);
                        assert forall|q: u128| expressions@.dom().contains(q) implies (
                        #[trigger] expressions@[q]).incoming_edges == pending_edges(
                            self@.take(k as int + 1),
                            empty_sched,
                            q as u32,
                        ) by {
                            lemma_pending_take_step(self@, empty_sched, q as u32, k as int);
                            assert(self@[k as int] == edge);
                            assert(!empty_sched.contains(self@[k as int].from));
                            if q == key {
                                assert((edge.to as u128) as u32 == edge.to);
                                assert(q as u32 == edge.to);
                                assert(expressions@[q].incoming_edges == pre@[q].incoming_edges
                                    + 1);
                                assert(pre@[q].incoming_edges == pending_edges(
                                    self@.take(k as int),
                                    empty_sched,
                                    q as u32,
                                ));
                                assert(self@[k as int].to == q as u32);
                                assert(pending_edges(self@.take(k as int + 1), empty_sched, q as u32)
                                    == pending_edges(self@.take(k as int), empty_sched, q as u32)
                                    + 1);
                            } else {
                                assert(expressions@[q] == pre@[q]);
                                assert(q < 0x1_0000_0000);
                                assert(self@[k as int].to != q as u32);
                                assert(pending_edges(self@.take(k as int + 1), empty_sched, q as u32)
                                    == pending_edges(self@.take(k as int), empty_sched, q as u32));
                            }
                        }
                    }
                },
                None => {
                    proof {
                        assert forall|q: u128| expressions@.dom().contains(q) implies (
                        #[trigger] expressions@[q]).incoming_edges == pending_edges(
                            self@.take(k as int + 1),
                            empty_sched,
                            q as u32,
                        ) by {
                            lemma_pending_take_step(self@, empty_sched, q as u32, k as int);
                            assert(q != key);
                            assert(self@[k as int].to != q as u32);
                        }
                    }
                },
            }
            k = k + 1;
        }
        proof {
            assert(self@.take(ecount as int) =~= self@);
        }
    }

    /// Subtract the scheduled node `x`'s outgoing edges from every
    /// target's counter.
    fn release_edges(
        &self,
        expressions: &mut Table<Expression>,
        x: u32,
        Ghost(sched): Ghost<Seq<u32>>,
    )
        requires
            self.wf(),
            old(expressions).wf(),
            !sched.contains(x),
            counters_match(*old(expressions), *old(expressions), self@, sched),
            forall|q: u128| old(expressions)@.dom().contains(q) ==> q < 0x1_0000_0000,
        ensures
            counters_match(*old(expressions), *final(expressions), self@, sched.push(x)),
    {
        let ghost old_exprs = *expressions;
        proof {
            assert forall|q: u128| expressions@.dom().contains(q) implies (
            #[trigger] expressions@[q]).incoming_edges == pending_edges(self@, sched, q as u32)
                - edges_between(self@.take(0), x, q as u32) by {}
        }
        let ecount = self.edges.len();
        let mut k: usize = 0;
        while k < ecount
            invariant
                self.wf(),
                ecount == self@.len(),
                k <= ecount,
                !sched.contains(x),
                expressions.wf(),
                expressions.spec_capacity() == old_exprs.spec_capacity(),
                expressions.keys() == old_exprs.keys(),
                expressions@.dom() == old_exprs@.dom(),
                forall|q: u128|
                    expressions@.dom().contains(q) ==> eq_except_edges(
                        #[trigger] expressions@[q],
                        old_exprs@[q],
                    ),
                forall|q: u128|
                    expressions@.dom().contains(q) ==> (#[trigger] expressions@[q]).incoming_edges
                        == pending_edges(self@, sched, q as u32) - edges_between(
                        self@.take(k as int),
                        x,
                        q as u32,
                    ),
                forall|q: u128| expressions@.dom().contains(q) ==> q < 0x1_0000_0000,
            decreases ecount - k,
        {
            let edge = self.edges[k];
            let ghost pre = *expressions;
            if edge.from == x {
                let key = edge.to as u128;
                match expressions.get(key) {
                    Some(mut e) => {
                        proof {
                            lemma_between_take_step(self@, x, edge.to, k as int);
                            lemma_between_take_le(self@, x, edge.to, k as int + 1);
                            lemma_between_le_pending(self@, sched, x, edge.to);
                            lemma_between_nonneg(self@.take(k as int), x, edge.to);
                        }
                        e.incoming_edges = e.incoming_edges - 1;
                        let r = expressions.insert(key, e);
                        proof {
                            assert(r is Ok);
                            assert forall|q: u128| expressions@.dom().contains(q) implies (
                            #[trigger] expressions@[q]).incoming_edges == pending_edges(
                                self@,
                                sched,
                                q as u32,
                            ) - edges_between(self@.take(k as int + 1), x, q as u32) by {
                                lemma_between_take_step(self@, x, q as u32, k as int);
                                if q == key {
                                    assert(expressions@[q].incoming_edges
                                        == pre@[q].incoming_edges - 1);
                                    assert(self@[k as int].to == q as u32);
                                } else {
                                    assert(expressions@[q] == pre@[q]);
                                    assert(self@[k as int].to != q as u32);
                                }
                            }
                        }
                    },
                    None => {
                        proof {
                            assert forall|q: u128| expressions@.dom().contains(q) implies (
                            #[trigger] expressions@[q]).incoming_edges == pending_edges(
                                self@,
                                sched,
                                q as u32,
                            ) - edges_between(self@.take(k as int + 1), x, q as u32) by {
                                lemma_between_take_step(self@, x, q as u32, k as int);
                                assert(q != key);
                                assert(self@[k as int].to != q as u32);
                            }
                        }
                    },
                }
            } else {
                proof {
                    assert forall|q: u128| expressions@.dom().contains(q) implies (
                    #[trigger] expressions@[q]).incoming_edges == pending_edges(
                        self@,
                        sched,
                        q as u32,
                    ) - edges_between(self@.take(k as int + 1), x, q as u32) by {
                        lemma_between_take_step(self@, x, q as u32, k as int);
                        assert(self@[k as int].from != x);
                    }
                }
            }
            k = k + 1;
        }
        proof {
            assert(self@.take(ecount as int) =~= self@);
            assert forall|q: u128| expressions@.dom().contains(q) implies (
            #[trigger] expressions@[q]).incoming_edges == pending_edges(
                self@,
                sched.push(x),
                q as u32,
            ) by {
                lemma_pending_push(self@, sched, x, q as u32);
            }
        }
    }

    /// Find, at or after `start`, a node whose expression has no pending
    /// edges.
    pub fn find_zero_order(
        expressions: &Table<Expression>,
        nodes: &Vec<u32>,
        start: usize,
    ) -> (r: Option<usize>)
        requires
            expressions.wf(),
            start <= nodes@.len(),
            forall|i: int|
                0 <= i < nodes@.len() ==> expressions@.dom().contains(
                    (#[trigger] nodes@[i]) as u128,
                ),
        ensures
            match r {
                Some(i) => {
                    &&& start <= i < nodes@.len()
                    &&& expressions@[nodes@[i as int] as u128].incoming_edges == 0
                    &&& forall|j: int|
                        start <= j < i ==> expressions@[(#[trigger] nodes@[j])
                            as u128].incoming_edges != 0
                },
                None => forall|j: int|
                    start <= j < nodes@.len() ==> expressions@[(#[trigger] nodes@[j])
                        as u128].incoming_edges != 0,
            },
    {
        let n = nodes.len();
        let mut idx = start;
        while idx < n
            invariant
                start <= idx <= n,
                n == nodes@.len(),
                expressions.wf(),
                forall|i: int|
                    0 <= i < nodes@.len() ==> expressions@.dom().contains(
                        (#[trigger] nodes@[i]) as u128,
                    ),
                forall|j: int|
                    start <= j < idx ==> expressions@[(#[trigger] nodes@[j])
                        as u128].incoming_edges != 0,
            decreases n - idx,
        {
            let e = match expressions.get(nodes[idx] as u128) {
                Some(e) => e,
                None => {
                    proof {
                        assert(false);
                    }
                    Expression::new(0, 0, 0)
                },
            };
            if e.incoming_edges == 0 {
                return Some(idx);
            }
            idx = idx + 1;
        }
        None
    }

    /// Order `nodes` so that every scheduled edge's source precedes its
    /// target, in place, and return how many nodes were scheduled.
    ///
    /// The first `scheduled` entries of `nodes` respect every edge. The
    /// rest — the members of dependency cycles, and whatever depends on
    /// them — stay unscheduled, and the caller runs none of them this
    /// block. Every expression's scheduling counter is rebuilt from the
    /// edge list; nothing else in the table changes.
    pub fn topological_sort(
        &self,
        expressions: &mut Table<Expression>,
        nodes: &mut Vec<u32>,
    ) -> (scheduled: usize)
        requires
            self.wf(),
            old(expressions).wf(),
            old(nodes)@.len() == old(expressions).keys().len(),
            forall|i: int|
                0 <= i < old(nodes)@.len() ==> (#[trigger] old(nodes)@[i]) as u128 == old(
                    expressions,
                ).keys()[i],
        ensures
            final(expressions).wf(),
            final(expressions).spec_capacity() == old(expressions).spec_capacity(),
            final(expressions).keys() == old(expressions).keys(),
            final(expressions)@.dom() == old(expressions)@.dom(),
            forall|k: u128|
                final(expressions)@.dom().contains(k) ==> eq_except_edges(
                    #[trigger] final(expressions)@[k],
                    old(expressions)@[k],
                ),
            final(nodes)@.len() == old(nodes)@.len(),
            final(nodes)@.no_duplicates(),
            forall|x: u32| final(nodes)@.contains(x) <==> old(nodes)@.contains(x),
            scheduled <= final(nodes)@.len(),
            forall|e: Edge, j: int|
                #![trigger self@.contains(e), final(nodes)@[j]]
                self@.contains(e) && 0 <= j < scheduled && final(nodes)@[j] == e.to
                    ==> exists|i: int| 0 <= i < j && final(nodes)@[i] == e.from,
            // Maximality: whatever stays unscheduled still waits on an
            // unscheduled source — only cycle members and their dependents
            // are ever left out, so an acyclic edge set is ordered whole.
            forall|j: int|
                scheduled <= j < final(nodes)@.len() ==> pending_edges(
                    self@,
                    final(nodes)@.take(scheduled as int),
                    #[trigger] final(nodes)@[j],
                ) != 0,
            // With no edges the order is left exactly as given.
            self@.len() == 0 ==> final(nodes)@ == old(nodes)@ && scheduled == final(nodes)@.len(),
    {
        let ghost old_nodes = nodes@;
        let ghost old_exprs = *expressions;
        proof {
            expressions.lemma_dom();
            assert forall|i: int| 0 <= i < nodes@.len() implies expressions@.dom().contains(
                (#[trigger] nodes@[i]) as u128,
            ) by {
                assert(expressions.keys().contains(nodes@[i] as u128));
            }
            expressions.lemma_keys_unique();
            assert(nodes@.no_duplicates()) by {
                assert forall|i: int, j: int|
                    0 <= i < nodes@.len() && 0 <= j < nodes@.len() && i != j implies nodes@[i]
                    != nodes@[j] by {
                    if i < j {
                        assert(old_exprs.keys()[i] != old_exprs.keys()[j]);
                    } else {
                        assert(old_exprs.keys()[j] != old_exprs.keys()[i]);
                    }
                }
            }
            assert forall|q: u128| expressions@.dom().contains(q) implies q < 0x1_0000_0000 by {
                let i = choose|i: int| 0 <= i < old_exprs.keys().len() && old_exprs.keys()[i] == q;
                assert(nodes@[i] as u128 == q);
            }
        }
        Self::reset_counters(expressions, nodes);
        self.count_edges(expressions);
        proof {
            assert(nodes@.take(0) =~= Seq::<u32>::empty());
        }
        let n = nodes.len();
        let mut start: usize = 0;
        while start < n
            invariant
                self.wf(),
                old_exprs == *old(expressions),
                old_nodes == old(nodes)@,
                n == nodes@.len(),
                start <= n,
                expressions.wf(),
                expressions.spec_capacity() == old_exprs.spec_capacity(),
                expressions.keys() == old_exprs.keys(),
                expressions@.dom() == old_exprs@.dom(),
                nodes@.len() == old_nodes.len(),
                nodes@.no_duplicates(),
                forall|x: u32| nodes@.contains(x) <==> old_nodes.contains(x),
                forall|i: int|
                    0 <= i < nodes@.len() ==> expressions@.dom().contains(
                        (#[trigger] nodes@[i]) as u128,
                    ),
                forall|q: u128|
                    expressions@.dom().contains(q) ==> eq_except_edges(
                        #[trigger] expressions@[q],
                        old_exprs@[q],
                    ),
                forall|q: u128|
                    expressions@.dom().contains(q) ==> (#[trigger] expressions@[q]).incoming_edges
                        == pending_edges(self@, nodes@.take(start as int), q as u32),
                forall|q: u128| expressions@.dom().contains(q) ==> q < 0x1_0000_0000,
                forall|e: Edge, j: int|
                    #![trigger self@.contains(e), nodes@[j]]
                    self@.contains(e) && 0 <= j < start && nodes@[j] == e.to
                        ==> exists|i: int| 0 <= i < j && nodes@[i] == e.from,
                self@.len() == 0 ==> nodes@ == old_nodes,
            decreases n - start,
        {
            let found = match Self::find_zero_order(expressions, nodes, start) {
                Some(found) => found,
                None => {
                    proof {
                        // An empty edge set pends nothing, so a zero-order
                        // node always exists while any remain.
                        if self@.len() == 0 {
                            assert(expressions@[(nodes@[start as int])
                                as u128].incoming_edges == 0);
                        }
                    }
                    return start;
                },
            };
            proof {
                if self@.len() == 0 {
                    // Every counter is zero, so the scan stops where it
                    // began and the swap below changes nothing.
                    if found > start {
                        assert(expressions@[(nodes@[start as int])
                            as u128].incoming_edges != 0);
                    }
                    assert(found == start);
                }
            }
            let x = nodes[found];
            let y = nodes[start];
            let ghost before_swap = nodes@;
            nodes.set(start, x);
            nodes.set(found, y);
            proof {
                assert forall|z: u32| nodes@.contains(z) implies before_swap.contains(z) by {
                    let w = choose|w: int| 0 <= w < nodes@.len() && nodes@[w] == z;
                    if w == start as int {
                        assert(before_swap[found as int] == z);
                    } else if w == found as int {
                        assert(before_swap[start as int] == z);
                    } else {
                        assert(before_swap[w] == z);
                    }
                }
                assert forall|z: u32| before_swap.contains(z) implies nodes@.contains(z) by {
                    let w = choose|w: int| 0 <= w < before_swap.len() && before_swap[w] == z;
                    if w == start as int {
                        assert(nodes@[found as int] == z);
                    } else if w == found as int {
                        assert(nodes@[start as int] == z);
                    } else {
                        assert(nodes@[w] == z);
                    }
                }
                assert(nodes@.no_duplicates()) by {
                    assert forall|a: int, b: int|
                        0 <= a < nodes@.len() && 0 <= b < nodes@.len() && a != b implies nodes@[a]
                        != nodes@[b] by {
                        let a0: int = if a == start as int {
                            found as int
                        } else if a == found as int {
                            start as int
                        } else {
                            a
                        };
                        let b0: int = if b == start as int {
                            found as int
                        } else if b == found as int {
                            start as int
                        } else {
                            b
                        };
                        assert(nodes@[a] == before_swap[a0]);
                        assert(nodes@[b] == before_swap[b0]);
                    }
                }
                assert(nodes@.take(start as int) =~= before_swap.take(start as int));
                if self@.len() == 0 {
                    assert(nodes@ =~= before_swap);
                }
            }
            let ghost sched = nodes@.take(start as int);
            proof {
                assert(nodes@[start as int] == x);
                assert(!sched.contains(x)) by {
                    if sched.contains(x) {
                        let w = choose|w: int| 0 <= w < sched.len() && sched[w] == x;
                        assert(nodes@[w] == x);
                    }
                }
                // The selected node had no pending edges, so each of its
                // incoming sources is already scheduled.
                assert(pending_edges(self@, sched, x) == 0) by {
                    assert(before_swap[found as int] == x);
                    assert(expressions@[x as u128].incoming_edges == pending_edges(
                        self@,
                        before_swap.take(start as int),
                        x,
                    ));
                }
                lemma_zero_pending(self@, sched, x);
            }
            self.release_edges(expressions, x, Ghost(sched));
            proof {
                assert(nodes@.take(start as int + 1) =~= sched.push(x));
                assert forall|e: Edge, j: int|
                    #![trigger self@.contains(e), nodes@[j]]
                    self@.contains(e) && 0 <= j < start + 1 && nodes@[j]
                        == e.to implies exists|i: int| 0 <= i < j && nodes@[i] == e.from by {
                    if j == start as int {
                        let w = choose|w: int| 0 <= w < self@.len() && self@[w] == e;
                        assert(self@[w].to == x);
                        assert(sched.contains(e.from));
                        let i = choose|i: int| 0 <= i < sched.len() && sched[i] == e.from;
                        assert(nodes@[i] == e.from);
                    } else {
                        assert(before_swap[j] == nodes@[j]) by {
                            assert(nodes@.take(start as int)[j] == before_swap.take(
                                start as int,
                            )[j]);
                        }
                        assert(exists|i: int| 0 <= i < j && before_swap[i] == e.from);
                        let i = choose|i: int| 0 <= i < j && before_swap[i] == e.from;
                        assert(nodes@[i] == e.from) by {
                            assert(nodes@.take(start as int)[i] == before_swap.take(
                                start as int,
                            )[i]);
                        }
                    }
                }
            }
            start = start + 1;
        }
        n
    }
}

} // verus!
