use vstd::prelude::*;

use crate::errors::ArtError;
use crate::types::ArtResult;

verus! {

/// What one arena slot holds: nothing, the boundary marker of a run
/// (carrying the run's length), or one value of a run.
#[derive(Clone, Copy)]
enum Content<T> {
    Empty,
    Start { length: usize },
    Occupied { value: T },
}

/// One arena slot: its content plus the index of the slot that follows it,
/// either in the free chain or inside a run.
#[derive(Clone, Copy)]
struct Node<T> {
    content: Content<T>,
    next: usize,
}

/// A duplicate-free sequence of indices into `0 .. cap` cannot be longer
/// than `cap`.
proof fn lemma_distinct_bounded(s: Seq<int>, cap: int)
    requires
        0 <= cap,
        forall|i: int| 0 <= i < s.len() ==> 0 <= #[trigger] s[i] < cap,
        forall|i: int, j: int| 0 <= i < j < s.len() ==> #[trigger] s[i] != #[trigger] s[j],
    ensures
        s.len() <= cap,
{
    assert(s.no_duplicates());
    s.unique_seq_to_set();
    let range = vstd::set_lib::set_int_range(0, cap);
    vstd::set_lib::lemma_int_range(0, cap);
    assert(s.to_set().subset_of(range));
    vstd::set_lib::lemma_len_subset(s.to_set(), range);
}

/// A fixed-capacity arena for variable-length runs of values.
///
/// Slots form an implicit free chain through their `next` indices. A run
/// occupies one `Start` marker slot plus one `Occupied` slot per value, so
/// storing `n` values consumes `n + 1` slots. Runs are addressed by the
/// stable index of their `Start` slot and released as a whole, in O(run
/// length), with no slot outside the run touched. The capacity is fixed at
/// construction; exhaustion reports `BufferOverflow` instead of growing.
pub struct Leap<T> {
    nodes: Vec<Node<T>>,
    tail: usize,
    used: usize,
    free_order: Ghost<Seq<int>>,
    run_slots: Ghost<Map<int, Seq<int>>>,
}

impl<T: Copy> Leap<T> {
    /// Total number of slots.
    pub closed spec fn spec_capacity(&self) -> int {
        self.nodes@.len() as int
    }

    /// Number of slots currently consumed by runs and their markers.
    pub closed spec fn spec_len(&self) -> int {
        self.used as int
    }

    /// Number of slots still free.
    pub open spec fn free_slots(&self) -> int {
        self.spec_capacity() - self.spec_len()
    }

    spec fn slot_value(&self, j: int) -> T
        recommends 0 <= j < self.nodes@.len(),
    {
        match self.nodes@[j].content {
            Content::Occupied { value } => value,
            _ => arbitrary(),
        }
    }

    spec fn run_values(&self, s: int) -> Seq<T>
        recommends self.run_slots@.dom().contains(s),
    {
        self.run_slots@[s].map(|_i: int, j: int| self.slot_value(j))
    }

    /// The live runs: each run's start index mapped to the values it holds.
    pub closed spec fn runs(&self) -> Map<int, Seq<T>> {
        Map::new(
            |s: int| self.run_slots@.dom().contains(s),
            |s: int| self.run_values(s),
        )
    }

    spec fn wf_free_chain(&self) -> bool {
        let cap = self.nodes@.len() as int;
        let fl = self.free_order@;
        &&& fl.len() == cap - self.used
        &&& forall|i: int| 0 <= i < fl.len() ==> 0 <= #[trigger] fl[i] < cap
        &&& forall|i: int| 0 <= i < fl.len() ==> self.nodes@[#[trigger] fl[i]].content is Empty
        &&& forall|i: int, j: int| 0 <= i < j < fl.len() ==> #[trigger] fl[i] != #[trigger] fl[j]
        &&& (fl.len() > 0 ==> fl[0] == self.tail)
        &&& forall|i: int|
            0 <= i < fl.len() - 1 ==> self.nodes@[#[trigger] fl[i]].next == fl[i + 1]
    }

    spec fn wf_runs(&self) -> bool {
        let cap = self.nodes@.len() as int;
        let rs = self.run_slots@;
        &&& forall|s: int| rs.dom().contains(s) ==> 0 <= s < cap
        &&& forall|s: int| #[trigger]
            rs.dom().contains(s) ==> (self.nodes@[s].content matches Content::Start { length }
                && length == rs[s].len())
        &&& forall|s: int| #[trigger]
            rs.dom().contains(s) && rs[s].len() > 0 ==> self.nodes@[s].next == rs[s][0]
        &&& forall|s: int, i: int|
            rs.dom().contains(s) && 0 <= i < rs[s].len() ==> 0 <= #[trigger] rs[s][i] < cap
        &&& forall|s: int, i: int|
            rs.dom().contains(s) && 0 <= i < rs[s].len()
                ==> self.nodes@[#[trigger] rs[s][i]].content is Occupied
        &&& forall|s: int, i: int|
            rs.dom().contains(s) && 0 <= i < rs[s].len() - 1
                ==> self.nodes@[#[trigger] rs[s][i]].next == rs[s][i + 1]
        &&& forall|s1: int, s2: int, i1: int, i2: int|
            rs.dom().contains(s1) && rs.dom().contains(s2) && 0 <= i1 < rs[s1].len() && 0 <= i2
                < rs[s2].len() && #[trigger] rs[s1][i1] == #[trigger] rs[s2][i2]
                ==> s1 == s2 && i1 == i2
        &&& forall|j: int|
            0 <= j < cap && (#[trigger] self.nodes@[j]).content is Start ==> rs.dom().contains(j)
    }

    /// The arena's internal invariant.
    pub closed spec fn wf(&self) -> bool {
        &&& self.used <= self.nodes@.len()
        &&& self.wf_free_chain()
        &&& self.wf_runs()
    }

    /// The arena round trip: a freshly stored run holds exactly the
    /// stored values, and releasing it restores every other run and the
    /// free space to what they were before the store.
    pub proof fn lemma_round_trip(r0: Leap<T>, r1: Leap<T>, r2: Leap<T>, s: int, vals: Seq<T>)
        requires
            !r0.runs().dom().contains(s),
            r1.runs() == r0.runs().insert(s, vals),
            r1.spec_len() == r0.spec_len() + vals.len() + 1,
            r1.spec_capacity() == r0.spec_capacity(),
            r2.runs() == r1.runs().remove(s),
            r2.spec_len() == r1.spec_len() - (vals.len() + 1),
            r2.spec_capacity() == r1.spec_capacity(),
        ensures
            r1.runs()[s] == vals,
            r2.runs() == r0.runs(),
            r2.free_slots() == r0.free_slots(),
    {
        assert(r2.runs() =~= r0.runs());
    }

    /// No more used slots than the capacity.
    pub proof fn lemma_len_le_cap(&self)
        requires
            self.wf(),
        ensures
            0 <= self.spec_len() <= self.spec_capacity(),
    {
    }

    proof fn lemma_start_not_in_any_run(&self, s: int)
        requires
            self.wf(),
            self.run_slots@.dom().contains(s),
        ensures
            forall|s2: int, i: int|
                self.run_slots@.dom().contains(s2) && 0 <= i < self.run_slots@[s2].len()
                    ==> #[trigger] self.run_slots@[s2][i] != s,
            forall|i: int| 0 <= i < self.free_order@.len() ==> #[trigger] self.free_order@[i] != s,
    {
    }

    /// An arena with no slots at all.
    pub fn new() -> (r: Leap<T>)
        ensures
            r.wf(),
            r.spec_capacity() == 0,
            r.spec_len() == 0,
            r.runs() == Map::<int, Seq<T>>::empty(),
    {
        let r = Leap {
            nodes: Vec::new(),
            tail: 0,
            used: 0,
            free_order: Ghost(Seq::empty()),
            run_slots: Ghost(Map::empty()),
        };
        proof {
            assert(r.runs() =~= Map::<int, Seq<T>>::empty());
        }
        r
    }

    /// An arena of `capacity` free slots, chained in index order.
    pub fn with_capacity(capacity: usize) -> (r: Leap<T>)
        ensures
            r.wf(),
            r.spec_capacity() == capacity,
            r.spec_len() == 0,
            r.runs() == Map::<int, Seq<T>>::empty(),
    {
        let mut nodes: Vec<Node<T>> = Vec::new();
        let mut i: usize = 0;
        while i < capacity
            invariant
                i <= capacity,
                nodes@.len() == i,
                forall|j: int|
                    0 <= j < i ==> (#[trigger] nodes@[j]).content is Empty && nodes@[j].next == (
                    if j == capacity - 1 {
                        0int
                    } else {
                        j + 1
                    }),
            decreases capacity - i,
        {
            let next = if i + 1 == capacity {
                0
            } else {
                i + 1
            };
            nodes.push(Node { content: Content::Empty, next });
            i = i + 1;
        }
        let r = Leap {
            nodes,
            tail: 0,
            used: 0,
            free_order: Ghost(Seq::new(capacity as nat, |j: int| j)),
            run_slots: Ghost(Map::empty()),
        };
        proof {
            assert forall|j: int| 0 <= j < r.free_order@.len() - 1 implies r.nodes@[
                #[trigger] r.free_order@[j]].next == r.free_order@[j + 1] by {
                assert(r.free_order@[j] == j);
            }
            assert(r.runs() =~= Map::<int, Seq<T>>::empty());
        }
        r
    }

    /// How many runs plus run slots are in use.
    pub fn len(&self) -> (r: usize)
        ensures
            r == self.spec_len(),
    {
        self.used
    }

    /// The fixed total number of slots.
    pub fn capacity(&self) -> (r: usize)
        ensures
            r == self.spec_capacity(),
    {
        self.nodes.len()
    }

    /// Store `values` as one fresh run and return its stable start index.
    ///
    /// Fails with `BufferOverflow`, leaving the arena untouched, exactly
    /// when fewer than `values.len() + 1` slots are free.
    #[verifier::rlimit(100)]
    #[verifier::spinoff_prover]
    pub fn allocate(&mut self, values: &Vec<T>) -> (r: ArtResult<usize>)
        requires
            old(self).wf(),
        ensures
            final(self).wf(),
            final(self).spec_capacity() == old(self).spec_capacity(),
            match r {
                Ok(start) => {
                    &&& old(self).free_slots() >= values@.len() + 1
                    &&& !old(self).runs().dom().contains(start as int)
                    &&& final(self).runs() == old(self).runs().insert(start as int, values@)
                    &&& final(self).spec_len() == old(self).spec_len() + values@.len() + 1
                },
                Err(e) => {
                    &&& e == ArtError::BufferOverflow
                    &&& old(self).free_slots() < values@.len() + 1
                    &&& *final(self) == *old(self)
                },
            },
    {
        let n = values.len();
        if self.nodes.len() - self.used <= n {
            return Err(ArtError::BufferOverflow);
        }
        let ghost fl = self.free_order@;
        let ghost old_self = *self;
        let start = self.tail;
        proof {
            assert(fl.len() >= n + 1);
            assert(start as int == fl[0]);
            assert(0 <= fl[0] < self.nodes@.len());
        }
        let first = self.nodes[start].next;
        self.nodes.set(start, Node { content: Content::Start { length: n }, next: first });
        let mut idx = first;
        let mut k: usize = 0;
        while k < n
            invariant
                old_self.wf(),
                k <= n,
                n + 1 <= fl.len(),
                fl == old_self.free_order@,
                start == fl[0],
                self.nodes@.len() == old_self.nodes@.len(),
                self.tail == old_self.tail,
                self.used == old_self.used,
                self.free_order@ == fl,
                self.run_slots@ == old_self.run_slots@,
                values@.len() == n,
                k + 1 < fl.len() ==> idx == fl[k + 1],
                self.nodes@[fl[0]] == (Node::<T> {
                    content: Content::Start { length: n },
                    next: old_self.nodes@[fl[0]].next,
                }),
                forall|j: int|
                    1 <= j <= k ==> self.nodes@[#[trigger] fl[j]] == (Node::<T> {
                        content: Content::Occupied { value: values@[j - 1] },
                        next: old_self.nodes@[fl[j]].next,
                    }),
                forall|m: int|
                    0 <= m < self.nodes@.len() && (forall|j: int|
                        0 <= j <= k ==> m != #[trigger] fl[j]) ==> self.nodes@[m]
                        == old_self.nodes@[m],
            decreases n - k,
        {
            proof {
                assert(idx == fl[k + 1]);
                assert(0 <= fl[k + 1] < self.nodes@.len());
                assert forall|j: int| 0 <= j <= k implies fl[k + 1] != #[trigger] fl[j] by {}
                assert(self.nodes@[fl[k + 1]] == old_self.nodes@[fl[k + 1]]);
            }
            let nxt = self.nodes[idx].next;
            self.nodes.set(idx, Node { content: Content::Occupied { value: values[k] }, next: nxt });
            idx = nxt;
            k = k + 1;
        }
        self.tail = idx;
        self.used = self.used + n + 1;
        proof {
            self.free_order@ = fl.skip(n + 1);
            self.run_slots@ = old_self.run_slots@.insert(start as int, fl.subrange(1, n as int + 1));
            let rs_old = old_self.run_slots@;
            let rs = self.run_slots@;
            let slots = fl.subrange(1, n as int + 1);
            // Slots drawn from the free chain were Empty before, so they are
            // not part of any old run and not an old start marker.
            assert forall|j: int, i: int|
                0 <= j < fl.len() && rs_old.dom().contains(i) implies fl[j] != i by {
                assert(old_self.nodes@[fl[j]].content is Empty);
            }
            assert forall|j: int, s2: int, i2: int|
                0 <= j < fl.len() && rs_old.dom().contains(s2) && 0 <= i2 < rs_old[s2].len()
                implies fl[j] != rs_old[s2][i2] by {
                assert(old_self.nodes@[fl[j]].content is Empty);
                assert(old_self.nodes@[rs_old[s2][i2]].content is Occupied);
            }
            // Old slots outside the consumed prefix are untouched.
            assert forall|m: int|
                0 <= m < self.nodes@.len() && (forall|j: int|
                    0 <= j <= n ==> m != #[trigger] fl[j]) implies self.nodes@[m]
                == old_self.nodes@[m] by {}
            assert(self.wf_free_chain()) by {
                let flp = self.free_order@;
                assert forall|i: int| 0 <= i < flp.len() implies self.nodes@[
                    #[trigger] flp[i]].content is Empty && 0 <= flp[i] < self.nodes@.len() by {
                    assert(flp[i] == fl[i + n + 1]);
                    assert forall|j: int| 0 <= j <= n implies fl[i + n + 1] != #[trigger] fl[j] by {}
                    assert(self.nodes@[fl[i + n + 1]] == old_self.nodes@[fl[i + n + 1]]);
                }
                assert forall|i: int| 0 <= i < flp.len() - 1 implies self.nodes@[
                    #[trigger] flp[i]].next == flp[i + 1] by {
                    assert(flp[i] == fl[i + n + 1]);
                    assert(self.nodes@[fl[i + n + 1]] == old_self.nodes@[fl[i + n + 1]]);
                    assert(old_self.nodes@[fl[i + n + 1]].next == fl[i + n + 2]);
                }
                if flp.len() > 0 {
                    assert(self.tail == fl[n + 1]);
                }
            }
            assert(self.wf_runs()) by {
                assert forall|s: int| #[trigger] rs.dom().contains(s) implies self.nodes@[s].content
                    matches Content::Start { length } && length == rs[s].len() by {
                    if s == start as int {
                        assert(self.nodes@[s].content == (Content::Start::<T> { length: n }));
                        assert(rs[s].len() == n);
                    } else {
                        assert(rs_old.dom().contains(s));
                        assert forall|j: int| 0 <= j <= n implies s != #[trigger] fl[j] by {}
                        assert(self.nodes@[s] == old_self.nodes@[s]);
                    }
                }
                assert forall|s: int| #[trigger] rs.dom().contains(s) && rs[s].len() > 0
                    implies self.nodes@[s].next == rs[s][0] by {
                    if s == start as int {
                        assert(self.nodes@[s].next == old_self.nodes@[fl[0]].next);
                        assert(old_self.nodes@[fl[0]].next == fl[1]);
                        assert(rs[s][0] == fl[1]);
                    } else {
                        assert(rs_old.dom().contains(s));
                        assert(self.nodes@[s] == old_self.nodes@[s]);
                        if rs_old[s].len() > 0 {
                            assert forall|i2: int|
                                0 <= i2 < rs_old[s].len() implies self.nodes@[
                                #[trigger] rs_old[s][i2]] == old_self.nodes@[rs_old[s][i2]] by {
                                assert forall|j: int|
                                    0 <= j <= n implies rs_old[s][i2] != #[trigger] fl[j] by {}
                            }
                        }
                    }
                }
                assert forall|s: int, i: int|
                    rs.dom().contains(s) && 0 <= i < rs[s].len() implies 0 <= #[trigger] rs[s][i]
                    < self.nodes@.len() && self.nodes@[rs[s][i]].content is Occupied by {
                    if s == start as int {
                        assert(rs[s][i] == fl[i + 1]);
                        assert(self.nodes@[fl[i + 1]].content == (Content::Occupied {
                            value: values@[i],
                        }));
                    } else {
                        assert(rs_old.dom().contains(s));
                        assert forall|j: int| 0 <= j <= n implies rs_old[s][i] != #[trigger] fl[j]
                            by {}
                        assert(self.nodes@[rs[s][i]] == old_self.nodes@[rs[s][i]]);
                    }
                }
                assert forall|s: int, i: int|
                    rs.dom().contains(s) && 0 <= i < rs[s].len() - 1 implies self.nodes@[
                    #[trigger] rs[s][i]].next == rs[s][i + 1] by {
                    if s == start as int {
                        assert(rs[s][i] == fl[i + 1]);
                        assert(rs[s][i + 1] == fl[i + 2]);
                        assert(self.nodes@[fl[i + 1]].next == old_self.nodes@[fl[i + 1]].next);
                        assert(old_self.nodes@[fl[i + 1]].next == fl[i + 2]);
                    } else {
                        assert(rs_old.dom().contains(s));
                        assert forall|j: int| 0 <= j <= n implies rs_old[s][i] != #[trigger] fl[j]
                            by {}
                        assert(self.nodes@[rs[s][i]] == old_self.nodes@[rs[s][i]]);
                    }
                }
                assert forall|s1: int, s2: int, i1: int, i2: int|
                    rs.dom().contains(s1) && rs.dom().contains(s2) && 0 <= i1 < rs[s1].len() && 0
                    <= i2 < rs[s2].len() && #[trigger] rs[s1][i1] == #[trigger] rs[s2][i2]
                    implies s1 == s2 && i1 == i2 by {
                    if s1 == start as int && s2 == start as int {
                        assert(rs[s1][i1] == fl[i1 + 1]);
                        assert(rs[s2][i2] == fl[i2 + 1]);
                    } else if s1 == start as int {
                        assert(rs[s1][i1] == fl[i1 + 1]);
                        assert(fl[i1 + 1] != rs_old[s2][i2]);
                    } else if s2 == start as int {
                        assert(rs[s2][i2] == fl[i2 + 1]);
                        assert(fl[i2 + 1] != rs_old[s1][i1]);
                    }
                }
                assert forall|j: int|
                    0 <= j < self.nodes@.len() && self.nodes@[j].content is Start
                    implies rs.dom().contains(j) by {
                    if j != start as int {
                        if exists|q: int| 1 <= q <= n && j == #[trigger] fl[q] {
                            let q = choose|q: int| 1 <= q <= n && j == #[trigger] fl[q];
                            assert(self.nodes@[fl[q]].content is Occupied);
                        } else {
                            assert(self.nodes@[j] == old_self.nodes@[j]);
                        }
                    }
                }
            }
            assert(self.runs() =~= old_self.runs().insert(start as int, values@)) by {
                assert forall|s: int| rs_old.dom().contains(s) implies self.run_values(s)
                    =~= old_self.run_values(s) by {
                    assert forall|i2: int|
                        0 <= i2 < rs_old[s].len() implies self.nodes@[#[trigger] rs_old[s][i2]]
                        == old_self.nodes@[rs_old[s][i2]] by {
                        assert forall|j: int| 0 <= j <= n implies rs_old[s][i2] != #[trigger] fl[j]
                            by {}
                    }
                }
                assert(self.run_values(start as int) =~= values@) by {
                    assert forall|i: int| 0 <= i < n implies self.run_values(start as int)[i]
                        == values@[i] by {
                        assert(rs[start as int][i] == fl[i + 1]);
                        assert(self.nodes@[fl[i + 1]].content == (Content::Occupied {
                            value: values@[i],
                        }));
                    }
                }
            }
            assert(!old_self.runs().dom().contains(start as int)) by {
                assert(old_self.nodes@[start as int].content is Empty);
            }
        }
        Ok(start)
    }

    /// Release the run starting at `start`, returning its marker and value
    /// slots to the free chain. Fails with `IndexError`, touching nothing,
    /// exactly when `start` is not the start of a live run.
    #[verifier::rlimit(100)]
    #[verifier::spinoff_prover]
    pub fn free(&mut self, start: usize) -> (r: ArtResult<()>)
        requires
            old(self).wf(),
        ensures
            final(self).wf(),
            final(self).spec_capacity() == old(self).spec_capacity(),
            match r {
                Ok(()) => {
                    &&& old(self).runs().dom().contains(start as int)
                    &&& final(self).runs() == old(self).runs().remove(start as int)
                    &&& final(self).spec_len() == old(self).spec_len() - (old(self).runs()[start as int].len() + 1)
                },
                Err(e) => {
                    &&& e == ArtError::IndexError
                    &&& !old(self).runs().dom().contains(start as int)
                    &&& *final(self) == *old(self)
                },
            },
    {
        if start >= self.nodes.len() {
            return Err(ArtError::IndexError);
        }
        let n = match self.nodes[start].content {
            Content::Start { length } => length,
            _ => {
                proof {
                    assert(!self.run_slots@.dom().contains(start as int)) by {
                        if self.run_slots@.dom().contains(start as int) {
                            assert(self.nodes@[start as int].content is Start);
                        }
                    }
                }
                return Err(ArtError::IndexError);
            },
        };
        proof {
            assert(self.nodes@[start as int].content is Start);
            assert(self.run_slots@.dom().contains(start as int));
            assert(n == self.run_slots@[start as int].len());
        }
        let ghost old_self = *self;
        let ghost slots = self.run_slots@[start as int];
        let old_tail = self.tail;
        let first = self.nodes[start].next;
        let next_of_start = if n == 0 { old_tail } else { first };
        self.nodes.set(start, Node { content: Content::Empty, next: next_of_start });
        let mut idx = first;
        let mut k: usize = 0;
        while k < n
            invariant
                old_self.wf(),
                old_self.run_slots@.dom().contains(start as int),
                slots == old_self.run_slots@[start as int],
                slots.len() == n,
                k <= n,
                old_tail == old_self.tail,
                self.nodes@.len() == old_self.nodes@.len(),
                self.tail == old_self.tail,
                self.used == old_self.used,
                self.free_order@ == old_self.free_order@,
                self.run_slots@ == old_self.run_slots@,
                k < n ==> idx == slots[k as int],
                self.nodes@[start as int].content is Empty,
                self.nodes@[start as int].next == (if n == 0 {
                    old_tail as int
                } else {
                    old_self.nodes@[start as int].next as int
                }),
                forall|j: int|
                    0 <= j < k ==> (#[trigger] self.nodes@[slots[j]]).content is Empty,
                forall|j: int|
                    0 <= j < k ==> (#[trigger] self.nodes@[slots[j]]).next == if j == n - 1 {
                        old_tail as int
                    } else {
                        old_self.nodes@[slots[j]].next as int
                    },
                forall|m: int|
                    0 <= m < self.nodes@.len() && m != start as int && (forall|j: int|
                        0 <= j < k ==> m != #[trigger] slots[j]) ==> self.nodes@[m]
                        == old_self.nodes@[m],
            decreases n - k,
        {
            proof {
                old_self.lemma_start_not_in_any_run(start as int);
                assert(slots[k as int] != start as int);
                assert forall|j: int| 0 <= j < k implies slots[k as int] != #[trigger] slots[j]
                    by {}
                assert(self.nodes@[slots[k as int]] == old_self.nodes@[slots[k as int]]);
            }
            let nxt = self.nodes[idx].next;
            if k == n - 1 {
                self.nodes.set(idx, Node { content: Content::Empty, next: old_tail });
            } else {
                self.nodes.set(idx, Node { content: Content::Empty, next: nxt });
            }
            idx = nxt;
            k = k + 1;
        }
        proof {
            let fl_old = old_self.free_order@;
            let combined = seq![start as int] + slots + fl_old;
            assert forall|i: int| 0 <= i < combined.len() implies 0 <= #[trigger] combined[i]
                < self.nodes@.len() by {
                if i == 0 {
                } else if i <= slots.len() {
                    assert(combined[i] == slots[i - 1]);
                } else {
                    assert(combined[i] == fl_old[i - 1 - slots.len()]);
                }
            }
            assert forall|i: int, j: int|
                0 <= i < j < combined.len() implies #[trigger] combined[i]
                != #[trigger] combined[j] by {
                old_self.lemma_start_not_in_any_run(start as int);
                if i == 0 {
                    if j <= slots.len() {
                        assert(combined[j] == slots[j - 1]);
                    } else {
                        assert(combined[j] == fl_old[j - 1 - slots.len()]);
                        assert(old_self.nodes@[fl_old[j - 1 - slots.len()]].content is Empty);
                        assert(old_self.nodes@[start as int].content is Start);
                    }
                } else if i <= slots.len() {
                    assert(combined[i] == slots[i - 1]);
                    if j <= slots.len() {
                        assert(combined[j] == slots[j - 1]);
                    } else {
                        assert(combined[j] == fl_old[j - 1 - slots.len()]);
                        assert(old_self.nodes@[slots[i - 1]].content is Occupied);
                        assert(old_self.nodes@[fl_old[j - 1 - slots.len()]].content is Empty);
                    }
                } else {
                    assert(combined[i] == fl_old[i - 1 - slots.len()]);
                    assert(combined[j] == fl_old[j - 1 - slots.len()]);
                }
            }
            lemma_distinct_bounded(combined, self.nodes@.len() as int);
            assert(self.used >= n + 1);
        }
        self.tail = start;
        self.used = self.used - (n + 1);
        proof {
            old_self.lemma_start_not_in_any_run(start as int);
            let fl_old = old_self.free_order@;
            self.free_order@ = seq![start as int] + slots + fl_old;
            self.run_slots@ = old_self.run_slots@.remove(start as int);
            let fl = self.free_order@;
            let rs = self.run_slots@;
            // The freed slots are distinct from every old free slot.
            assert forall|j: int, i: int|
                0 <= j < slots.len() && 0 <= i < fl_old.len() implies #[trigger] slots[j]
                != #[trigger] fl_old[i] by {
                assert(old_self.nodes@[slots[j]].content is Occupied);
                assert(old_self.nodes@[fl_old[i]].content is Empty);
            }
            assert forall|i: int| 0 <= i < fl_old.len() implies #[trigger] fl_old[i]
                != start as int by {
                assert(old_self.nodes@[fl_old[i]].content is Empty);
                assert(old_self.nodes@[start as int].content is Start);
            }
            // Frame: every slot outside the freed run kept its node.
            assert forall|m: int|
                0 <= m < self.nodes@.len() && m != start as int && (forall|j: int|
                    0 <= j < slots.len() ==> m != #[trigger] slots[j]) implies self.nodes@[m]
                == old_self.nodes@[m] by {}
            assert(self.wf_free_chain()) by {
                assert forall|i: int| 0 <= i < fl.len() implies 0 <= #[trigger] fl[i]
                    < self.nodes@.len() && self.nodes@[fl[i]].content is Empty by {
                    if i == 0 {
                    } else if i <= slots.len() {
                        assert(fl[i] == slots[i - 1]);
                    } else {
                        assert(fl[i] == fl_old[i - 1 - slots.len()]);
                        assert(self.nodes@[fl[i]] == old_self.nodes@[fl[i]]);
                    }
                }
                assert forall|i: int, j: int| 0 <= i < j < fl.len() implies #[trigger] fl[i] != #[trigger] fl[j]
                    by {
                    if i == 0 {
                        if j <= slots.len() {
                            assert(fl[j] == slots[j - 1]);
                        } else {
                            assert(fl[j] == fl_old[j - 1 - slots.len()]);
                        }
                    } else if i <= slots.len() {
                        assert(fl[i] == slots[i - 1]);
                        if j <= slots.len() {
                            assert(fl[j] == slots[j - 1]);
                        } else {
                            assert(fl[j] == fl_old[j - 1 - slots.len()]);
                        }
                    } else {
                        assert(fl[i] == fl_old[i - 1 - slots.len()]);
                        assert(fl[j] == fl_old[j - 1 - slots.len()]);
                    }
                }
                assert forall|i: int| 0 <= i < fl.len() - 1 implies self.nodes@[
                    #[trigger] fl[i]].next == fl[i + 1] by {
                    if i == 0 {
                        if n == 0 {
                            assert(fl[1] == fl_old[0]);
                            assert(fl_old.len() > 0);
                            assert(fl_old[0] == old_self.tail);
                            assert(self.nodes@[start as int].next == old_tail as int);
                        } else {
                            assert(self.nodes@[start as int].next
                                == old_self.nodes@[start as int].next);
                            assert(old_self.nodes@[start as int].next == slots[0]);
                            assert(fl[1] == slots[0]);
                        }
                    } else if i < slots.len() {
                        assert(fl[i] == slots[i - 1]);
                        assert(self.nodes@[slots[i - 1]].next == old_self.nodes@[slots[i - 1]].next);
                        assert(old_self.nodes@[slots[i - 1]].next == slots[i]);
                        assert(fl[i + 1] == slots[i]);
                    } else if i == slots.len() && n > 0 {
                        assert(fl[i] == slots[n - 1]);
                        assert(self.nodes@[slots[n - 1]].next == old_tail as int);
                        assert(fl[i + 1] == fl_old[0]);
                        assert(fl_old.len() > 0);
                        assert(fl_old[0] == old_self.tail);
                    } else {
                        assert(fl[i] == fl_old[i - 1 - slots.len()]);
                        assert(self.nodes@[fl[i]] == old_self.nodes@[fl[i]]);
                        assert(old_self.nodes@[fl_old[i - 1 - slots.len()]].next == fl_old[i
                            - slots.len()]);
                        assert(fl[i + 1] == fl_old[i - slots.len()]);
                    }
                }
            }
            assert(self.wf_runs()) by {
                assert forall|s: int, i: int|
                    rs.dom().contains(s) && 0 <= i < rs[s].len() implies self.nodes@[
                    #[trigger] rs[s][i]] == old_self.nodes@[rs[s][i]] by {
                    assert(rs[s][i] != start as int);
                    assert forall|j: int| 0 <= j < slots.len() implies rs[s][i] != #[trigger] slots[j]
                        by {}
                }
                assert forall|s: int| #[trigger] rs.dom().contains(s) implies self.nodes@[s]
                    == old_self.nodes@[s] by {
                    old_self.lemma_start_not_in_any_run(s);
                    assert forall|j: int| 0 <= j < slots.len() implies s != #[trigger] slots[j] by {}
                }
                assert forall|j: int|
                    0 <= j < self.nodes@.len() && self.nodes@[j].content is Start
                    implies rs.dom().contains(j) by {
                    if j == start as int {
                        assert(self.nodes@[j].content is Empty);
                    } else if exists|q: int| 0 <= q < slots.len() && j == #[trigger] slots[q] {
                        let q = choose|q: int| 0 <= q < slots.len() && j == #[trigger] slots[q];
                        assert(self.nodes@[slots[q]].content is Empty);
                    } else {
                        assert(self.nodes@[j] == old_self.nodes@[j]);
                        assert(old_self.run_slots@.dom().contains(j));
                    }
                }
            }
            assert(self.runs() =~= old_self.runs().remove(start as int)) by {
                assert forall|s: int| rs.dom().contains(s) implies self.run_values(s)
                    =~= old_self.run_values(s) by {
                    assert forall|i: int|
                        0 <= i < rs[s].len() implies self.nodes@[#[trigger] rs[s][i]]
                        == old_self.nodes@[rs[s][i]] by {
                        assert(rs[s][i] != start as int);
                        assert forall|j: int|
                            0 <= j < slots.len() implies rs[s][i] != #[trigger] slots[j] by {}
                    }
                }
            }
        }
        Ok(())
    }

    /// Overwrite the value at `offset` within the run starting at `start`.
    /// Fails with `IndexError`, touching nothing, exactly when no such run
    /// or offset exists.
    pub fn set(&mut self, start: usize, offset: usize, value: T) -> (r: ArtResult<()>)
        requires
            old(self).wf(),
        ensures
            final(self).wf(),
            final(self).spec_capacity() == old(self).spec_capacity(),
            final(self).spec_len() == old(self).spec_len(),
            match r {
                Ok(()) => {
                    &&& old(self).runs().dom().contains(start as int)
                    &&& offset < old(self).runs()[start as int].len()
                    &&& final(self).runs() == old(self).runs().insert(
                        start as int,
                        old(self).runs()[start as int].update(offset as int, value),
                    )
                },
                Err(e) => {
                    &&& e == ArtError::IndexError
                    &&& !(old(self).runs().dom().contains(start as int) && offset < old(
                        self,
                    ).runs()[start as int].len())
                    &&& *final(self) == *old(self)
                },
            },
    {
        if start >= self.nodes.len() {
            return Err(ArtError::IndexError);
        }
        let n = match self.nodes[start].content {
            Content::Start { length } => length,
            _ => {
                proof {
                    if self.run_slots@.dom().contains(start as int) {
                        assert(self.nodes@[start as int].content is Start);
                    }
                }
                return Err(ArtError::IndexError);
            },
        };
        proof {
            assert(self.nodes@[start as int].content is Start);
            assert(self.run_slots@.dom().contains(start as int));
            assert(n == self.run_slots@[start as int].len());
        }
        if offset >= n {
            return Err(ArtError::IndexError);
        }
        let ghost old_self = *self;
        let ghost slots = self.run_slots@[start as int];
        let mut idx = self.nodes[start].next;
        let mut k: usize = 0;
        while k < offset
            invariant
                old_self.wf(),
                old_self.run_slots@.dom().contains(start as int),
                slots == old_self.run_slots@[start as int],
                offset < slots.len(),
                k <= offset,
                *self == old_self,
                idx == slots[k as int],
            decreases offset - k,
        {
            idx = self.nodes[idx].next;
            k = k + 1;
        }
        let nxt = self.nodes[idx].next;
        self.nodes.set(idx, Node { content: Content::Occupied { value }, next: nxt });
        proof {
            let rs = self.run_slots@;
            assert(idx == slots[offset as int]);
            assert forall|s: int, i: int|
                rs.dom().contains(s) && 0 <= i < rs[s].len() && !(s == start as int && i
                    == offset as int) implies #[trigger] rs[s][i] != idx as int by {}
            assert forall|s: int| #[trigger] rs.dom().contains(s) implies self.nodes@[s]
                == old_self.nodes@[s] by {
                old_self.lemma_start_not_in_any_run(s);
            }
            assert(self.wf()) by {
                assert forall|i: int| 0 <= i < self.free_order@.len() implies self.nodes@[
                    #[trigger] self.free_order@[i]] == old_self.nodes@[self.free_order@[i]] by {
                    assert(old_self.nodes@[self.free_order@[i]].content is Empty);
                }
            }
            assert(self.runs() =~= old_self.runs().insert(
                start as int,
                old_self.runs()[start as int].update(offset as int, value),
            )) by {
                assert forall|s: int|
                    rs.dom().contains(s) && s != start as int implies self.run_values(s)
                    =~= old_self.run_values(s) by {
                    assert forall|i: int|
                        0 <= i < rs[s].len() implies self.nodes@[#[trigger] rs[s][i]]
                        == old_self.nodes@[rs[s][i]] by {}
                }
                assert(self.run_values(start as int) =~= old_self.run_values(start as int).update(
                    offset as int,
                    value,
                )) by {
                    assert forall|i: int|
                        0 <= i < slots.len() && i != offset as int implies self.nodes@[
                        #[trigger] slots[i]] == old_self.nodes@[slots[i]] by {}
                }
            }
        }
        Ok(())
    }

    /// Copy out the values of the run starting at `start`, in order.
    /// Fails with `IndexError` exactly when `start` is not the start of a
    /// live run.
    pub fn iter(&self, start: usize) -> (r: ArtResult<Vec<T>>)
        requires
            self.wf(),
        ensures
            match r {
                Ok(values) => {
                    &&& self.runs().dom().contains(start as int)
                    &&& values@ == self.runs()[start as int]
                },
                Err(e) => {
                    &&& e == ArtError::IndexError
                    &&& !self.runs().dom().contains(start as int)
                },
            },
    {
        if start >= self.nodes.len() {
            return Err(ArtError::IndexError);
        }
        let n = match self.nodes[start].content {
            Content::Start { length } => length,
            _ => {
                proof {
                    if self.run_slots@.dom().contains(start as int) {
                        assert(self.nodes@[start as int].content is Start);
                    }
                }
                return Err(ArtError::IndexError);
            },
        };
        proof {
            assert(self.nodes@[start as int].content is Start);
            assert(self.run_slots@.dom().contains(start as int));
            assert(n == self.run_slots@[start as int].len());
        }
        let ghost slots = self.run_slots@[start as int];
        let mut values: Vec<T> = Vec::new();
        let mut idx = self.nodes[start].next;
        let mut k: usize = 0;
        while k < n
            invariant
                self.wf(),
                self.run_slots@.dom().contains(start as int),
                slots == self.run_slots@[start as int],
                slots.len() == n,
                k <= n,
                k < n ==> idx == slots[k as int],
                values@.len() == k,
                forall|j: int| 0 <= j < k ==> values@[j] == self.run_values(start as int)[j],
            decreases n - k,
        {
            let v = match self.nodes[idx].content {
                Content::Occupied { value } => value,
                _ => {
                    proof {
                        assert(self.nodes@[slots[k as int]].content is Occupied);
                    }
                    return Err(ArtError::IndexError);
                },
            };
            values.push(v);
            idx = self.nodes[idx].next;
            proof {
                if k + 1 < n {
                    assert(self.nodes@[slots[k as int]].next == slots[k as int + 1]);
                }
            }
            k = k + 1;
        }
        proof {
            assert(values@ =~= self.runs()[start as int]);
        }
        Ok(values)
    }

    /// Overwrite every value of the run starting at `start` with `values`.
    /// Fails with `IndexError`, touching nothing, exactly when no run of
    /// that exact length starts there.
    pub fn write_run(&mut self, start: usize, values: &Vec<T>) -> (r: ArtResult<()>)
        requires
            old(self).wf(),
        ensures
            final(self).wf(),
            final(self).spec_capacity() == old(self).spec_capacity(),
            final(self).spec_len() == old(self).spec_len(),
            match r {
                Ok(()) => {
                    &&& old(self).runs().dom().contains(start as int)
                    &&& old(self).runs()[start as int].len() == values@.len()
                    &&& final(self).runs() == old(self).runs().insert(start as int, values@)
                },
                Err(e) => {
                    &&& e == ArtError::IndexError
                    &&& !(old(self).runs().dom().contains(start as int) && old(self).runs()[start
                        as int].len() == values@.len())
                    &&& *final(self) == *old(self)
                },
            },
    {
        if start >= self.nodes.len() {
            return Err(ArtError::IndexError);
        }
        let n = match self.nodes[start].content {
            Content::Start { length } => length,
            _ => {
                proof {
                    if self.run_slots@.dom().contains(start as int) {
                        assert(self.nodes@[start as int].content is Start);
                    }
                }
                return Err(ArtError::IndexError);
            },
        };
        proof {
            assert(self.nodes@[start as int].content is Start);
            assert(self.run_slots@.dom().contains(start as int));
            assert(n == self.run_slots@[start as int].len());
        }
        if n != values.len() {
            return Err(ArtError::IndexError);
        }
        let ghost old_self = *self;
        proof {
            assert(values@.take(0) + old_self.runs()[start as int].subrange(0, n as int)
                =~= old_self.runs()[start as int]);
            assert(self.runs() =~= old_self.runs().insert(
                start as int,
                values@.take(0) + old_self.runs()[start as int].subrange(0, n as int),
            ));
        }
        let mut k: usize = 0;
        while k < n
            invariant
                old_self.wf(),
                self.wf(),
                old_self.run_slots@.dom().contains(start as int),
                old_self.runs().dom().contains(start as int),
                n == old_self.runs()[start as int].len(),
                values@.len() == n,
                k <= n,
                self.spec_capacity() == old_self.spec_capacity(),
                self.spec_len() == old_self.spec_len(),
                self.runs() == old_self.runs().insert(
                    start as int,
                    values@.take(k as int) + old_self.runs()[start as int].subrange(
                        k as int,
                        n as int,
                    ),
                ),
            decreases n - k,
        {
            let ghost before = self.runs()[start as int];
            let r = self.set(start, k, values[k]);
            proof {
                assert(r is Ok);
                assert(self.runs()[start as int] == before.update(k as int, values@[k as int]));
                assert(self.runs()[start as int] =~= values@.take(k as int + 1)
                    + old_self.runs()[start as int].subrange(k as int + 1, n as int));
                assert(self.runs() =~= old_self.runs().insert(
                    start as int,
                    values@.take(k as int + 1) + old_self.runs()[start as int].subrange(
                        k as int + 1,
                        n as int,
                    ),
                ));
            }
            k = k + 1;
        }
        proof {
            assert(self.runs()[start as int] =~= values@);
            assert(self.runs() =~= old_self.runs().insert(start as int, values@));
        }
        Ok(())
    }
}

} // verus!
