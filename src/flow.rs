use vstd::prelude::*;

use crate::stream_table::StreamId;

verus! {

/// A primitive operator of the declarative tree, with the streams that its
/// ports read (`up`, `ups`) and produce (`down`, `trues`, `falses`).
#[derive(Clone, Debug)]
pub enum Op {
    /// Passes its upstream through unchanged.
    Noop { up: StreamId, down: StreamId },
    /// Splits records by a user predicate.
    Branch { up: StreamId, trues: StreamId, falses: StreamId },
    /// Applies a user function to each batch, giving zero or more records.
    FlatMapBatch { up: StreamId, down: StreamId },
    /// Interleaves several upstreams into one.
    Merge { ups: Vec<StreamId>, down: StreamId },
    /// Repartitions records across workers.
    Redistribute { up: StreamId, down: StreamId },
    /// Reads a source with fixed partitions, whose state is snapshotted.
    InputPartitioned { down: StreamId },
    /// Reads a source with no fixed partitions and no persisted state.
    InputDynamic { down: StreamId },
    /// Writes a sink with fixed partitions, whose state is snapshotted.
    OutputPartitioned { up: StreamId },
    /// Writes a sink with no persisted state.
    OutputDynamic { up: StreamId },
    /// Runs a user per-key state machine, whose state is snapshotted.
    StatefulBatch { up: StreamId, down: StreamId },
    /// Calls a user callback on each record for observation.
    InspectDebug { up: StreamId, down: StreamId },
}

/// What a node of the tree is: a primitive operator, or a composite that
/// groups the nodes at the given positions of the arena, in order.
#[derive(Clone, Debug)]
pub enum Body {
    Primitive(Op),
    Composite(Vec<usize>),
}

/// One node of the declarative tree.
#[derive(Clone, Debug)]
pub struct Step {
    pub id: u64,
    pub body: Body,
}

/// A declarative operator tree held in an arena: `roots` are the
/// positions of the top-level steps, in declaration order.
#[derive(Clone, Debug)]
pub struct Flow {
    pub steps: Vec<Step>,
    pub roots: Vec<usize>,
}

pub open spec fn is_primitive(s: Step) -> bool {
    s.body is Primitive
}

/// The children of the step at `i`, if any, lie after it in the arena.
pub open spec fn kids_after(steps: Seq<Step>, i: int) -> bool {
    match steps[i].body {
        Body::Primitive(_) => true,
        Body::Composite(ch) => forall|k: int| 0 <= k < ch@.len() ==> i < #[trigger] ch@[k] < steps.len(),
    }
}

/// Every child of a composite lies after it in the arena, and every
/// position named is inside the arena.
pub open spec fn wf_steps(steps: Seq<Step>, roots: Seq<usize>) -> bool {
    &&& forall|k: int| 0 <= k < roots.len() ==> roots[k] < steps.len()
    &&& forall|i: int| 0 <= i < steps.len() ==> #[trigger] kids_after(steps, i)
}

/// The nodes of the subtree at `i`, in the order in which a depth-first,
/// left-to-right walk meets them.
pub open spec fn visit(steps: Seq<Step>, i: usize) -> Seq<usize>
    decreases steps.len() - i, 1nat, 0nat,
{
    if i < steps.len() {
        match steps[i as int].body {
            Body::Primitive(_) => seq![i],
            Body::Composite(ch) => seq![i] + visit_kids(steps, i, ch@),
        }
    } else {
        Seq::empty()
    }
}

pub open spec fn visit_kids(steps: Seq<Step>, parent: usize, ch: Seq<usize>) -> Seq<usize>
    decreases steps.len() - parent, 0nat, ch.len(),
{
    if ch.len() == 0 {
        Seq::empty()
    } else {
        (if parent < ch[0] && ch[0] < steps.len() {
            visit(steps, ch[0])
        } else {
            Seq::empty()
        }) + visit_kids(steps, parent, ch.drop_first())
    }
}

/// The walk over a sequence of subtrees, one after another.
pub open spec fn visit_all(steps: Seq<Step>, s: Seq<usize>) -> Seq<usize>
    decreases s.len(),
{
    if s.len() == 0 {
        Seq::empty()
    } else {
        visit(steps, s[0]) + visit_all(steps, s.drop_first())
    }
}

/// The positions of the primitive steps in the order in which they are
/// built: depth first, children in declared order.
pub open spec fn build_order(steps: Seq<Step>, roots: Seq<usize>) -> Seq<usize> {
    prims_of(steps, visit_all(steps, roots))
}

/// The positions in `s` that hold primitive steps, in order.
pub open spec fn prims_of(steps: Seq<Step>, s: Seq<usize>) -> Seq<usize> {
    s.filter(|i: usize| prim_at(steps, i))
}

pub open spec fn prim_at(steps: Seq<Step>, i: usize) -> bool {
    i < steps.len() && is_primitive(steps[i as int])
}

proof fn lemma_prims_push(steps: Seq<Step>, s: Seq<usize>, i: usize)
    ensures
        prims_of(steps, s.push(i)) == (if prim_at(steps, i) {
            prims_of(steps, s).push(i)
        } else {
            prims_of(steps, s)
        }),
{
    reveal(Seq::filter);
    assert(s.push(i).drop_last() =~= s);
}

proof fn lemma_visit_all_add(steps: Seq<Step>, a: Seq<usize>, b: Seq<usize>)
    ensures
        visit_all(steps, a + b) == visit_all(steps, a) + visit_all(steps, b),
    decreases a.len(),
{
    if a.len() == 0 {
        assert(a + b =~= b);
    } else {
        assert((a + b).drop_first() =~= a.drop_first() + b);
        lemma_visit_all_add(steps, a.drop_first(), b);
        assert(visit_all(steps, a + b) =~= visit_all(steps, a) + visit_all(steps, b));
    }
}

proof fn lemma_visit_kids(steps: Seq<Step>, parent: usize, ch: Seq<usize>)
    requires
        forall|k: int| 0 <= k < ch.len() ==> parent < #[trigger] ch[k] < steps.len(),
    ensures
        visit_kids(steps, parent, ch) == visit_all(steps, ch),
    decreases ch.len(),
{
    if ch.len() > 0 {
        lemma_visit_kids(steps, parent, ch.drop_first());
    }
}

impl Flow {
    pub open spec fn wf(&self) -> bool {
        wf_steps(self.steps@, self.roots@)
    }

    /// Whether every composite's children lie after it in the arena and
    /// every position named is inside it.
    pub fn is_well_formed(&self) -> (r: bool)
        ensures
            r == self.wf(),
    {
        let mut k: usize = 0;
        while k < self.roots.len()
            invariant
                k <= self.roots@.len(),
                forall|j: int| 0 <= j < k ==> self.roots@[j] < self.steps@.len(),
            decreases self.roots@.len() - k,
        {
            if self.roots[k] >= self.steps.len() {
                return false;
            }
            k = k + 1;
        }
        let mut i: usize = 0;
        while i < self.steps.len()
            invariant
                i <= self.steps@.len(),
                forall|k: int| 0 <= k < self.roots@.len() ==> self.roots@[k] < self.steps@.len(),
                forall|a: int| 0 <= a < i ==> #[trigger] kids_after(self.steps@, a),
            decreases self.steps@.len() - i,
        {
            match &self.steps[i].body {
                Body::Primitive(_) => {
                    assert(kids_after(self.steps@, i as int));
                },
                Body::Composite(ch) => {
                    let mut j: usize = 0;
                    while j < ch.len()
                        invariant
                            j <= ch@.len(),
                            i < self.steps@.len(),
                            self.steps@[i as int].body == Body::Composite(*ch),
                            forall|k: int| 0 <= k < self.roots@.len() ==> self.roots@[k] < self.steps@.len(),
                            forall|a: int| 0 <= a < i ==> #[trigger] kids_after(self.steps@, a),
                            forall|k: int| 0 <= k < j ==> i < #[trigger] ch@[k] < self.steps@.len(),
                        decreases ch@.len() - j,
                    {
                        if ch[j] <= i || ch[j] >= self.steps.len() {
                            proof {
                                let ghost c = ch@;
                                assert(self.steps@[i as int].body->Composite_0@ == c);
                                assert(!(i < c[j as int] && c[j as int] < self.steps@.len()));
                                assert(!kids_after(self.steps@, i as int));
                            }
                            return false;
                        }
                        j = j + 1;
                    }
                    assert(kids_after(self.steps@, i as int));
                },
            }
            i = i + 1;
        }
        true
    }

    /// The positions of the primitive steps, in the order in which they
    /// are built: a work stack seeded with the top-level steps walks the
    /// tree depth first, children in declared order, and builds nothing
    /// for a composite.
    pub fn flatten(&self) -> (r: Vec<usize>)
        requires
            self.wf(),
        ensures
            r@ == build_order(self.steps@, self.roots@),
            forall|k: int| 0 <= k < r@.len() ==> r@[k] < self.steps@.len()
                && is_primitive(#[trigger] self.steps@[r@[k] as int]),
    {
        let ghost steps = self.steps@;
        let mut stack: Vec<usize> = Vec::new();
        let mut k: usize = self.roots.len();
        while k > 0
            invariant
                k <= self.roots@.len(),
                stack@.len() == self.roots@.len() - k,
                forall|j: int| 0 <= j < stack@.len() ==> stack@[j] == self.roots@[self.roots@.len() - 1 - j],
            decreases k,
        {
            k = k - 1;
            stack.push(self.roots[k]);
        }
        let ghost pending: Seq<usize> = self.roots@;
        let ghost visited: Seq<usize> = Seq::empty();
        let mut out: Vec<usize> = Vec::new();
        while stack.len() > 0
            invariant
                steps == self.steps@,
                self.wf(),
                stack@.len() == pending.len(),
                forall|j: int| 0 <= j < stack@.len() ==> stack@[j] == pending[pending.len() - 1 - j],
                forall|j: int| 0 <= j < pending.len() ==> pending[j] < steps.len(),
                visited + visit_all(steps, pending) == visit_all(steps, self.roots@),
                out@ == prims_of(steps, visited),
                forall|j: int| 0 <= j < out@.len() ==> out@[j] < steps.len()
                    && is_primitive(#[trigger] steps[out@[j] as int]),
            decreases visit_all(steps, pending).len(),
        {
            let i = stack.pop().unwrap();
            proof {
                assert(i == pending[0]);
                assert(i < steps.len());
                assert(visit_all(steps, pending) == visit(steps, i) + visit_all(steps, pending.drop_first()));
                lemma_prims_push(steps, visited, i);
            }
            match &self.steps[i].body {
                Body::Primitive(_) => {
                    assert(is_primitive(steps[i as int]));
                    assert(prim_at(steps, i));
                    out.push(i);
                    proof {
                        assert(visited.push(i) + visit_all(steps, pending.drop_first())
                            =~= visited + visit_all(steps, pending));
                        visited = visited.push(i);
                        pending = pending.drop_first();
                    }
                },
                Body::Composite(ch) => {
                    let ghost rest = pending.drop_first();
                    proof {
                        assert(!prim_at(steps, i));
                        assert(kids_after(steps, i as int));
                        lemma_visit_kids(steps, i, ch@);
                        lemma_visit_all_add(steps, ch@, rest);
                    }
                    let mut j: usize = ch.len();
                    while j > 0
                        invariant
                            j <= ch@.len(),
                            stack@.len() == rest.len() + (ch@.len() - j),
                            forall|m: int| 0 <= m < rest.len() ==> stack@[m] == rest[rest.len() - 1 - m],
                            forall|m: int| rest.len() <= m < stack@.len() ==> #[trigger] stack@[m] == ch@[ch@.len() - 1 - (m - rest.len())],
                        decreases j,
                    {
                        j = j - 1;
                        stack.push(ch[j]);
                    }
                    proof {
                        let np = ch@ + rest;
                        assert(visited.push(i) + visit_all(steps, np) =~= visited + visit_all(steps, pending));
                        visited = visited.push(i);
                        pending = np;
                        assert forall|m: int| 0 <= m < pending.len() implies pending[m] < steps.len() by {
                            if m < ch@.len() {
                                assert(i < ch@[m]);
                            } else {
                                assert(pending[m] == rest[m - ch@.len()]);
                            }
                        }
                        assert forall|m: int| 0 <= m < stack@.len() implies stack@[m] == pending[pending.len() - 1 - m] by {
                            if m < rest.len() {
                            } else {
                                assert(stack@[m] == ch@[ch@.len() - 1 - (m - rest.len())]);
                            }
                        }
                    }
                },
            }
        }
        proof {
            assert(pending.len() == 0);
            assert(visited =~= visit_all(steps, self.roots@));
        }
        out
    }
}

} // verus!
