use vstd::prelude::*;

use crate::compile::{compile, compiled, has_snapshot, has_snapshot_kind, CompileError, Graph, OpKind, Recovery, WorkerSlot};
use crate::flow::Flow;
use crate::recovery::{latest_state, resume_epoch_of, StateStore};
use crate::stream_table::Stream;

verus! {

/// The recovery settings that a store gives the compiler.
pub open spec fn recovery_of(store: StateStore) -> Recovery {
    Recovery { on: store.recovery_on_spec(), immediate: store.immediate_spec() }
}

/// Builds the graph that worker `slot` runs for `flow`, after the store
/// has said where to resume: snapshots go through the durability pipeline
/// when the store has recovery on, and the graph starts at the resume
/// epoch.
pub fn build_production_dataflow(flow: &Flow, slot: WorkerSlot, store: &StateStore) -> (r: Result<Graph, CompileError>)
    ensures
        match r {
            Ok(g) => compiled(flow.steps@, flow.roots@, recovery_of(*store))
                == Ok::<Seq<(Option<u64>, OpKind, Seq<Stream>)>, CompileError>(g.ops_view())
                && g.slot == slot && g.resume_epoch == resume_epoch_of(store.frontier_spec()),
            Err(e) => compiled(flow.steps@, flow.roots@, recovery_of(*store))
                == Err::<Seq<(Option<u64>, OpKind, Seq<Stream>)>, CompileError>(e),
        },
{
    let resume = store.resume_from();
    let recovery = Recovery { on: store.recovery_on(), immediate: store.immediate_snapshot() };
    compile(flow, slot, recovery, resume.epoch)
}

/// The steps of the snapshotting operators among `ops`, in order.
pub open spec fn stateful_steps(ops: Seq<(Option<u64>, OpKind, Seq<Stream>)>) -> Seq<u64>
    decreases ops.len(),
{
    if ops.len() == 0 {
        Seq::empty()
    } else {
        stateful_steps(ops.drop_last()) + if has_snapshot_kind(ops.last().1) && ops.last().0 is Some {
            seq![ops.last().0->Some_0]
        } else {
            Seq::empty()
        }
    }
}

/// The prior state that one snapshotting operator starts from.
#[derive(Clone, Debug)]
pub struct Hydrated {
    pub step: u64,
    pub state: Option<Vec<u8>>,
}

pub open spec fn state_view(s: Option<Vec<u8>>) -> Option<Seq<u8>> {
    match s {
        Some(v) => Some(v@),
        None => None,
    }
}

/// Hydrates the snapshotting operators of `graph`, in graph order: each
/// gets the state of its last durable snapshot no later than the resume
/// epoch, if it has one.
pub fn hydrate_operators(graph: &Graph, store: &StateStore) -> (r: Vec<Hydrated>)
    ensures
        r@.len() == stateful_steps(graph.ops_view()).len(),
        forall|k: int| 0 <= k < r@.len() ==> (#[trigger] r@[k]).step == stateful_steps(graph.ops_view())[k]
            && state_view(r@[k].state) == latest_state(store.snapshots_spec(), r@[k].step, resume_epoch_of(store.frontier_spec())),
{
    let mut out: Vec<Hydrated> = Vec::new();
    let mut p: usize = 0;
    while p < graph.ops.len()
        invariant
            p <= graph.ops@.len(),
            out@.len() == stateful_steps(graph.ops_view().subrange(0, p as int)).len(),
            forall|k: int| 0 <= k < out@.len() ==> (#[trigger] out@[k]).step == stateful_steps(graph.ops_view().subrange(0, p as int))[k]
                && state_view(out@[k].state) == latest_state(store.snapshots_spec(), out@[k].step, resume_epoch_of(store.frontier_spec())),
        decreases graph.ops@.len() - p,
    {
        let ghost pre = graph.ops_view().subrange(0, p as int);
        let ghost next = graph.ops_view().subrange(0, p as int + 1);
        assert(next.drop_last() =~= pre);
        assert(next.last() == graph.ops@[p as int]@);
        let op = &graph.ops[p];
        if has_snapshot(op.kind) {
            match op.step {
                Some(id) => {
                    let state = store.hydrate(id);
                    out.push(Hydrated { step: id, state });
                },
                None => {},
            }
        }
        p = p + 1;
    }
    assert(graph.ops_view().subrange(0, p as int) =~= graph.ops_view());
    out
}

} // verus!
