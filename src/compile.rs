use vstd::prelude::*;

use crate::flow::{build_order, is_primitive, wf_steps, Body, Flow, Op, Step};
use crate::stream_table::{bind_from, resolve_from, PortError, Stream, StreamId, StreamTable};

verus! {

/// The kind of a primitive operator of the compiled graph: those of the
/// declarative tree, and those of the stages that end the graph.
#[derive(Clone, Copy, Debug, PartialEq, Eq, Structural)]
pub enum OpKind {
    Noop,
    Branch,
    FlatMapBatch,
    Merge,
    Redistribute,
    InputPartitioned,
    InputDynamic,
    OutputPartitioned,
    OutputDynamic,
    StatefulBatch,
    InspectDebug,
    /// Joins several streams into one.
    Concatenate,
    /// Merges the snapshots of an epoch into one local segment.
    CompactSnapshots,
    /// Uploads segments to the backup target, flushing each at once or in
    /// batches.
    DurableBackup { immediate: bool },
    /// Sends every record to every worker.
    Broadcast,
    /// Writes the new frontier into a segment.
    FrontierSegment,
    /// Records the uploaded frontier as the new resume point.
    CompactFrontiers,
    /// Reports when the stream above it is drained.
    Probe,
}

/// Which worker of how many compiles the graph.
#[derive(Clone, Copy, Debug, PartialEq, Eq, Structural)]
pub struct WorkerSlot {
    pub index: u64,
    pub count: u64,
}

/// Whether snapshots are taken, and whether each backup is flushed at once.
#[derive(Clone, Copy, Debug, PartialEq, Eq, Structural)]
pub struct Recovery {
    pub on: bool,
    pub immediate: bool,
}

/// Why a flow does not compile.
#[derive(Clone, Copy, Debug, PartialEq, Eq, Structural)]
pub enum CompileError {
    /// A position names no step, or a child does not lie after its parent.
    Malformed,
    /// The flow has no input step.
    MissingInput,
    /// The flow has no output or inspect step.
    MissingOutput,
    /// The flow has more primitive operators than positions can count.
    TooLarge,
    /// A port is unbound or bound twice.
    Port(PortError),
}

/// One operator of the compiled graph: the step it comes from (none for
/// the closing stages), its kind, and the streams it reads, in order.
#[derive(Clone, Debug)]
pub struct Built {
    pub step: Option<u64>,
    pub kind: OpKind,
    pub ups: Vec<Stream>,
}

impl View for Built {
    type V = (Option<u64>, OpKind, Seq<Stream>);

    open spec fn view(&self) -> (Option<u64>, OpKind, Seq<Stream>) {
        (self.step, self.kind, self.ups@)
    }
}

/// The flat graph that one worker builds: operator `p` produces the
/// streams `Stream { op: p, .. }`, and the last operator is the probe.
#[derive(Clone, Debug)]
pub struct Graph {
    pub ops: Vec<Built>,
    pub slot: WorkerSlot,
    pub resume_epoch: u64,
}

impl Graph {
    pub open spec fn ops_view(&self) -> Seq<(Option<u64>, OpKind, Seq<Stream>)> {
        self.ops@.map_values(|b: Built| b@)
    }
}

pub open spec fn kind_of(op: Op) -> OpKind {
    match op {
        Op::Noop { .. } => OpKind::Noop,
        Op::Branch { .. } => OpKind::Branch,
        Op::FlatMapBatch { .. } => OpKind::FlatMapBatch,
        Op::Merge { .. } => OpKind::Merge,
        Op::Redistribute { .. } => OpKind::Redistribute,
        Op::InputPartitioned { .. } => OpKind::InputPartitioned,
        Op::InputDynamic { .. } => OpKind::InputDynamic,
        Op::OutputPartitioned { .. } => OpKind::OutputPartitioned,
        Op::OutputDynamic { .. } => OpKind::OutputDynamic,
        Op::StatefulBatch { .. } => OpKind::StatefulBatch,
        Op::InspectDebug { .. } => OpKind::InspectDebug,
    }
}

/// The streams that an operator reads, in port order.
pub open spec fn ups_of(op: Op) -> Seq<StreamId> {
    match op {
        Op::Noop { up, .. } => seq![up],
        Op::Branch { up, .. } => seq![up],
        Op::FlatMapBatch { up, .. } => seq![up],
        Op::Merge { ups, .. } => ups@,
        Op::Redistribute { up, .. } => seq![up],
        Op::InputPartitioned { .. } => Seq::empty(),
        Op::InputDynamic { .. } => Seq::empty(),
        Op::OutputPartitioned { up } => seq![up],
        Op::OutputDynamic { up } => seq![up],
        Op::StatefulBatch { up, .. } => seq![up],
        Op::InspectDebug { up, .. } => seq![up],
    }
}

/// The streams that an operator produces through its ports, in output
/// order.
pub open spec fn downs_of(op: Op) -> Seq<StreamId> {
    match op {
        Op::Noop { down, .. } => seq![down],
        Op::Branch { trues, falses, .. } => seq![trues, falses],
        Op::FlatMapBatch { down, .. } => seq![down],
        Op::Merge { down, .. } => seq![down],
        Op::Redistribute { down, .. } => seq![down],
        Op::InputPartitioned { down } => seq![down],
        Op::InputDynamic { down } => seq![down],
        Op::OutputPartitioned { .. } => Seq::empty(),
        Op::OutputDynamic { .. } => Seq::empty(),
        Op::StatefulBatch { down, .. } => seq![down],
        Op::InspectDebug { down, .. } => seq![down],
    }
}

pub open spec fn is_input_kind(k: OpKind) -> bool {
    k == OpKind::InputPartitioned || k == OpKind::InputDynamic
}

/// Output and inspect operators end the user's graph.
pub open spec fn is_terminal_kind(k: OpKind) -> bool {
    k == OpKind::OutputPartitioned || k == OpKind::OutputDynamic || k == OpKind::InspectDebug
}

/// Operators whose state is snapshotted; the snapshots are their output 1.
pub open spec fn has_snapshot_kind(k: OpKind) -> bool {
    k == OpKind::InputPartitioned || k == OpKind::OutputPartitioned || k == OpKind::StatefulBatch
}

/// The output on which a terminal operator signals progress: after the
/// passed-through stream for inspect, the only one for outputs.
pub open spec fn clock_output(k: OpKind) -> usize {
    if k == OpKind::InspectDebug { 1 } else { 0 }
}

pub open spec fn prim_op(steps: Seq<Step>, i: usize) -> Op {
    steps[i as int].body->Primitive_0
}

/// Every position of `order` holds a primitive step.
pub open spec fn all_prims(steps: Seq<Step>, order: Seq<usize>) -> bool {
    forall|k: int| 0 <= k < order.len() ==> order[k] < steps.len() && is_primitive(#[trigger] steps[order[k] as int])
}

pub open spec fn order_has_input(steps: Seq<Step>, order: Seq<usize>) -> bool {
    exists|k: int| 0 <= k < order.len() && is_input_kind(kind_of(#[trigger] prim_op(steps, order[k])))
}

pub open spec fn order_has_terminal(steps: Seq<Step>, order: Seq<usize>) -> bool {
    exists|k: int| 0 <= k < order.len() && is_terminal_kind(kind_of(#[trigger] prim_op(steps, order[k])))
}

/// Building the first `n` primitives of `order`, each resolving its
/// upstreams and then binding its downstreams: the table and the operators
/// built, or the first port error.
pub open spec fn wire(steps: Seq<Step>, order: Seq<usize>, n: nat) -> Result<(Map<StreamId, Stream>, Seq<(Option<u64>, OpKind, Seq<Stream>)>), PortError>
    decreases n,
{
    if n == 0 {
        Ok((Map::empty(), Seq::empty()))
    } else {
        match wire(steps, order, (n - 1) as nat) {
            Err(e) => Err(e),
            Ok((m, ops)) => {
                let i = order[n - 1];
                let op = prim_op(steps, i);
                match resolve_from(m, ups_of(op), 0) {
                    Err(e) => Err(e),
                    Ok(ups) => match bind_from(m, downs_of(op), ops.len() as usize, 0) {
                        Err(e) => Err(e),
                        Ok(m2) => Ok((m2, ops.push((Some(steps[i as int].id), kind_of(op), ups)))),
                    },
                }
            },
        }
    }
}

/// The snapshot streams of the operators built, in order.
pub open spec fn snaps_of(ops: Seq<(Option<u64>, OpKind, Seq<Stream>)>) -> Seq<Stream>
    decreases ops.len(),
{
    if ops.len() == 0 {
        Seq::empty()
    } else {
        snaps_of(ops.drop_last()) + if has_snapshot_kind(ops.last().1) {
            seq![Stream { op: (ops.len() - 1) as usize, output: 1 }]
        } else {
            Seq::empty()
        }
    }
}

/// The progress streams of the terminal operators built, in order.
pub open spec fn clocks_of(ops: Seq<(Option<u64>, OpKind, Seq<Stream>)>) -> Seq<Stream>
    decreases ops.len(),
{
    if ops.len() == 0 {
        Seq::empty()
    } else {
        clocks_of(ops.drop_last()) + if is_terminal_kind(ops.last().1) {
            seq![Stream { op: (ops.len() - 1) as usize, output: clock_output(ops.last().1) }]
        } else {
            Seq::empty()
        }
    }
}

pub open spec fn stage(kind: OpKind, from: int) -> (Option<u64>, OpKind, Seq<Stream>) {
    (None, kind, seq![Stream { op: from as usize, output: 0 }])
}

/// The operators that close a graph of `n` operators. With recovery on,
/// the snapshots are joined and go through compaction, backup, broadcast,
/// frontier segment, backup and frontier compaction before the probe;
/// otherwise the progress streams are joined and probed.
pub open spec fn closing(n: int, rec: Recovery, snaps: Seq<Stream>, clocks: Seq<Stream>) -> Seq<(Option<u64>, OpKind, Seq<Stream>)> {
    if rec.on {
        seq![
            (None, OpKind::Concatenate, snaps),
            stage(OpKind::CompactSnapshots, n),
            stage(OpKind::DurableBackup { immediate: rec.immediate }, n + 1),
            stage(OpKind::Broadcast, n + 2),
            stage(OpKind::FrontierSegment, n + 3),
            stage(OpKind::DurableBackup { immediate: rec.immediate }, n + 4),
            stage(OpKind::CompactFrontiers, n + 5),
            stage(OpKind::Probe, n + 6),
        ]
    } else {
        seq![(None, OpKind::Concatenate, clocks), stage(OpKind::Probe, n)]
    }
}

/// The room that the closing stages need in a position.
pub open spec fn room(len: nat) -> bool {
    len + 8 <= usize::MAX
}

/// What compiling a flow gives, whichever worker compiles it.
pub open spec fn compiled(steps: Seq<Step>, roots: Seq<usize>, rec: Recovery) -> Result<Seq<(Option<u64>, OpKind, Seq<Stream>)>, CompileError> {
    if !wf_steps(steps, roots) {
        Err(CompileError::Malformed)
    } else {
        let order = build_order(steps, roots);
        if !order_has_input(steps, order) {
            Err(CompileError::MissingInput)
        } else if !order_has_terminal(steps, order) {
            Err(CompileError::MissingOutput)
        } else if !room(order.len()) {
            Err(CompileError::TooLarge)
        } else {
            match wire(steps, order, order.len()) {
                Err(e) => Err(CompileError::Port(e)),
                Ok((m, ops)) => Ok(ops + closing(ops.len() as int, rec, snaps_of(ops), clocks_of(ops))),
            }
        }
    }
}

/// Every worker builds the same graph from the same flow: whichever slots
/// two workers hold, the graphs they compile have the same operators, of
/// the same kinds, wired the same way.
pub proof fn law_topology_symmetric(flow: Flow, recovery: Recovery, g1: Graph, g2: Graph)
    requires
        compiled(flow.steps@, flow.roots@, recovery) == Ok::<Seq<(Option<u64>, OpKind, Seq<Stream>)>, CompileError>(g1.ops_view()),
        compiled(flow.steps@, flow.roots@, recovery) == Ok::<Seq<(Option<u64>, OpKind, Seq<Stream>)>, CompileError>(g2.ops_view()),
    ensures
        g1.ops@.len() == g2.ops@.len(),
        forall|p: int| 0 <= p < g1.ops@.len() ==> (#[trigger] g1.ops@[p]).kind == g2.ops@[p].kind
            && g1.ops@[p].step == g2.ops@[p].step && g1.ops@[p].ups@ == g2.ops@[p].ups@,
{
    assert(g1.ops_view() == g2.ops_view());
    assert(g1.ops_view().len() == g1.ops@.len());
    assert(g2.ops_view().len() == g2.ops@.len());
    assert forall|p: int| 0 <= p < g1.ops@.len() implies (#[trigger] g1.ops@[p]).kind == g2.ops@[p].kind
        && g1.ops@[p].step == g2.ops@[p].step && g1.ops@[p].ups@ == g2.ops@[p].ups@ by {
        assert(g1.ops_view()[p] == g1.ops@[p]@);
        assert(g2.ops_view()[p] == g2.ops@[p]@);
    }
}

/// A well-formed flow without an input step, or without an output or
/// inspect step, fails to compile with that error, whatever its ports.
pub proof fn law_preflight(flow: Flow, recovery: Recovery)
    requires
        flow.wf(),
    ensures
        !order_has_input(flow.steps@, build_order(flow.steps@, flow.roots@))
            ==> compiled(flow.steps@, flow.roots@, recovery) == Err::<Seq<(Option<u64>, OpKind, Seq<Stream>)>, CompileError>(CompileError::MissingInput),
        order_has_input(flow.steps@, build_order(flow.steps@, flow.roots@))
            && !order_has_terminal(flow.steps@, build_order(flow.steps@, flow.roots@))
            ==> compiled(flow.steps@, flow.roots@, recovery) == Err::<Seq<(Option<u64>, OpKind, Seq<Stream>)>, CompileError>(CompileError::MissingOutput),
{
}

proof fn lemma_wire_err_sticks(steps: Seq<Step>, order: Seq<usize>, n: nat, m: nat)
    requires
        n <= m,
        wire(steps, order, n) is Err,
    ensures
        wire(steps, order, m) == wire(steps, order, n),
    decreases m - n,
{
    if n < m {
        lemma_wire_err_sticks(steps, order, n, (m - 1) as nat);
    }
}

fn op_kind(op: &Op) -> (r: OpKind)
    ensures
        r == kind_of(*op),
{
    match op {
        Op::Noop { .. } => OpKind::Noop,
        Op::Branch { .. } => OpKind::Branch,
        Op::FlatMapBatch { .. } => OpKind::FlatMapBatch,
        Op::Merge { .. } => OpKind::Merge,
        Op::Redistribute { .. } => OpKind::Redistribute,
        Op::InputPartitioned { .. } => OpKind::InputPartitioned,
        Op::InputDynamic { .. } => OpKind::InputDynamic,
        Op::OutputPartitioned { .. } => OpKind::OutputPartitioned,
        Op::OutputDynamic { .. } => OpKind::OutputDynamic,
        Op::StatefulBatch { .. } => OpKind::StatefulBatch,
        Op::InspectDebug { .. } => OpKind::InspectDebug,
    }
}

fn op_ups(op: &Op) -> (r: Vec<StreamId>)
    ensures
        r@ == ups_of(*op),
{
    match op {
        Op::Merge { ups, .. } => {
            let mut r: Vec<StreamId> = Vec::new();
            let mut k: usize = 0;
            while k < ups.len()
                invariant
                    k <= ups@.len(),
                    r@ == ups@.subrange(0, k as int),
                decreases ups@.len() - k,
            {
                r.push(ups[k]);
                k = k + 1;
                assert(r@ =~= ups@.subrange(0, k as int));
            }
            assert(ups@.subrange(0, k as int) =~= ups@);
            r
        },
        Op::Noop { up, .. } | Op::Branch { up, .. } | Op::FlatMapBatch { up, .. } | Op::Redistribute { up, .. }
        | Op::OutputPartitioned { up } | Op::OutputDynamic { up } | Op::StatefulBatch { up, .. }
        | Op::InspectDebug { up, .. } => vec![*up],
        Op::InputPartitioned { .. } | Op::InputDynamic { .. } => Vec::new(),
    }
}

fn op_downs(op: &Op) -> (r: Vec<StreamId>)
    ensures
        r@ == downs_of(*op),
{
    match op {
        Op::Branch { trues, falses, .. } => vec![*trues, *falses],
        Op::Noop { down, .. } | Op::FlatMapBatch { down, .. } | Op::Merge { down, .. }
        | Op::Redistribute { down, .. } | Op::InputPartitioned { down } | Op::InputDynamic { down }
        | Op::StatefulBatch { down, .. } | Op::InspectDebug { down, .. } => vec![*down],
        Op::OutputPartitioned { .. } | Op::OutputDynamic { .. } => Vec::new(),
    }
}

fn is_input(k: OpKind) -> (r: bool)
    ensures
        r == is_input_kind(k),
{
    matches!(k, OpKind::InputPartitioned | OpKind::InputDynamic)
}

fn is_terminal(k: OpKind) -> (r: bool)
    ensures
        r == is_terminal_kind(k),
{
    matches!(k, OpKind::OutputPartitioned | OpKind::OutputDynamic | OpKind::InspectDebug)
}

/// Whether operators of kind `k` emit snapshots of their state.
pub fn has_snapshot(k: OpKind) -> (r: bool)
    ensures
        r == has_snapshot_kind(k),
{
    matches!(k, OpKind::InputPartitioned | OpKind::OutputPartitioned | OpKind::StatefulBatch)
}

/// Whether the primitives at the positions `order` hold an input step, and
/// whether they hold a terminal one.
fn preflight(flow: &Flow, order: &Vec<usize>) -> (r: (bool, bool))
    requires
        all_prims(flow.steps@, order@),
    ensures
        r.0 == order_has_input(flow.steps@, order@),
        r.1 == order_has_terminal(flow.steps@, order@),
{
    let mut input = false;
    let mut terminal = false;
    let mut k: usize = 0;
    while k < order.len()
        invariant
            k <= order@.len(),
            all_prims(flow.steps@, order@),
            input == exists|j: int| 0 <= j < k && is_input_kind(kind_of(#[trigger] prim_op(flow.steps@, order@[j]))),
            terminal == exists|j: int| 0 <= j < k && is_terminal_kind(kind_of(#[trigger] prim_op(flow.steps@, order@[j]))),
        decreases order@.len() - k,
    {
        assert(is_primitive(flow.steps@[order@[k as int] as int]));
        match &flow.steps[order[k]].body {
            Body::Primitive(op) => {
                let kind = op_kind(op);
                assert(kind == kind_of(prim_op(flow.steps@, order@[k as int])));
                if is_input(kind) {
                    input = true;
                }
                if is_terminal(kind) {
                    terminal = true;
                }
            },
            Body::Composite(_) => {},
        }
        k = k + 1;
    }
    (input, terminal)
}

/// The operators that close a graph of `n` operators, as `closing` says.
fn closing_ops(n: usize, rec: Recovery, snaps: Vec<Stream>, clocks: Vec<Stream>) -> (r: Vec<Built>)
    requires
        n + 8 <= usize::MAX,
    ensures
        r@.map_values(|b: Built| b@) == closing(n as int, rec, snaps@, clocks@),
{
    let mut r: Vec<Built> = Vec::new();
    if rec.on {
        r.push(Built { step: None, kind: OpKind::Concatenate, ups: snaps });
        r.push(Built { step: None, kind: OpKind::CompactSnapshots, ups: vec![Stream { op: n, output: 0 }] });
        r.push(Built { step: None, kind: OpKind::DurableBackup { immediate: rec.immediate }, ups: vec![Stream { op: n + 1, output: 0 }] });
        r.push(Built { step: None, kind: OpKind::Broadcast, ups: vec![Stream { op: n + 2, output: 0 }] });
        r.push(Built { step: None, kind: OpKind::FrontierSegment, ups: vec![Stream { op: n + 3, output: 0 }] });
        r.push(Built { step: None, kind: OpKind::DurableBackup { immediate: rec.immediate }, ups: vec![Stream { op: n + 4, output: 0 }] });
        r.push(Built { step: None, kind: OpKind::CompactFrontiers, ups: vec![Stream { op: n + 5, output: 0 }] });
        r.push(Built { step: None, kind: OpKind::Probe, ups: vec![Stream { op: n + 6, output: 0 }] });
    } else {
        r.push(Built { step: None, kind: OpKind::Concatenate, ups: clocks });
        r.push(Built { step: None, kind: OpKind::Probe, ups: vec![Stream { op: n, output: 0 }] });
    }
    proof {
        let c = closing(n as int, rec, snaps@, clocks@);
        assert forall|j: int| 0 <= j < r@.len() implies r@[j]@ == c[j] by {
            assert(r@[j].ups@ =~= c[j].2);
        }
        assert(r@.map_values(|b: Built| b@) =~= c);
    }
    r
}

/// Compiles `flow` into the graph that worker `slot` builds: the
/// primitives in build order, each reading the streams its upstream ports
/// name and binding those its downstream ports name, then the closing
/// stages. The tree is walked with a work stack, so nesting does not grow
/// the call stack. A flow without input or without terminal step is
/// refused before any operator is built.
pub fn compile(flow: &Flow, slot: WorkerSlot, recovery: Recovery, resume_epoch: u64) -> (r: Result<Graph, CompileError>)
    ensures
        match r {
            Ok(g) => compiled(flow.steps@, flow.roots@, recovery) == Ok::<Seq<(Option<u64>, OpKind, Seq<Stream>)>, CompileError>(g.ops_view())
                && g.slot == slot && g.resume_epoch == resume_epoch,
            Err(e) => compiled(flow.steps@, flow.roots@, recovery) == Err::<Seq<(Option<u64>, OpKind, Seq<Stream>)>, CompileError>(e),
        },
{
    if !flow.is_well_formed() {
        return Err(CompileError::Malformed);
    }
    let order = flow.flatten();
    let (has_input, has_terminal) = preflight(flow, &order);
    if !has_input {
        return Err(CompileError::MissingInput);
    }
    if !has_terminal {
        return Err(CompileError::MissingOutput);
    }
    if order.len() > usize::MAX - 8 {
        return Err(CompileError::TooLarge);
    }
    let ghost steps = flow.steps@;
    let mut table = StreamTable::new();
    let mut ops: Vec<Built> = Vec::new();
    let mut snaps: Vec<Stream> = Vec::new();
    let mut clocks: Vec<Stream> = Vec::new();
    let mut k: usize = 0;
    proof {
        assert(ops@.map_values(|b: Built| b@) =~= Seq::empty());
        assert(table@ =~= Map::empty());
    }
    while k < order.len()
        invariant
            steps == flow.steps@,
            flow.wf(),
            order@ == build_order(steps, flow.roots@),
            order_has_input(steps, order@),
            order_has_terminal(steps, order@),
            k <= order@.len(),
            order@.len() + 8 <= usize::MAX,
            all_prims(steps, order@),
            table.wf(),
            ops@.len() == k,
            wire(steps, order@, k as nat) == Ok::<(Map<StreamId, Stream>, Seq<(Option<u64>, OpKind, Seq<Stream>)>), PortError>(
                (table@, ops@.map_values(|b: Built| b@))),
            snaps@ == snaps_of(ops@.map_values(|b: Built| b@)),
            clocks@ == clocks_of(ops@.map_values(|b: Built| b@)),
        decreases order@.len() - k,
    {
        let i = order[k];
        assert(is_primitive(steps[i as int]));
        let ghost before = ops@.map_values(|b: Built| b@);
        match &flow.steps[i].body {
            Body::Primitive(op) => {
                assert(*op == prim_op(steps, i));
                let ups = match table.resolve_multi(&op_ups(op)) {
                    Ok(ups) => ups,
                    Err(e) => {
                        proof {
                            lemma_wire_err_sticks(steps, order@, (k + 1) as nat, order@.len());
                        }
                        return Err(CompileError::Port(e));
                    },
                };
                let pos = ops.len();
                match table.bind_outputs(&op_downs(op), pos) {
                    Ok(()) => {},
                    Err(e) => {
                        proof {
                            lemma_wire_err_sticks(steps, order@, (k + 1) as nat, order@.len());
                        }
                        return Err(CompileError::Port(e));
                    },
                }
                let kind = op_kind(op);
                ops.push(Built { step: Some(flow.steps[i].id), kind, ups });
                proof {
                    let after = ops@.map_values(|b: Built| b@);
                    assert(after =~= before.push((Some(steps[i as int].id), kind, ups@)));
                    assert(after.drop_last() =~= before);
                }
                if has_snapshot(kind) {
                    snaps.push(Stream { op: pos, output: 1 });
                }
                if is_terminal(kind) {
                    if kind == OpKind::InspectDebug {
                        clocks.push(Stream { op: pos, output: 1 });
                    } else {
                        clocks.push(Stream { op: pos, output: 0 });
                    }
                }
            },
            Body::Composite(_) => {},
        }
        k = k + 1;
    }
    let ghost body = ops@;
    let mut tail = closing_ops(ops.len(), recovery, snaps, clocks);
    let ghost closing_view = tail@;
    ops.append(&mut tail);
    proof {
        assert(ops@.map_values(|b: Built| b@) =~= body.map_values(|b: Built| b@) + closing_view.map_values(|b: Built| b@));
    }
    Ok(Graph { ops, slot, resume_epoch })
}

} // verus!
