use dataflow_core::compile::{compile, CompileError, Graph, OpKind, Recovery, WorkerSlot};
use dataflow_core::flow::{Body, Flow, Op, Step};
use dataflow_core::recovery::StateStore;
use dataflow_core::stream_table::{PortError, Stream, StreamId, StreamTable};
use dataflow_core::worker::build_production_dataflow;

fn sid(step: u64, port: u64) -> StreamId {
    StreamId { step, port }
}

fn prim(id: u64, op: Op) -> Step {
    Step { id, body: Body::Primitive(op) }
}

fn comp(id: u64, children: Vec<usize>) -> Step {
    Step { id, body: Body::Composite(children) }
}

const OFF: Recovery = Recovery { on: false, immediate: false };

fn slot(index: u64, count: u64) -> WorkerSlot {
    WorkerSlot { index, count }
}

/// A(B, C(D, E)) with B an input, D a no-op and E an output.
fn nested() -> Flow {
    Flow {
        steps: vec![
            comp(10, vec![1, 2]),
            prim(11, Op::InputDynamic { down: sid(11, 0) }),
            comp(12, vec![3, 4]),
            prim(13, Op::Noop { up: sid(11, 0), down: sid(13, 0) }),
            prim(14, Op::OutputDynamic { up: sid(13, 0) }),
        ],
        roots: vec![0],
    }
}

fn step_ids(g: &Graph) -> Vec<Option<u64>> {
    g.ops.iter().map(|b| b.step).collect()
}

#[test]
fn flatten_is_depth_first_in_declared_order() {
    let f = nested();
    assert!(f.is_well_formed());
    assert_eq!(f.flatten(), vec![1, 3, 4]);
    let g = compile(&f, slot(0, 1), OFF, 0).unwrap();
    assert_eq!(step_ids(&g), vec![Some(11), Some(13), Some(14), None, None]);
}

#[test]
fn flatten_keeps_sibling_order_across_roots() {
    let f = Flow {
        steps: vec![
            comp(1, vec![1, 2]),
            comp(2, vec![3]),
            prim(3, Op::InputDynamic { down: sid(3, 0) }),
            prim(4, Op::InputDynamic { down: sid(4, 0) }),
            prim(5, Op::InputDynamic { down: sid(5, 0) }),
        ],
        roots: vec![4, 0],
    };
    assert_eq!(f.flatten(), vec![4, 3, 2]);
}

#[test]
fn deep_nesting_flattens() {
    let mut steps = Vec::new();
    for i in 0..5000usize {
        steps.push(comp(i as u64, vec![i + 1]));
    }
    steps.push(prim(9000, Op::InputDynamic { down: sid(9000, 0) }));
    steps.push(prim(9001, Op::OutputDynamic { up: sid(9000, 0) }));
    steps[0] = comp(0, vec![1, 5001]);
    let f = Flow { steps, roots: vec![0] };
    assert_eq!(f.flatten(), vec![5000, 5001]);
}

#[test]
fn stream_table_binds_once() {
    let mut t = StreamTable::new();
    let a = sid(1, 0);
    let s = Stream { op: 0, output: 0 };
    assert_eq!(t.resolve(a), Err(PortError::UnknownPort(a)));
    assert_eq!(t.bind(a, s), Ok(()));
    assert_eq!(t.resolve(a), Ok(s));
    assert_eq!(t.bind(a, Stream { op: 1, output: 0 }), Err(PortError::DuplicatePort(a)));
    assert_eq!(t.resolve(a), Ok(s));
}

#[test]
fn stream_table_resolves_many_in_order() {
    let mut t = StreamTable::new();
    t.bind_outputs(&vec![sid(1, 0), sid(1, 1)], 7).unwrap();
    assert_eq!(
        t.resolve_multi(&vec![sid(1, 1), sid(1, 0)]),
        Ok(vec![Stream { op: 7, output: 1 }, Stream { op: 7, output: 0 }])
    );
    assert_eq!(t.resolve_multi(&vec![sid(1, 0), sid(2, 0), sid(3, 0)]), Err(PortError::UnknownPort(sid(2, 0))));
    assert_eq!(t.bind_outputs(&vec![sid(4, 0), sid(4, 0)], 8), Err(PortError::DuplicatePort(sid(4, 0))));
}

#[test]
fn missing_input_is_refused() {
    let f = Flow { steps: vec![prim(1, Op::OutputDynamic { up: sid(9, 0) })], roots: vec![0] };
    assert_eq!(compile(&f, slot(0, 1), OFF, 0).unwrap_err(), CompileError::MissingInput);
}

#[test]
fn missing_output_is_refused() {
    let f = Flow {
        steps: vec![
            prim(1, Op::InputDynamic { down: sid(1, 0) }),
            prim(2, Op::Noop { up: sid(7, 0), down: sid(2, 0) }),
        ],
        roots: vec![0, 1],
    };
    assert_eq!(compile(&f, slot(0, 1), OFF, 0).unwrap_err(), CompileError::MissingOutput);
}

#[test]
fn malformed_tree_is_refused() {
    let f = Flow { steps: vec![comp(1, vec![0])], roots: vec![0] };
    assert!(!f.is_well_formed());
    assert_eq!(compile(&f, slot(0, 1), OFF, 0).unwrap_err(), CompileError::Malformed);
    let g = Flow { steps: vec![], roots: vec![0] };
    assert_eq!(compile(&g, slot(0, 1), OFF, 0).unwrap_err(), CompileError::Malformed);
}

#[test]
fn unbound_upstream_is_unknown_port() {
    let f = Flow {
        steps: vec![
            prim(1, Op::InputDynamic { down: sid(1, 0) }),
            prim(2, Op::OutputDynamic { up: sid(3, 0) }),
        ],
        roots: vec![0, 1],
    };
    assert_eq!(compile(&f, slot(0, 1), OFF, 0).unwrap_err(), CompileError::Port(PortError::UnknownPort(sid(3, 0))));
}

#[test]
fn out_of_order_upstream_is_unknown_port() {
    let f = Flow {
        steps: vec![
            prim(2, Op::OutputDynamic { up: sid(1, 0) }),
            prim(1, Op::InputDynamic { down: sid(1, 0) }),
        ],
        roots: vec![0, 1],
    };
    assert_eq!(compile(&f, slot(0, 1), OFF, 0).unwrap_err(), CompileError::Port(PortError::UnknownPort(sid(1, 0))));
}

#[test]
fn rebinding_a_stream_is_duplicate_port() {
    let f = Flow {
        steps: vec![
            prim(1, Op::InputDynamic { down: sid(1, 0) }),
            prim(2, Op::InputDynamic { down: sid(1, 0) }),
            prim(3, Op::OutputDynamic { up: sid(1, 0) }),
        ],
        roots: vec![0, 1, 2],
    };
    assert_eq!(compile(&f, slot(0, 1), OFF, 0).unwrap_err(), CompileError::Port(PortError::DuplicatePort(sid(1, 0))));
}

fn wide() -> Flow {
    Flow {
        steps: vec![
            prim(1, Op::InputPartitioned { down: sid(1, 0) }),
            prim(2, Op::Branch { up: sid(1, 0), trues: sid(2, 0), falses: sid(2, 1) }),
            prim(3, Op::FlatMapBatch { up: sid(2, 0), down: sid(3, 0) }),
            prim(4, Op::Merge { ups: vec![sid(3, 0), sid(2, 1)], down: sid(4, 0) }),
            prim(5, Op::Redistribute { up: sid(4, 0), down: sid(5, 0) }),
            prim(6, Op::StatefulBatch { up: sid(5, 0), down: sid(6, 0) }),
            prim(7, Op::InspectDebug { up: sid(6, 0), down: sid(7, 0) }),
            prim(8, Op::OutputPartitioned { up: sid(7, 0) }),
        ],
        roots: vec![0, 1, 2, 3, 4, 5, 6, 7],
    }
}

fn st(op: usize, output: usize) -> Stream {
    Stream { op, output }
}

#[test]
fn wiring_without_recovery_probes_the_clocks() {
    let g = compile(&wide(), slot(0, 1), OFF, 3).unwrap();
    assert_eq!(g.ops.len(), 10);
    assert_eq!(g.resume_epoch, 3);
    assert_eq!(g.ops[3].kind, OpKind::Merge);
    assert_eq!(g.ops[3].ups, vec![st(2, 0), st(1, 1)]);
    assert_eq!(g.ops[8].kind, OpKind::Concatenate);
    assert_eq!(g.ops[8].ups, vec![st(6, 1), st(7, 0)]);
    assert_eq!(g.ops[9].kind, OpKind::Probe);
    assert_eq!(g.ops[9].ups, vec![st(8, 0)]);
}

#[test]
fn wiring_with_recovery_runs_the_pipeline() {
    let g = compile(&wide(), slot(0, 1), Recovery { on: true, immediate: true }, 0).unwrap();
    assert_eq!(g.ops.len(), 16);
    assert_eq!(g.ops[8].ups, vec![st(0, 1), st(5, 1), st(7, 1)]);
    let kinds: Vec<OpKind> = g.ops[8..].iter().map(|b| b.kind).collect();
    assert_eq!(
        kinds,
        vec![
            OpKind::Concatenate,
            OpKind::CompactSnapshots,
            OpKind::DurableBackup { immediate: true },
            OpKind::Broadcast,
            OpKind::FrontierSegment,
            OpKind::DurableBackup { immediate: true },
            OpKind::CompactFrontiers,
            OpKind::Probe,
        ]
    );
    for p in 9..16 {
        assert_eq!(g.ops[p].ups, vec![st(p - 1, 0)]);
    }
}

#[test]
fn every_worker_builds_the_same_topology() {
    let rec = Recovery { on: true, immediate: false };
    let base = compile(&wide(), slot(0, 4), rec, 0).unwrap();
    for i in 1..4 {
        let g = compile(&wide(), slot(i, 4), rec, 0).unwrap();
        assert_eq!(g.slot, slot(i, 4));
        assert_eq!(g.ops.len(), base.ops.len());
        for p in 0..g.ops.len() {
            assert_eq!(g.ops[p].kind, base.ops[p].kind);
            assert_eq!(g.ops[p].step, base.ops[p].step);
            assert_eq!(g.ops[p].ups, base.ops[p].ups);
        }
    }
}

#[test]
fn production_dataflow_follows_the_store() {
    let store = StateStore::new(true, false, true, 2);
    let g = build_production_dataflow(&wide(), slot(1, 2), &store).unwrap();
    assert_eq!(g.ops.len(), 16);
    assert_eq!(g.ops[10].kind, OpKind::DurableBackup { immediate: false });
    assert_eq!(g.resume_epoch, 0);
    let off = StateStore::new(false, false, false, 0);
    assert_eq!(build_production_dataflow(&wide(), slot(0, 1), &off).unwrap().ops.len(), 10);
}
