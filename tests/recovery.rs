use dataflow_core::compile::{compile, Recovery, WorkerSlot};
use dataflow_core::driver::{Action, Driver, DriverState};
use dataflow_core::flow::{Body, Flow, Op, Step};
use dataflow_core::stream_table::StreamId;
use dataflow_core::worker::hydrate_operators;
use dataflow_core::recovery::{compact_snapshots, BackupFailure, RecoveryError, ResumeFrom, Snapshot, StateStore};

fn snap(step: u64, epoch: u64, state: &[u8]) -> Snapshot {
    Snapshot { step, epoch, state: state.to_vec() }
}

fn store() -> StateStore {
    StateStore::new(true, true, true, 1)
}

#[test]
fn compaction_keeps_the_epoch_in_order() {
    let recs = vec![snap(1, 5, b"a"), snap(2, 4, b"b"), snap(3, 5, b"c")];
    let seg = compact_snapshots(&recs, 5);
    assert_eq!(seg.len(), 2);
    assert_eq!((seg[0].step, seg[1].step), (1, 3));
    assert_eq!(seg[1].state, b"c".to_vec());
}

#[test]
fn successful_epoch_advances_the_frontier() {
    let mut s = store();
    assert_eq!(s.resume_from(), ResumeFrom { execution: 1, epoch: 0 });
    assert_eq!(s.commit_epoch(3, &vec![snap(7, 3, b"x")], Ok(()), Ok(())), Ok(()));
    assert_eq!(s.resume_from().epoch, 3);
    assert_eq!(s.hydrate(7), Some(b"x".to_vec()));
    assert_eq!(s.hydrate(8), None);
}

#[test]
fn failed_snapshot_backup_keeps_the_last_frontier() {
    let mut s = store();
    s.commit_epoch(2, &vec![snap(7, 2, b"old")], Ok(()), Ok(())).unwrap();
    let r = s.commit_epoch(3, &vec![snap(7, 3, b"new")], Err(BackupFailure::Fatal), Ok(()));
    assert_eq!(r, Err(RecoveryError::SnapshotBackup(BackupFailure::Fatal)));
    assert_eq!(s.resume_from().epoch, 2);
    assert_eq!(s.hydrate(7), Some(b"old".to_vec()));
}

#[test]
fn failed_frontier_backup_keeps_the_last_frontier() {
    let mut s = store();
    s.commit_epoch(2, &vec![snap(7, 2, b"old")], Ok(()), Ok(())).unwrap();
    let r = s.commit_epoch(3, &vec![snap(7, 3, b"new")], Ok(()), Err(BackupFailure::Retryable));
    assert_eq!(r, Err(RecoveryError::FrontierBackup(BackupFailure::Retryable)));
    assert_eq!(s.resume_from().epoch, 2);
    assert_eq!(s.hydrate(7), Some(b"old".to_vec()));
    s.commit_epoch(3, &vec![], Ok(()), Ok(())).unwrap();
    assert_eq!(s.hydrate(7), Some(b"new".to_vec()));
}

#[test]
fn recovery_off_commits_nothing() {
    let mut s = StateStore::new(false, false, true, 0);
    assert_eq!(s.commit_epoch(1, &vec![snap(1, 1, b"x")], Ok(()), Ok(())), Err(RecoveryError::Disabled));
    assert_eq!(s.resume_from().epoch, 0);
    let mut t = StateStore::new(true, false, false, 0);
    assert_eq!(t.commit_epoch(1, &vec![], Ok(()), Ok(())), Err(RecoveryError::Disabled));
}

#[test]
fn replaying_an_epoch_changes_nothing() {
    let mut s = store();
    s.commit_epoch(4, &vec![snap(1, 4, b"q")], Ok(()), Ok(())).unwrap();
    s.commit_epoch(4, &vec![], Ok(()), Ok(())).unwrap();
    assert_eq!(s.resume_from().epoch, 4);
    assert_eq!(s.hydrate(1), Some(b"q".to_vec()));
}

#[test]
fn frontier_never_moves_back() {
    let mut s = store();
    s.commit_epoch(5, &vec![], Ok(()), Ok(())).unwrap();
    s.commit_epoch(2, &vec![], Ok(()), Ok(())).unwrap();
    assert_eq!(s.resume_from().epoch, 5);
}

#[test]
fn abort_stops_and_drops_every_graph() {
    let mut d = Driver::new(vec![0, 1]);
    d.install(2);
    assert_eq!(d.check(false, false, false), Action::Step);
    assert_eq!(d.check(true, false, false), Action::Stop);
    assert_eq!(d.state(), DriverState::Interrupted);
    assert_eq!(d.check(false, false, false), Action::Stop);
    assert_eq!(d.shutdown(), vec![0, 1, 2]);
    assert_eq!(d.state(), DriverState::Terminated);
    assert_eq!(d.shutdown(), Vec::<usize>::new());
}

#[test]
fn interrupt_or_drain_stops_the_driver() {
    let mut a = Driver::new(vec![]);
    assert_eq!(a.check(false, true, false), Action::Stop);
    let mut b = Driver::new(vec![]);
    assert_eq!(b.check(false, false, true), Action::Stop);
    assert_eq!(b.state(), DriverState::Interrupted);
}

#[test]
fn hydration_reads_state_up_to_the_frontier() {
    let sid = |step: u64| StreamId { step, port: 0 };
    let flow = Flow {
        steps: vec![
            Step { id: 1, body: Body::Primitive(Op::InputPartitioned { down: sid(1) }) },
            Step { id: 2, body: Body::Primitive(Op::StatefulBatch { up: sid(1), down: sid(2) }) },
            Step { id: 3, body: Body::Primitive(Op::OutputDynamic { up: sid(2) }) },
        ],
        roots: vec![0, 1, 2],
    };
    let mut s = store();
    s.commit_epoch(1, &vec![snap(2, 1, b"one"), snap(1, 1, b"src")], Ok(()), Ok(())).unwrap();
    s.commit_epoch(2, &vec![snap(2, 2, b"two")], Ok(()), Err(BackupFailure::Fatal)).unwrap_err();
    let g = compile(&flow, WorkerSlot { index: 0, count: 1 }, Recovery { on: true, immediate: true }, 1).unwrap();
    let h = hydrate_operators(&g, &s);
    assert_eq!(h.len(), 2);
    assert_eq!((h[0].step, h[0].state.clone()), (1, Some(b"src".to_vec())));
    assert_eq!((h[1].step, h[1].state.clone()), (2, Some(b"one".to_vec())));
}
