use vstd::prelude::*;

verus! {

/// A fragment of one operator's state, taken at the end of an epoch.
#[derive(Clone, Debug)]
pub struct Snapshot {
    pub step: u64,
    pub epoch: u64,
    pub state: Vec<u8>,
}

/// Why the backup target did not take a segment.
#[derive(Clone, Copy, Debug, PartialEq, Eq, Structural)]
pub enum BackupFailure {
    /// The upload may succeed if tried again later.
    Retryable,
    /// The upload cannot succeed.
    Fatal,
}

/// Why an epoch could not be made durable. In each case the recorded
/// frontier stays where it was.
#[derive(Clone, Copy, Debug, PartialEq, Eq, Structural)]
pub enum RecoveryError {
    /// Recovery is off, or no backup target is configured.
    Disabled,
    /// The snapshot segment of the epoch was not uploaded.
    SnapshotBackup(BackupFailure),
    /// The frontier segment of the epoch was not uploaded.
    FrontierBackup(BackupFailure),
}

/// Where execution resumes: the number of the execution and its epoch.
#[derive(Clone, Copy, Debug, PartialEq, Eq, Structural)]
pub struct ResumeFrom {
    pub execution: u64,
    pub epoch: u64,
}

/// The epoch a worker starts from when no frontier was ever recorded.
pub const INITIAL_EPOCH: u64 = 0;

/// The persisted snapshots and recovery frontier of one worker. Both are
/// append-only: a snapshot enters only once its segment is backed up, and
/// the frontier only moves forward, once the frontier segment is backed up.
pub struct StateStore {
    recovery_on: bool,
    immediate: bool,
    has_backup: bool,
    execution: u64,
    snapshots: Vec<Snapshot>,
    frontier: Option<u64>,
}

/// The snapshot records as (step, epoch, state) values.
pub open spec fn snaps_view(v: Seq<Snapshot>) -> Seq<(u64, u64, Seq<u8>)> {
    v.map_values(|s: Snapshot| (s.step, s.epoch, s.state@))
}

/// The records of `epoch` among `records`, in order: the segment that
/// compaction writes for it.
pub open spec fn segment_of(records: Seq<(u64, u64, Seq<u8>)>, epoch: u64) -> Seq<(u64, u64, Seq<u8>)> {
    records.filter(|r: (u64, u64, Seq<u8>)| r.1 == epoch)
}

/// The frontier after a frontier record for `epoch` is compacted: the
/// latest epoch made durable.
pub open spec fn advance(frontier: Option<u64>, epoch: u64) -> Option<u64> {
    match frontier {
        Some(f) => Some(if f < epoch { epoch } else { f }),
        None => Some(epoch),
    }
}

pub open spec fn resume_epoch_of(frontier: Option<u64>) -> u64 {
    match frontier {
        Some(f) => f,
        None => INITIAL_EPOCH,
    }
}

/// The state of the last snapshot of `step` no later than `epoch`.
pub open spec fn latest_state(snaps: Seq<(u64, u64, Seq<u8>)>, step: u64, epoch: u64) -> Option<Seq<u8>>
    decreases snaps.len(),
{
    if snaps.len() == 0 {
        None
    } else if snaps.last().0 == step && snaps.last().1 <= epoch {
        Some(snaps.last().2)
    } else {
        latest_state(snaps.drop_last(), step, epoch)
    }
}

proof fn lemma_segment_push(records: Seq<(u64, u64, Seq<u8>)>, x: (u64, u64, Seq<u8>), epoch: u64)
    ensures
        segment_of(records.push(x), epoch) == (if x.1 == epoch {
            segment_of(records, epoch).push(x)
        } else {
            segment_of(records, epoch)
        }),
{
    reveal(Seq::filter);
    assert(records.push(x).drop_last() =~= records);
}

fn copy_bytes(b: &Vec<u8>) -> (r: Vec<u8>)
    ensures
        r@ == b@,
{
    let mut r: Vec<u8> = Vec::new();
    let mut k: usize = 0;
    while k < b.len()
        invariant
            k <= b@.len(),
            r@ == b@.subrange(0, k as int),
        decreases b@.len() - k,
    {
        r.push(b[k]);
        k = k + 1;
        assert(r@ =~= b@.subrange(0, k as int));
    }
    assert(b@.subrange(0, k as int) =~= b@);
    r
}

fn copy_snapshot(s: &Snapshot) -> (r: Snapshot)
    ensures
        r.step == s.step,
        r.epoch == s.epoch,
        r.state@ == s.state@,
{
    Snapshot { step: s.step, epoch: s.epoch, state: copy_bytes(&s.state) }
}

/// Compaction: the records of `epoch`, in order, as one segment.
pub fn compact_snapshots(records: &Vec<Snapshot>, epoch: u64) -> (r: Vec<Snapshot>)
    ensures
        snaps_view(r@) == segment_of(snaps_view(records@), epoch),
{
    let mut out: Vec<Snapshot> = Vec::new();
    let mut k: usize = 0;
    while k < records.len()
        invariant
            k <= records@.len(),
            snaps_view(out@) == segment_of(snaps_view(records@.subrange(0, k as int)), epoch),
        decreases records@.len() - k,
    {
        let ghost before = out@;
        let ghost prefix = records@.subrange(0, k as int);
        let ghost next = records@.subrange(0, k as int + 1);
        proof {
            assert(snaps_view(next) =~= snaps_view(prefix).push(snaps_view(next).last()));
            lemma_segment_push(snaps_view(prefix), snaps_view(next).last(), epoch);
        }
        if records[k].epoch == epoch {
            out.push(copy_snapshot(&records[k]));
            assert(snaps_view(out@) =~= snaps_view(before).push(snaps_view(next).last()));
        }
        k = k + 1;
    }
    assert(records@.subrange(0, k as int) =~= records@);
    out
}

/// What a run of the durability pipeline for `epoch` on `records` does to
/// a store, given the outcome of the two uploads.
pub open spec fn committed(
    before: StateStore,
    after: StateStore,
    epoch: u64,
    records: Seq<(u64, u64, Seq<u8>)>,
    snapshot_upload: Result<(), BackupFailure>,
    frontier_upload: Result<(), BackupFailure>,
    r: Result<(), RecoveryError>,
) -> bool {
    &&& after.recovery_on_spec() == before.recovery_on_spec()
    &&& after.immediate_spec() == before.immediate_spec()
    &&& after.has_backup_spec() == before.has_backup_spec()
    &&& after.execution_spec() == before.execution_spec()
    &&& if !(before.recovery_on_spec() && before.has_backup_spec()) {
        &&& r == Err::<(), RecoveryError>(RecoveryError::Disabled)
        &&& after.snapshots_spec() == before.snapshots_spec()
        &&& after.frontier_spec() == before.frontier_spec()
    } else {
        match snapshot_upload {
            Err(f) => {
                &&& r == Err::<(), RecoveryError>(RecoveryError::SnapshotBackup(f))
                &&& after.snapshots_spec() == before.snapshots_spec()
                &&& after.frontier_spec() == before.frontier_spec()
            },
            Ok(_) => {
                &&& after.snapshots_spec() == before.snapshots_spec() + segment_of(records, epoch)
                &&& match frontier_upload {
                    Err(f) => {
                        &&& r == Err::<(), RecoveryError>(RecoveryError::FrontierBackup(f))
                        &&& after.frontier_spec() == before.frontier_spec()
                    },
                    Ok(_) => {
                        &&& r == Ok::<(), RecoveryError>(())
                        &&& after.frontier_spec() == advance(before.frontier_spec(), epoch)
                    },
                }
            },
        }
    }
}

/// Durability comes before progress: when either upload of an epoch
/// fails, the recorded frontier, and so the epoch a restart resumes from,
/// stays where it was; whenever the frontier moves, the epoch's snapshot
/// segment was made durable first.
pub proof fn law_durability_order(
    before: StateStore,
    after: StateStore,
    epoch: u64,
    records: Seq<(u64, u64, Seq<u8>)>,
    snapshot_upload: Result<(), BackupFailure>,
    frontier_upload: Result<(), BackupFailure>,
    r: Result<(), RecoveryError>,
)
    requires
        committed(before, after, epoch, records, snapshot_upload, frontier_upload, r),
    ensures
        snapshot_upload is Err || frontier_upload is Err ==> after.frontier_spec() == before.frontier_spec()
            && resume_epoch_of(after.frontier_spec()) == resume_epoch_of(before.frontier_spec()),
        after.frontier_spec() != before.frontier_spec() ==> r is Ok
            && after.snapshots_spec() == before.snapshots_spec() + segment_of(records, epoch),
{
}

/// Replaying the pipeline for the same epoch with no new records, after it
/// succeeded once, changes neither the snapshots nor the frontier.
pub proof fn law_replay_idempotent(
    s0: StateStore,
    s1: StateStore,
    s2: StateStore,
    epoch: u64,
    records: Seq<(u64, u64, Seq<u8>)>,
    r1: Result<(), RecoveryError>,
    r2: Result<(), RecoveryError>,
)
    requires
        committed(s0, s1, epoch, records, Ok(()), Ok(()), r1),
        r1 is Ok,
        committed(s1, s2, epoch, Seq::empty(), Ok(()), Ok(()), r2),
    ensures
        s2.frontier_spec() == s1.frontier_spec(),
        s2.snapshots_spec() == s1.snapshots_spec(),
        r2 is Ok,
{
    reveal(Seq::filter);
    assert(segment_of(Seq::empty(), epoch) =~= Seq::empty());
    assert(s1.snapshots_spec() + Seq::<(u64, u64, Seq<u8>)>::empty() =~= s1.snapshots_spec());
}

impl StateStore {
    pub closed spec fn recovery_on_spec(&self) -> bool {
        self.recovery_on
    }

    pub closed spec fn immediate_spec(&self) -> bool {
        self.immediate
    }

    pub closed spec fn has_backup_spec(&self) -> bool {
        self.has_backup
    }

    pub closed spec fn execution_spec(&self) -> u64 {
        self.execution
    }

    /// The snapshots made durable, in the order they were backed up.
    pub closed spec fn snapshots_spec(&self) -> Seq<(u64, u64, Seq<u8>)> {
        snaps_view(self.snapshots@)
    }

    /// The latest epoch whose frontier record was backed up, if any.
    pub closed spec fn frontier_spec(&self) -> Option<u64> {
        self.frontier
    }

    /// A store with nothing recorded yet, for execution number `execution`.
    pub fn new(recovery_on: bool, immediate: bool, has_backup: bool, execution: u64) -> (r: StateStore)
        ensures
            r.recovery_on_spec() == recovery_on,
            r.immediate_spec() == immediate,
            r.has_backup_spec() == has_backup,
            r.execution_spec() == execution,
            r.snapshots_spec() == Seq::<(u64, u64, Seq<u8>)>::empty(),
            r.frontier_spec() == None::<u64>,
    {
        let r = StateStore { recovery_on, immediate, has_backup, execution, snapshots: Vec::new(), frontier: None };
        assert(snaps_view(r.snapshots@) =~= Seq::empty());
        r
    }

    pub fn recovery_on(&self) -> (r: bool)
        ensures
            r == self.recovery_on_spec(),
    {
        self.recovery_on
    }

    pub fn immediate_snapshot(&self) -> (r: bool)
        ensures
            r == self.immediate_spec(),
    {
        self.immediate
    }

    /// Where to resume: this execution, at the recorded frontier, or at
    /// the initial epoch when none was recorded.
    pub fn resume_from(&self) -> (r: ResumeFrom)
        ensures
            r.execution == self.execution_spec(),
            r.epoch == resume_epoch_of(self.frontier_spec()),
    {
        match self.frontier {
            Some(f) => ResumeFrom { execution: self.execution, epoch: f },
            None => ResumeFrom { execution: self.execution, epoch: INITIAL_EPOCH },
        }
    }

    /// The state that operator `step` resumes from: that of its last
    /// durable snapshot no later than the resume epoch.
    pub fn hydrate(&self, step: u64) -> (r: Option<Vec<u8>>)
        ensures
            match r {
                Some(v) => latest_state(self.snapshots_spec(), step, resume_epoch_of(self.frontier_spec())) == Some(v@),
                None => latest_state(self.snapshots_spec(), step, resume_epoch_of(self.frontier_spec())) == None::<Seq<u8>>,
            },
    {
        let epoch = self.resume_from().epoch;
        assert(self.snapshots@.subrange(0, self.snapshots@.len() as int) =~= self.snapshots@);
        let mut k: usize = self.snapshots.len();
        while k > 0
            invariant
                k <= self.snapshots@.len(),
                epoch == resume_epoch_of(self.frontier_spec()),
                latest_state(snaps_view(self.snapshots@), step, epoch)
                    == latest_state(snaps_view(self.snapshots@.subrange(0, k as int)), step, epoch),
            decreases k,
        {
            let ghost pre = self.snapshots@.subrange(0, k as int);
            assert(snaps_view(pre).drop_last() =~= snaps_view(self.snapshots@.subrange(0, k - 1)));
            let s = &self.snapshots[k - 1];
            assert(snaps_view(pre).last() == (s.step, s.epoch, s.state@));
            if s.step == step && s.epoch <= epoch {
                let v = copy_bytes(&s.state);
                return Some(v);
            }
            k = k - 1;
        }
        assert(snaps_view(self.snapshots@.subrange(0, 0)) =~= Seq::empty());
        None
    }

    /// Runs the durability pipeline for `epoch` on `records`: compaction,
    /// backup of the snapshot segment (whose upload gave
    /// `snapshot_upload`), broadcast, frontier segment, backup of that
    /// segment (whose upload gave `frontier_upload`) and frontier
    /// compaction. The segment enters the store only once uploaded, and the
    /// frontier moves only once both uploads succeeded; a failed stage
    /// ends the epoch with its error.
    pub fn commit_epoch(
        &mut self,
        epoch: u64,
        records: &Vec<Snapshot>,
        snapshot_upload: Result<(), BackupFailure>,
        frontier_upload: Result<(), BackupFailure>,
    ) -> (r: Result<(), RecoveryError>)
        ensures
            committed(*old(self), *final(self), epoch, snaps_view(records@), snapshot_upload, frontier_upload, r),
    {
        if !(self.recovery_on && self.has_backup) {
            return Err(RecoveryError::Disabled);
        }
        let mut segment = compact_snapshots(records, epoch);
        match snapshot_upload {
            Err(f) => return Err(RecoveryError::SnapshotBackup(f)),
            Ok(()) => {},
        }
        let ghost before = self.snapshots@;
        self.snapshots.append(&mut segment);
        assert(snaps_view(self.snapshots@) =~= snaps_view(before) + segment_of(snaps_view(records@), epoch));
        match frontier_upload {
            Err(f) => return Err(RecoveryError::FrontierBackup(f)),
            Ok(()) => {},
        }
        self.frontier = match self.frontier {
            Some(f) => Some(if f < epoch { epoch } else { f }),
            None => Some(epoch),
        };
        Ok(())
    }
}

} // verus!
