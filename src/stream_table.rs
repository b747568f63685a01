use vstd::prelude::*;

verus! {

/// Names one data channel: the step that produces it and the number of
/// the output port on that step.
#[derive(Clone, Copy, Debug, PartialEq, Eq, Structural)]
pub struct StreamId {
    pub step: u64,
    pub port: u64,
}

/// A concrete stream of the compiled graph: the position of the primitive
/// operator that produces it and the number of its output.
#[derive(Clone, Copy, Debug, PartialEq, Eq, Structural)]
pub struct Stream {
    pub op: usize,
    pub output: usize,
}

/// Why a port could not be bound or resolved.
#[derive(Clone, Copy, Debug, PartialEq, Eq, Structural)]
pub enum PortError {
    /// No producer has registered this stream yet.
    UnknownPort(StreamId),
    /// The stream was already bound by another producer.
    DuplicatePort(StreamId),
}

/// Registry from stream identifiers to the streams that produce them,
/// scoped to one compilation pass. Each identifier is bound at most once.
pub struct StreamTable {
    entries: Vec<(StreamId, Stream)>,
}

/// Resolving `ids[k..]` in order against `m`: the streams, or the first
/// identifier that is not bound.
pub open spec fn resolve_from(m: Map<StreamId, Stream>, ids: Seq<StreamId>, k: nat) -> Result<Seq<Stream>, PortError>
    decreases ids.len() - k,
{
    if k >= ids.len() {
        Ok(Seq::empty())
    } else if !m.contains_key(ids[k as int]) {
        Err(PortError::UnknownPort(ids[k as int]))
    } else {
        match resolve_from(m, ids, k + 1) {
            Ok(rest) => Ok(seq![m[ids[k as int]]] + rest),
            Err(e) => Err(e),
        }
    }
}

/// Binding `ids[k..]` in order, the `j`-th to output `j` of operator `op`:
/// the new map, or the first identifier that was already bound.
pub open spec fn bind_from(m: Map<StreamId, Stream>, ids: Seq<StreamId>, op: usize, k: nat) -> Result<Map<StreamId, Stream>, PortError>
    decreases ids.len() - k,
{
    if k >= ids.len() {
        Ok(m)
    } else if m.contains_key(ids[k as int]) {
        Err(PortError::DuplicatePort(ids[k as int]))
    } else {
        bind_from(m.insert(ids[k as int], Stream { op, output: k as usize }), ids, op, k + 1)
    }
}

/// Binding a sequence of identifiers succeeds exactly when none of them is
/// bound yet and no two of them are the same; otherwise it fails with
/// `DuplicatePort`. On success each is bound once, to its own output.
pub proof fn law_bind_once(m: Map<StreamId, Stream>, ids: Seq<StreamId>, op: usize, k: nat)
    requires
        k <= ids.len(),
        ids.len() <= usize::MAX,
    ensures
        bind_from(m, ids, op, k) is Ok <==> (forall|j: int| k <= j < ids.len() ==> !m.contains_key(#[trigger] ids[j]))
            && (forall|i: int, j: int| k <= i < j < ids.len() ==> ids[i] != ids[j]),
        bind_from(m, ids, op, k) is Err ==> bind_from(m, ids, op, k)->Err_0 is DuplicatePort,
        bind_from(m, ids, op, k) is Ok ==> forall|j: int| k <= j < ids.len()
            ==> (#[trigger] bind_from(m, ids, op, k)->Ok_0[ids[j]]) == (Stream { op, output: j as usize }),
    decreases ids.len() - k,
{
    if k < ids.len() {
        let id = ids[k as int];
        if !m.contains_key(id) {
            let m2 = m.insert(id, Stream { op, output: k as usize });
            law_bind_once(m2, ids, op, k + 1);
            if bind_from(m, ids, op, k) is Ok {
                assert forall|i: int, j: int| k <= i < j < ids.len() implies ids[i] != ids[j] by {
                    if i == k {
                        assert(m2.contains_key(ids[i]));
                    }
                }
            } else {
                if (forall|j: int| k <= j < ids.len() ==> !m.contains_key(#[trigger] ids[j]))
                    && (forall|i: int, j: int| k <= i < j < ids.len() ==> ids[i] != ids[j]) {
                    assert forall|j: int| k + 1 <= j < ids.len() implies !m2.contains_key(#[trigger] ids[j]) by {
                        assert(ids[k as int] != ids[j]);
                    }
                }
            }
            if bind_from(m, ids, op, k) is Ok {
                assert forall|j: int| k <= j < ids.len()
                    implies (#[trigger] bind_from(m, ids, op, k)->Ok_0[ids[j]]) == (Stream { op, output: j as usize }) by {
                    if j == k {
                        lemma_bind_keeps(m2, ids, op, k + 1, id);
                    }
                }
            }
        }
    }
}

proof fn lemma_bind_keeps(m: Map<StreamId, Stream>, ids: Seq<StreamId>, op: usize, k: nat, id: StreamId)
    requires
        m.contains_key(id),
        bind_from(m, ids, op, k) is Ok,
    ensures
        bind_from(m, ids, op, k)->Ok_0.contains_key(id),
        bind_from(m, ids, op, k)->Ok_0[id] == m[id],
    decreases ids.len() - k,
{
    if k < ids.len() {
        lemma_bind_keeps(m.insert(ids[k as int], Stream { op, output: k as usize }), ids, op, k + 1, id);
    }
}

/// Resolving a sequence of identifiers succeeds exactly when every one of
/// them is bound; otherwise it fails with `UnknownPort` naming the first
/// unbound one.
pub proof fn law_resolve_bound(m: Map<StreamId, Stream>, ids: Seq<StreamId>, k: nat)
    ensures
        resolve_from(m, ids, k) is Ok <==> forall|j: int| k <= j < ids.len() ==> m.contains_key(#[trigger] ids[j]),
        resolve_from(m, ids, k) is Err ==> exists|j: int| k <= j < ids.len()
            && resolve_from(m, ids, k) == Err::<Seq<Stream>, PortError>(PortError::UnknownPort(ids[j]))
            && !m.contains_key(#[trigger] ids[j]),
    decreases ids.len() - k,
{
    if k < ids.len() {
        law_resolve_bound(m, ids, k + 1);
        if !m.contains_key(ids[k as int]) {
            assert(!m.contains_key(ids[k as int]));
        }
    }
}

pub open spec fn keys_unique(e: Seq<(StreamId, Stream)>) -> bool {
    forall|i: int, j: int| 0 <= i < j < e.len() ==> e[i].0 != e[j].0
}

pub open spec fn entries_map(e: Seq<(StreamId, Stream)>) -> Map<StreamId, Stream>
    decreases e.len(),
{
    if e.len() == 0 {
        Map::empty()
    } else {
        entries_map(e.drop_last()).insert(e.last().0, e.last().1)
    }
}

proof fn lemma_entries_map_dom(e: Seq<(StreamId, Stream)>, id: StreamId)
    requires
        keys_unique(e),
    ensures
        entries_map(e).contains_key(id) <==> exists|i: int| 0 <= i < e.len() && e[i].0 == id,
        forall|i: int| 0 <= i < e.len() && e[i].0 == id ==> entries_map(e)[id] == e[i].1,
    decreases e.len(),
{
    if e.len() > 0 {
        let p = e.drop_last();
        assert(keys_unique(p));
        lemma_entries_map_dom(p, id);
        assert forall|i: int| 0 <= i < e.len() && e[i].0 == id implies entries_map(e)[id] == e[i].1 by {
            if i < e.len() - 1 {
                assert(p[i] == e[i]);
                assert(e[i].0 != e[e.len() - 1].0);
            }
        }
        if exists|i: int| 0 <= i < e.len() && e[i].0 == id {
            let i = choose|i: int| 0 <= i < e.len() && e[i].0 == id;
            if i < e.len() - 1 {
                assert(p[i] == e[i]);
            }
        }
        if id != e.last().0 {
            if entries_map(e).contains_key(id) {
                let i = choose|i: int| 0 <= i < p.len() && p[i].0 == id;
                assert(e[i].0 == id);
            }
        }
    }
}

proof fn lemma_resolve_prefix(m: Map<StreamId, Stream>, ids: Seq<StreamId>, k: nat)
    requires
        k <= ids.len(),
        forall|j: int| 0 <= j < k ==> m.contains_key(#[trigger] ids[j]),
    ensures
        forall|j: nat| j <= k ==> (#[trigger] resolve_from(m, ids, j)) == match resolve_from(m, ids, k) {
            Ok(rest) => Ok(Seq::new((k - j) as nat, |i: int| m[ids[j + i]]) + rest),
            Err(e) => Err::<Seq<Stream>, PortError>(e),
        },
    decreases k,
{
    assert forall|j: nat| j <= k implies (#[trigger] resolve_from(m, ids, j)) == match resolve_from(m, ids, k) {
        Ok(rest) => Ok(Seq::new((k - j) as nat, |i: int| m[ids[j + i]]) + rest),
        Err(e) => Err::<Seq<Stream>, PortError>(e),
    } by {
        lemma_resolve_step(m, ids, j, k);
    }
}

proof fn lemma_resolve_step(m: Map<StreamId, Stream>, ids: Seq<StreamId>, j: nat, k: nat)
    requires
        j <= k <= ids.len(),
        forall|i: int| 0 <= i < k ==> m.contains_key(#[trigger] ids[i]),
    ensures
        resolve_from(m, ids, j) == match resolve_from(m, ids, k) {
            Ok(rest) => Ok(Seq::new((k - j) as nat, |i: int| m[ids[j + i]]) + rest),
            Err(e) => Err::<Seq<Stream>, PortError>(e),
        },
    decreases k - j,
{
    if j == k {
        match resolve_from(m, ids, k) {
            Ok(rest) => {
                assert(Seq::new(0nat, |i: int| m[ids[j + i]]) + rest =~= rest);
            },
            Err(e) => {},
        }
    } else {
        lemma_resolve_step(m, ids, j + 1, k);
        assert(m.contains_key(ids[j as int]));
        match resolve_from(m, ids, k) {
            Ok(rest) => {
                assert(seq![m[ids[j as int]]] + (Seq::new((k - (j + 1)) as nat, |i: int| m[ids[(j + 1) + i]]) + rest)
                    =~= Seq::new((k - j) as nat, |i: int| m[ids[j + i]]) + rest);
            },
            Err(e) => {},
        }
    }
}

impl View for StreamTable {
    type V = Map<StreamId, Stream>;

    closed spec fn view(&self) -> Map<StreamId, Stream> {
        entries_map(self.entries@)
    }
}

impl StreamTable {
    pub closed spec fn wf(&self) -> bool {
        keys_unique(self.entries@)
    }

    /// An empty table.
    pub fn new() -> (r: StreamTable)
        ensures
            r.wf(),
            r@ == Map::<StreamId, Stream>::empty(),
    {
        StreamTable { entries: Vec::new() }
    }

    fn find(&self, id: StreamId) -> (r: Option<Stream>)
        requires
            self.wf(),
        ensures
            r == (if self@.contains_key(id) { Some(self@[id]) } else { None::<Stream> }),
    {
        let mut i: usize = 0;
        while i < self.entries.len()
            invariant
                self.wf(),
                i <= self.entries@.len(),
                forall|k: int| 0 <= k < i ==> self.entries@[k].0 != id,
            decreases self.entries@.len() - i,
        {
            if self.entries[i].0 == id {
                proof {
                    lemma_entries_map_dom(self.entries@, id);
                }
                return Some(self.entries[i].1);
            }
            i = i + 1;
        }
        proof {
            lemma_entries_map_dom(self.entries@, id);
        }
        None
    }

    /// The stream bound to `id`, or `UnknownPort` when none is.
    pub fn resolve(&self, id: StreamId) -> (r: Result<Stream, PortError>)
        requires
            self.wf(),
        ensures
            self@.contains_key(id) ==> r == Ok::<Stream, PortError>(self@[id]),
            !self@.contains_key(id) ==> r == Err::<Stream, PortError>(PortError::UnknownPort(id)),
    {
        match self.find(id) {
            Some(s) => Ok(s),
            None => Err(PortError::UnknownPort(id)),
        }
    }

    /// The streams bound to `ids`, in order, or `UnknownPort` for the first
    /// of them that is not bound.
    pub fn resolve_multi(&self, ids: &Vec<StreamId>) -> (r: Result<Vec<Stream>, PortError>)
        requires
            self.wf(),
        ensures
            match r {
                Ok(v) => resolve_from(self@, ids@, 0) == Ok::<Seq<Stream>, PortError>(v@),
                Err(e) => resolve_from(self@, ids@, 0) == Err::<Seq<Stream>, PortError>(e),
            },
    {
        let mut out: Vec<Stream> = Vec::new();
        let mut k: usize = 0;
        while k < ids.len()
            invariant
                self.wf(),
                k <= ids@.len(),
                forall|j: int| 0 <= j < k ==> self@.contains_key(#[trigger] ids@[j]),
                out@ == Seq::new(k as nat, |j: int| self@[ids@[j]]),
            decreases ids@.len() - k,
        {
            match self.resolve(ids[k]) {
                Ok(s) => out.push(s),
                Err(e) => {
                    proof {
                        lemma_resolve_prefix(self@, ids@, k as nat);
                    }
                    return Err(e);
                },
            }
            k = k + 1;
        }
        proof {
            lemma_resolve_prefix(self@, ids@, k as nat);
            let ghost r0 = resolve_from(self@, ids@, 0);
            assert(resolve_from(self@, ids@, k as nat) == Ok::<Seq<Stream>, PortError>(Seq::empty()));
            assert(out@ =~= Seq::new((k - 0) as nat, |i: int| self@[ids@[0 + i]]) + Seq::<Stream>::empty());
        }
        Ok(out)
    }

    /// Binds `ids`, in order, to the outputs of operator `op`, output `j`
    /// to the `j`-th; `DuplicatePort` for the first that is already bound.
    pub fn bind_outputs(&mut self, ids: &Vec<StreamId>, op: usize) -> (r: Result<(), PortError>)
        requires
            old(self).wf(),
        ensures
            final(self).wf(),
            match r {
                Ok(_) => bind_from(old(self)@, ids@, op, 0) == Ok::<Map<StreamId, Stream>, PortError>(final(self)@),
                Err(e) => bind_from(old(self)@, ids@, op, 0) == Err::<Map<StreamId, Stream>, PortError>(e),
            },
    {
        let mut k: usize = 0;
        while k < ids.len()
            invariant
                self.wf(),
                k <= ids@.len(),
                bind_from(old(self)@, ids@, op, 0) == bind_from(self@, ids@, op, k as nat),
            decreases ids@.len() - k,
        {
            let r = self.bind(ids[k], Stream { op, output: k });
            if r.is_err() {
                return r;
            }
            k = k + 1;
        }
        Ok(())
    }

    /// Binds `id` to `stream`; `DuplicatePort` when `id` is already bound,
    /// in which case the table is left as it was.
    pub fn bind(&mut self, id: StreamId, stream: Stream) -> (r: Result<(), PortError>)
        requires
            old(self).wf(),
        ensures
            final(self).wf(),
            old(self)@.contains_key(id) ==> r == Err::<(), PortError>(PortError::DuplicatePort(id))
                && final(self)@ == old(self)@,
            !old(self)@.contains_key(id) ==> r == Ok::<(), PortError>(())
                && final(self)@ == old(self)@.insert(id, stream),
    {
        match self.find(id) {
            Some(_) => Err(PortError::DuplicatePort(id)),
            None => {
                proof {
                    lemma_entries_map_dom(self.entries@, id);
                }
                self.entries.push((id, stream));
                proof {
                    let e = self.entries@;
                    assert(e.drop_last() =~= old(self).entries@);
                    assert forall|i: int, j: int| 0 <= i < j < e.len() implies e[i].0 != e[j].0 by {
                        if j == e.len() - 1 {
                            assert(old(self).entries@[i].0 != id);
                        }
                    }
                }
                Ok(())
            }
        }
    }
}

} // verus!
