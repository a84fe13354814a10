use vstd::prelude::*;

use crate::channel::RecordChannel;
use crate::record::FilenodeAccessRecord;
use crate::record::LookupResult;
use crate::record::LookupResultModel;
use crate::record::RecordModel;
use crate::record::clone_bytes;

verus! {

/// First match, front to back, among the stored (key, payload) pairs.
pub open spec fn store_lookup(entries: Seq<(Seq<u8>, Seq<u8>)>, key: Seq<u8>) -> Option<Seq<u8>>
    decreases entries.len(),
{
    if entries.len() == 0 {
        None
    } else if entries[0].0 == key {
        Some(entries[0].1)
    } else {
        store_lookup(entries.skip(1), key)
    }
}

/// The lookup result the plain (undecorated) store hands back for a key.
pub open spec fn lookup_result_of(entries: Seq<(Seq<u8>, Seq<u8>)>, key: Seq<u8>)
    -> LookupResultModel {
    match store_lookup(entries, key) {
        Some(payload) => LookupResultModel::Found(payload),
        None => LookupResultModel::NotFound,
    }
}

/// In-memory filenode store: the per-file history keys a repository can
/// resolve, each with its metadata payload.
pub struct FilenodeStore {
    entries: Vec<(Vec<u8>, Vec<u8>)>,
}

impl FilenodeStore {
    /// The stored (key, payload) pairs.
    pub closed spec fn entries(self) -> Seq<(Seq<u8>, Seq<u8>)> {
        self.entries@.map_values(|p: (Vec<u8>, Vec<u8>)| (p.0@, p.1@))
    }

    pub fn new() -> (s: FilenodeStore)
        ensures
            s.entries() == Seq::<(Seq<u8>, Seq<u8>)>::empty(),
    {
        let s = FilenodeStore { entries: Vec::new() };
        proof {
            assert(s.entries() =~= Seq::<(Seq<u8>, Seq<u8>)>::empty());
        }
        s
    }

    /// Add one (key, payload) pair. Lookups return the first match, so a key
    /// inserted once is never shadowed by a later insert of the same key.
    pub fn insert(&mut self, key: Vec<u8>, payload: Vec<u8>)
        ensures
            final(self).entries() == old(self).entries().push((key@, payload@)),
    {
        let ghost before = self.entries();
        self.entries.push((key, payload));
        proof {
            assert(self.entries() =~= before.push((key@, payload@)));
        }
    }

    /// Resolve a key against the stored pairs.
    pub fn lookup(&self, key: &Vec<u8>) -> (r: LookupResult)
        ensures
            r@ == lookup_result_of(self.entries(), key@),
    {
        let mut i: usize = 0;
        proof {
            assert(self.entries().skip(0) =~= self.entries());
        }
        while i < self.entries.len()
            invariant
                i <= self.entries.len(),
                store_lookup(self.entries(), key@) == store_lookup(
                    self.entries().skip(i as int),
                    key@,
                ),
            decreases self.entries.len() - i,
        {
            let entry_key = &self.entries[i].0;
            if bytes_eq(entry_key, key) {
                proof {
                    assert(self.entries().skip(i as int)[0] == self.entries()[i as int]);
                }
                return LookupResult::Found(clone_bytes(&self.entries[i].1));
            }
            proof {
                assert(self.entries().skip(i as int)[0] == self.entries()[i as int]);
                assert(self.entries().skip(i as int).skip(1) =~= self.entries().skip(i + 1));
            }
            i = i + 1;
        }
        proof {
            assert(self.entries().skip(i as int).len() == 0);
        }
        LookupResult::NotFound
    }
}

/// Whether two byte vectors hold the same bytes.
pub fn bytes_eq(a: &Vec<u8>, b: &Vec<u8>) -> (r: bool)
    ensures
        r == (a@ == b@),
{
    if a.len() != b.len() {
        proof {
            assert(a@ != b@);
        }
        return false;
    }
    let mut i: usize = 0;
    while i < a.len()
        invariant
            i <= a.len(),
            a@.len() == b@.len(),
            forall|j: int| 0 <= j < i ==> a@[j] == b@[j],
        decreases a.len() - i,
    {
        if a[i] != b[i] {
            return false;
        }
        i = i + 1;
    }
    proof {
        assert(a@ =~= b@);
    }
    true
}

/// The record sequence a fresh channel of capacity `cap` holds after the
/// decorated store has served the given plan of lookups in order: each hit
/// appends a record carrying exactly the payload that was returned, until the
/// channel is saturated; misses append nothing.
pub open spec fn captured(
    repo: u64,
    entries: Seq<(Seq<u8>, Seq<u8>)>,
    plan: Seq<Seq<u8>>,
    cap: nat,
) -> Seq<RecordModel>
    decreases plan.len(),
{
    if plan.len() == 0 {
        Seq::empty()
    } else {
        let prev = captured(repo, entries, plan.drop_last(), cap);
        match store_lookup(entries, plan.last()) {
            Some(payload) => if prev.len() < cap {
                prev.push(RecordModel { repo, key: plan.last(), payload })
            } else {
                prev
            },
            None => prev,
        }
    }
}

/// Capture fidelity: every captured record belongs to a key the plan looked
/// up, and its payload is exactly the value the store returned for that key;
/// no record is fabricated or altered.
pub proof fn lemma_capture_fidelity(
    repo: u64,
    entries: Seq<(Seq<u8>, Seq<u8>)>,
    plan: Seq<Seq<u8>>,
    cap: nat,
)
    ensures
        forall|i: int|
            0 <= i < captured(repo, entries, plan, cap).len() ==> {
                let r = #[trigger] captured(repo, entries, plan, cap)[i];
                &&& r.repo == repo
                &&& plan.contains(r.key)
                &&& store_lookup(entries, r.key) == Some(r.payload)
            },
    decreases plan.len(),
{
    if plan.len() > 0 {
        lemma_capture_fidelity(repo, entries, plan.drop_last(), cap);
        let prev = captured(repo, entries, plan.drop_last(), cap);
        assert forall|i: int| 0 <= i < prev.len() implies plan.contains(#[trigger] prev[i].key) by {
            let j = choose|j: int| 0 <= j < plan.drop_last().len() && plan.drop_last()[j]
                == prev[i].key;
            assert(plan[j] == prev[i].key);
        }
        assert(plan[plan.len() - 1] == plan.last());
        assert(plan.contains(plan.last()));
    }
}

/// A successful lookup hands back a payload that stands in the store, under
/// the key that was asked for.
pub proof fn lemma_store_lookup_is_stored(entries: Seq<(Seq<u8>, Seq<u8>)>, key: Seq<u8>)
    ensures
        store_lookup(entries, key) matches Some(payload) ==> exists|j: int|
            0 <= j < entries.len() && (#[trigger] entries[j]).0 == key && entries[j].1 == payload,
    decreases entries.len(),
{
    if entries.len() > 0 && entries[0].0 != key {
        lemma_store_lookup_is_stored(entries.skip(1), key);
        if store_lookup(entries, key) is Some {
            let payload = store_lookup(entries, key).unwrap();
            let j = choose|j: int|
                0 <= j < entries.skip(1).len() && (#[trigger] entries.skip(1)[j]).0 == key
                    && entries.skip(1)[j].1 == payload;
            assert(entries[j + 1] == entries.skip(1)[j]);
        }
    }
}

/// The capture never grows past the channel's capacity, nor past the number
/// of reads the warmup performed: saturation drops records instead of
/// blocking or failing the read path.
pub proof fn lemma_captured_bounded(
    repo: u64,
    entries: Seq<(Seq<u8>, Seq<u8>)>,
    plan: Seq<Seq<u8>>,
    cap: nat,
)
    ensures
        captured(repo, entries, plan, cap).len() <= cap,
        captured(repo, entries, plan, cap).len() <= plan.len(),
    decreases plan.len(),
{
    if plan.len() > 0 {
        lemma_captured_bounded(repo, entries, plan.drop_last(), cap);
    }
}

/// Decoration transparency: what a recorded lookup promises to return is a
/// function of the wrapped store and the key alone, so any two decorators
/// over the same store — whatever their channels hold, however saturated or
/// closed — are promised the very same result for every key.
pub proof fn lemma_decoration_transparency(a: RecordingStore, b: RecordingStore, key: Seq<u8>)
    requires
        a.inner() == b.inner(),
    ensures
        lookup_result_of(a.inner().entries(), key) == lookup_result_of(b.inner().entries(), key),
{
}

/// The decorator's capture decision for one lookup, applicable to whatever
/// result a repository's store hands back: the result is returned unchanged
/// — a miss stays a miss, the store's error is propagated unmodified — and
/// only a successful payload is offered, best-effort, to the channel, as a
/// record carrying exactly the payload the caller receives.
pub fn record_lookup_result(
    repo: u64,
    key: &Vec<u8>,
    result: LookupResult,
    channel: &mut RecordChannel,
) -> (r: LookupResult)
    requires
        old(channel).wf(),
    ensures
        final(channel).wf(),
        r@ == result@,
        final(channel).cap() == old(channel).cap(),
        final(channel).is_closed() == old(channel).is_closed(),
        match result@ {
            LookupResultModel::Found(payload) => {
                if !old(channel).is_closed() && old(channel).contents().len() < old(
                    channel,
                ).cap() {
                    final(channel).contents() == old(channel).contents().push(
                        RecordModel { repo, key: key@, payload },
                    )
                } else {
                    final(channel).contents() == old(channel).contents()
                }
            },
            _ => final(channel).contents() == old(channel).contents(),
        },
{
    match &result {
        LookupResult::Found(payload) => {
            let record = FilenodeAccessRecord {
                repo,
                key: clone_bytes(key),
                payload: clone_bytes(payload),
            };
            let _ = channel.try_send(record);
        },
        _ => {},
    }
    result
}

/// Decorator over a repository's filenode store: forwards every lookup to the
/// wrapped store unchanged and, before returning a successful result, attempts
/// a non-blocking send of the captured record into the bounded channel.
pub struct RecordingStore<'a> {
    repo: u64,
    inner: &'a FilenodeStore,
    channel: RecordChannel,
}

impl<'a> RecordingStore<'a> {
    pub closed spec fn repo(self) -> u64 {
        self.repo
    }

    pub closed spec fn inner(self) -> FilenodeStore {
        *self.inner
    }

    pub closed spec fn channel(self) -> RecordChannel {
        self.channel
    }

    pub closed spec fn wf(self) -> bool {
        self.channel.wf()
    }

    pub fn new(repo: u64, inner: &'a FilenodeStore, channel: RecordChannel) -> (s: RecordingStore<
        'a,
    >)
        requires
            channel.wf(),
        ensures
            s.wf(),
            s.repo() == repo,
            s.inner() == *inner,
            s.channel() == channel,
    {
        RecordingStore { repo, inner, channel }
    }

    /// Decoration transparency and capture fidelity in one contract: the
    /// result is exactly what the wrapped store returns for this key,
    /// whatever the channel's state; and the channel either gains exactly the
    /// record of a successful result (when it is open and has room) or is
    /// left unchanged.
    pub fn lookup(&mut self, key: &Vec<u8>) -> (r: LookupResult)
        requires
            old(self).wf(),
        ensures
            final(self).wf(),
            r@ == lookup_result_of(old(self).inner().entries(), key@),
            final(self).repo() == old(self).repo(),
            final(self).inner() == old(self).inner(),
            final(self).channel().cap() == old(self).channel().cap(),
            final(self).channel().is_closed() == old(self).channel().is_closed(),
            match lookup_result_of(old(self).inner().entries(), key@) {
                LookupResultModel::Found(payload) => {
                    if !old(self).channel().is_closed() && old(self).channel().contents().len()
                        < old(self).channel().cap() {
                        final(self).channel().contents() == old(self).channel().contents().push(
                            RecordModel { repo: old(self).repo(), key: key@, payload },
                        )
                    } else {
                        final(self).channel().contents() == old(self).channel().contents()
                    }
                },
                _ => final(self).channel().contents() == old(self).channel().contents(),
            },
    {
        let result = self.inner.lookup(key);
        record_lookup_result(self.repo, key, result, &mut self.channel)
    }

    /// Tear the decorator down, handing the channel back so the builder can
    /// drain it.
    pub fn into_channel(self) -> (c: RecordChannel)
        requires
            self.wf(),
        ensures
            c == self.channel(),
            c.wf(),
    {
        self.channel
    }
}

} // verus!
