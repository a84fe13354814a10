use vstd::prelude::*;

use crate::record::clone_bytes;
use crate::store::bytes_eq;

verus! {

/// Where one repository's snapshot lands inside the process-wide location
/// choice: a file under a shared directory, or the repository's own blob
/// store under its well-known "most recent snapshot" entry.
pub enum SinkKey {
    SharedFile { dir: Vec<u8>, repo: u64 },
    BlobEntry { repo: u64 },
}

/// Mathematical model of a [`SinkKey`].
pub ghost enum SinkKeyModel {
    SharedFile { dir: Seq<u8>, repo: u64 },
    BlobEntry { repo: u64 },
}

impl View for SinkKey {
    type V = SinkKeyModel;

    open spec fn view(&self) -> SinkKeyModel {
        match self {
            SinkKey::SharedFile { dir, repo } => SinkKeyModel::SharedFile {
                dir: dir@,
                repo: *repo,
            },
            SinkKey::BlobEntry { repo } => SinkKeyModel::BlobEntry { repo: *repo },
        }
    }
}

/// Whether two sink keys name the same location entry.
pub fn sink_key_eq(a: &SinkKey, b: &SinkKey) -> (r: bool)
    ensures
        r == (a@ == b@),
{
    match (a, b) {
        (SinkKey::SharedFile { dir: da, repo: ra }, SinkKey::SharedFile { dir: db, repo: rb }) => {
            bytes_eq(da, db) && *ra == *rb
        },
        (SinkKey::BlobEntry { repo: ra }, SinkKey::BlobEntry { repo: rb }) => *ra == *rb,
        _ => false,
    }
}

/// The location contents that a history of whole-entry writes leaves behind:
/// the last write to each key wins, and nothing else is observable.
pub open spec fn as_map(history: Seq<(SinkKeyModel, Seq<u8>)>) -> Map<SinkKeyModel, Seq<u8>>
    decreases history.len(),
{
    if history.len() == 0 {
        Map::empty()
    } else {
        as_map(history.drop_last()).insert(history.last().0, history.last().1)
    }
}

/// Model of the persistence sinks, as the full history of committed writes.
/// Each write replaces one key's entry wholly (write-then-replace for a
/// shared file, last-writer-wins for a blob entry), so the observable
/// contents are [`as_map`] of the history: never a concatenation, never a
/// partial file.
pub struct SinkState {
    log: Vec<(SinkKey, Vec<u8>)>,
}

impl SinkState {
    /// Every write committed so far, in order.
    pub closed spec fn history(self) -> Seq<(SinkKeyModel, Seq<u8>)> {
        self.log@.map_values(|p: (SinkKey, Vec<u8>)| (p.0@, p.1@))
    }

    /// The observable contents: the latest write to each key.
    pub open spec fn contents(self) -> Map<SinkKeyModel, Seq<u8>> {
        as_map(self.history())
    }

    pub fn new() -> (s: SinkState)
        ensures
            s.history() == Seq::<(SinkKeyModel, Seq<u8>)>::empty(),
    {
        let s = SinkState { log: Vec::new() };
        proof {
            assert(s.history() =~= Seq::<(SinkKeyModel, Seq<u8>)>::empty());
        }
        s
    }

    /// Commit one whole-entry write.
    pub fn write(&mut self, key: SinkKey, bytes: Vec<u8>)
        ensures
            final(self).history() == old(self).history().push((key@, bytes@)),
            final(self).contents() == old(self).contents().insert(key@, bytes@),
    {
        let ghost before = self.history();
        self.log.push((key, bytes));
        proof {
            assert(self.history() =~= before.push((key@, bytes@)));
            assert(self.history().drop_last() =~= before);
        }
    }

    /// The latest bytes written to a key, if any were.
    pub fn read(&self, key: &SinkKey) -> (r: Option<Vec<u8>>)
        ensures
            match r {
                Some(bytes) => self.contents().contains_key(key@) && bytes@
                    == self.contents()[key@],
                None => !self.contents().contains_key(key@),
            },
    {
        let mut i: usize = self.log.len();
        proof {
            assert(self.history().take(i as int) =~= self.history());
        }
        while i > 0
            invariant
                i <= self.log@.len(),
                self.history().len() == self.log@.len(),
                as_map(self.history()).contains_key(key@) == as_map(
                    self.history().take(i as int),
                ).contains_key(key@),
                as_map(self.history()).contains_key(key@) ==> as_map(
                    self.history().take(i as int),
                )[key@] == as_map(self.history())[key@],
            decreases i,
        {
            let entry_key = &self.log[i - 1].0;
            proof {
                assert(self.history().take(i as int).drop_last() =~= self.history().take(i - 1));
                assert(self.history().take(i as int).last() == self.history()[i - 1]);
            }
            if sink_key_eq(entry_key, key) {
                return Some(clone_bytes(&self.log[i - 1].1));
            }
            i = i - 1;
        }
        proof {
            assert(self.history().take(0).len() == 0);
        }
        None
    }

    /// How many writes the history holds.
    pub fn write_count(&self) -> (n: usize)
        ensures
            n == self.history().len(),
    {
        self.log.len()
    }
}

/// Idempotent overwrite: two sequential commits to the same key leave the
/// location holding exactly the later bytes — the same observable contents
/// as the later commit alone.
pub proof fn lemma_idempotent_overwrite(
    history: Seq<(SinkKeyModel, Seq<u8>)>,
    key: SinkKeyModel,
    first: Seq<u8>,
    second: Seq<u8>,
)
    ensures
        as_map(history.push((key, first)).push((key, second))) == as_map(
            history.push((key, second)),
        ),
        as_map(history.push((key, first)).push((key, second)))[key] == second,
{
    let twice = history.push((key, first)).push((key, second));
    assert(twice.drop_last() =~= history.push((key, first)));
    assert(history.push((key, first)).drop_last() =~= history);
    assert(history.push((key, second)).drop_last() =~= history);
    assert(twice.last() == (key, second));
    assert(history.push((key, first)).last() == (key, first));
    assert(history.push((key, second)).last() == (key, second));
    assert(as_map(twice) == as_map(history.push((key, first))).insert(key, second));
    assert(as_map(history.push((key, first))) == as_map(history).insert(key, first));
    assert(as_map(history.push((key, second))) == as_map(history).insert(key, second));
    assert(as_map(history).insert(key, first).insert(key, second) =~= as_map(history).insert(
        key,
        second,
    ));
}

} // verus!
