use vstd::prelude::*;

verus! {

/// One captured filenode read: the repository it came from, the per-file
/// history key that was looked up, and the metadata payload that the lookup
/// returned. Records are created only for successful lookups and are never
/// mutated afterwards.
pub struct FilenodeAccessRecord {
    pub repo: u64,
    pub key: Vec<u8>,
    pub payload: Vec<u8>,
}

/// Mathematical model of a [`FilenodeAccessRecord`].
pub ghost struct RecordModel {
    pub repo: u64,
    pub key: Seq<u8>,
    pub payload: Seq<u8>,
}

impl View for FilenodeAccessRecord {
    type V = RecordModel;

    open spec fn view(&self) -> RecordModel {
        RecordModel { repo: self.repo, key: self.key@, payload: self.payload@ }
    }
}

/// What a filenode lookup can come back with: the metadata payload, a
/// definitive miss, or a store failure whose cause is carried unmodified.
pub enum LookupResult {
    Found(Vec<u8>),
    NotFound,
    LookupError(Vec<u8>),
}

/// Mathematical model of a [`LookupResult`].
pub ghost enum LookupResultModel {
    Found(Seq<u8>),
    NotFound,
    LookupError(Seq<u8>),
}

impl View for LookupResult {
    type V = LookupResultModel;

    open spec fn view(&self) -> LookupResultModel {
        match self {
            LookupResult::Found(payload) => LookupResultModel::Found(payload@),
            LookupResult::NotFound => LookupResultModel::NotFound,
            LookupResult::LookupError(cause) => LookupResultModel::LookupError(cause@),
        }
    }
}

/// How one repository's warmup run ended: warmed, or failed with the causal
/// error. Persistence of the snapshot is gated on this outcome.
pub enum WarmupOutcome {
    Warmed,
    WarmupFailed(Vec<u8>),
}

/// Mathematical model of a [`WarmupOutcome`].
pub ghost enum WarmupOutcomeModel {
    Warmed,
    WarmupFailed(Seq<u8>),
}

impl View for WarmupOutcome {
    type V = WarmupOutcomeModel;

    open spec fn view(&self) -> WarmupOutcomeModel {
        match self {
            WarmupOutcome::Warmed => WarmupOutcomeModel::Warmed,
            WarmupOutcome::WarmupFailed(cause) => WarmupOutcomeModel::WarmupFailed(cause@),
        }
    }
}

/// Byte-for-byte copy of a byte vector.
pub fn clone_bytes(v: &Vec<u8>) -> (r: Vec<u8>)
    ensures
        r@ == v@,
{
    let mut out: Vec<u8> = Vec::new();
    let mut i: usize = 0;
    while i < v.len()
        invariant
            i <= v.len(),
            out@ == v@.take(i as int),
        decreases v.len() - i,
    {
        out.push(v[i]);
        proof {
            assert(v@.take(i + 1) =~= v@.take(i as int).push(v@[i as int]));
        }
        i = i + 1;
    }
    proof {
        assert(v@.take(v.len() as int) =~= v@);
    }
    out
}

} // verus!
