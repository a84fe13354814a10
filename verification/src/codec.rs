use vstd::prelude::*;

use crate::record::FilenodeAccessRecord;
use crate::record::RecordModel;
use crate::snapshot::Snapshot;
use crate::snapshot::SnapshotModel;

verus! {

// Wire format of a persisted snapshot, self-describing and decodable by an
// independent reader: a fixed header of the repository identity and the
// record count, each as eight little-endian bytes, followed by the records
// in order. Each record is its repository identity, then its key and its
// payload, each preceded by its length as eight little-endian bytes.

/// The eight little-endian bytes of a 64-bit value.
pub open spec fn u64_le_bytes(x: u64) -> Seq<u8> {
    seq![
        (x & 0xff) as u8,
        ((x >> 8) & 0xff) as u8,
        ((x >> 16) & 0xff) as u8,
        ((x >> 24) & 0xff) as u8,
        ((x >> 32) & 0xff) as u8,
        ((x >> 40) & 0xff) as u8,
        ((x >> 48) & 0xff) as u8,
        ((x >> 56) & 0xff) as u8,
    ]
}

/// The 64-bit value read from eight little-endian bytes.
pub open spec fn u64_from_le(b: Seq<u8>) -> u64
    recommends
        b.len() == 8,
{
    (b[0] as u64) | ((b[1] as u64) << 8) | ((b[2] as u64) << 16) | ((b[3] as u64) << 24) | ((
    b[4] as u64) << 32) | ((b[5] as u64) << 40) | ((b[6] as u64) << 48) | ((b[7] as u64) << 56)
}

pub proof fn lemma_u64_le_round_trip(x: u64)
    ensures
        u64_le_bytes(x).len() == 8,
        u64_from_le(u64_le_bytes(x)) == x,
{
    assert((((x & 0xff) as u8) as u64) | ((((x >> 8) & 0xff) as u8) as u64) << 8 | ((((x >> 16)
        & 0xff) as u8) as u64) << 16 | ((((x >> 24) & 0xff) as u8) as u64) << 24 | ((((x >> 32)
        & 0xff) as u8) as u64) << 32 | ((((x >> 40) & 0xff) as u8) as u64) << 40 | ((((x >> 48)
        & 0xff) as u8) as u64) << 48 | ((((x >> 56) & 0xff) as u8) as u64) << 56 == x)
        by (bit_vector);
}

/// A record whose lengths the wire format can carry.
pub open spec fn record_wf(r: RecordModel) -> bool {
    &&& r.key.len() <= u64::MAX
    &&& r.payload.len() <= u64::MAX
}

/// A snapshot whose record count and record lengths the wire format can
/// carry. Every snapshot built from in-memory vectors satisfies this.
pub open spec fn snapshot_wf(s: SnapshotModel) -> bool {
    &&& s.records.len() <= u64::MAX
    &&& forall|i: int| 0 <= i < s.records.len() ==> record_wf(#[trigger] s.records[i])
}

pub open spec fn record_bytes(r: RecordModel) -> Seq<u8> {
    u64_le_bytes(r.repo) + u64_le_bytes(r.key.len() as u64) + r.key + u64_le_bytes(
        r.payload.len() as u64,
    ) + r.payload
}

pub open spec fn records_bytes(rs: Seq<RecordModel>) -> Seq<u8>
    decreases rs.len(),
{
    if rs.len() == 0 {
        Seq::empty()
    } else {
        record_bytes(rs[0]) + records_bytes(rs.skip(1))
    }
}

pub open spec fn snapshot_bytes(s: SnapshotModel) -> Seq<u8> {
    u64_le_bytes(s.repo) + u64_le_bytes(s.records.len() as u64) + records_bytes(s.records)
}

/// Read one 64-bit header field, returning it with the remaining bytes.
pub open spec fn take_u64(b: Seq<u8>) -> Option<(u64, Seq<u8>)> {
    if b.len() >= 8 {
        Some((u64_from_le(b.take(8)), b.skip(8)))
    } else {
        None
    }
}

/// Parse one record from the front of the bytes.
pub open spec fn parse_record(b: Seq<u8>) -> Option<(RecordModel, Seq<u8>)> {
    match take_u64(b) {
        Some((repo, b1)) => match take_u64(b1) {
            Some((key_len, b2)) => if b2.len() >= key_len {
                let key = b2.take(key_len as int);
                let b3 = b2.skip(key_len as int);
                match take_u64(b3) {
                    Some((payload_len, b4)) => if b4.len() >= payload_len {
                        Some(
                            (
                                RecordModel { repo, key, payload: b4.take(payload_len as int) },
                                b4.skip(payload_len as int),
                            ),
                        )
                    } else {
                        None
                    },
                    None => None,
                }
            } else {
                None
            },
            None => None,
        },
        None => None,
    }
}

/// Parse exactly `n` records from the front of the bytes.
pub open spec fn parse_records(b: Seq<u8>, n: nat) -> Option<(Seq<RecordModel>, Seq<u8>)>
    decreases n,
{
    if n == 0 {
        Some((Seq::empty(), b))
    } else {
        match parse_record(b) {
            Some((r, rest)) => match parse_records(rest, (n - 1) as nat) {
                Some((rs, rest2)) => Some((seq![r] + rs, rest2)),
                None => None,
            },
            None => None,
        }
    }
}

/// Decode a complete snapshot; trailing bytes are refused.
pub open spec fn decode_snapshot(b: Seq<u8>) -> Option<SnapshotModel> {
    match take_u64(b) {
        Some((repo, b1)) => match take_u64(b1) {
            Some((count, b2)) => match parse_records(b2, count as nat) {
                Some((records, rest)) => if rest.len() == 0 {
                    Some(SnapshotModel { repo, records })
                } else {
                    None
                },
                None => None,
            },
            None => None,
        },
        None => None,
    }
}

pub proof fn lemma_take_u64(x: u64, rest: Seq<u8>)
    ensures
        take_u64(u64_le_bytes(x) + rest) == Some((x, rest)),
{
    lemma_u64_le_round_trip(x);
    assert((u64_le_bytes(x) + rest).take(8) =~= u64_le_bytes(x));
    assert((u64_le_bytes(x) + rest).skip(8) =~= rest);
}

pub proof fn lemma_parse_record(r: RecordModel, rest: Seq<u8>)
    requires
        record_wf(r),
    ensures
        parse_record(record_bytes(r) + rest) == Some((r, rest)),
{
    let b = record_bytes(r) + rest;
    let after_repo = u64_le_bytes(r.key.len() as u64) + r.key + u64_le_bytes(
        r.payload.len() as u64,
    ) + r.payload + rest;
    assert(b =~= u64_le_bytes(r.repo) + after_repo);
    lemma_take_u64(r.repo, after_repo);
    let after_key_len = r.key + (u64_le_bytes(r.payload.len() as u64) + r.payload + rest);
    assert(after_repo =~= u64_le_bytes(r.key.len() as u64) + after_key_len);
    lemma_take_u64(r.key.len() as u64, after_key_len);
    assert((r.key.len() as u64) as int == r.key.len() as int);
    assert(after_key_len.take(r.key.len() as int) =~= r.key);
    let after_key = u64_le_bytes(r.payload.len() as u64) + (r.payload + rest);
    assert(after_key_len.skip(r.key.len() as int) =~= after_key);
    lemma_take_u64(r.payload.len() as u64, r.payload + rest);
    assert((r.payload.len() as u64) as int == r.payload.len() as int);
    assert((r.payload + rest).take(r.payload.len() as int) =~= r.payload);
    assert((r.payload + rest).skip(r.payload.len() as int) =~= rest);
}

pub proof fn lemma_parse_records(rs: Seq<RecordModel>, rest: Seq<u8>)
    requires
        forall|i: int| 0 <= i < rs.len() ==> record_wf(#[trigger] rs[i]),
    ensures
        parse_records(records_bytes(rs) + rest, rs.len()) == Some((rs, rest)),
    decreases rs.len(),
{
    if rs.len() == 0 {
        assert(records_bytes(rs) + rest =~= rest);
        assert(parse_records(rest, 0) == Some((Seq::<RecordModel>::empty(), rest)));
        assert(rs =~= Seq::<RecordModel>::empty());
    } else {
        let tail = rs.skip(1);
        assert(records_bytes(rs) + rest =~= record_bytes(rs[0]) + (records_bytes(tail) + rest));
        lemma_parse_record(rs[0], records_bytes(tail) + rest);
        lemma_parse_records(tail, rest);
        assert(seq![rs[0]] + tail =~= rs);
    }
}

/// Decoding inverts encoding: an independent reader recovers exactly the
/// snapshot that was written.
pub proof fn lemma_snapshot_round_trip(s: SnapshotModel)
    requires
        snapshot_wf(s),
    ensures
        decode_snapshot(snapshot_bytes(s)) == Some(s),
{
    let b = snapshot_bytes(s);
    let after_repo = u64_le_bytes(s.records.len() as u64) + records_bytes(s.records);
    assert(b =~= u64_le_bytes(s.repo) + after_repo);
    lemma_take_u64(s.repo, after_repo);
    assert(after_repo =~= u64_le_bytes(s.records.len() as u64) + (records_bytes(s.records)
        + Seq::<u8>::empty()));
    lemma_take_u64(s.records.len() as u64, records_bytes(s.records) + Seq::<u8>::empty());
    lemma_parse_records(s.records, Seq::<u8>::empty());
    assert((s.records.len() as u64) as nat == s.records.len());
}

/// Append the eight little-endian bytes of `x`.
fn push_u64_le(out: &mut Vec<u8>, x: u64)
    ensures
        final(out)@ == old(out)@ + u64_le_bytes(x),
{
    let ghost before = out@;
    out.push((x & 0xff) as u8);
    out.push(((x >> 8) & 0xff) as u8);
    out.push(((x >> 16) & 0xff) as u8);
    out.push(((x >> 24) & 0xff) as u8);
    out.push(((x >> 32) & 0xff) as u8);
    out.push(((x >> 40) & 0xff) as u8);
    out.push(((x >> 48) & 0xff) as u8);
    out.push(((x >> 56) & 0xff) as u8);
    proof {
        assert(out@ =~= before + u64_le_bytes(x));
    }
}

/// Append a copy of all of `b`.
fn push_bytes(out: &mut Vec<u8>, b: &Vec<u8>)
    ensures
        final(out)@ == old(out)@ + b@,
{
    let ghost before = out@;
    let mut i: usize = 0;
    while i < b.len()
        invariant
            i <= b.len(),
            out@ == before + b@.take(i as int),
        decreases b.len() - i,
    {
        out.push(b[i]);
        proof {
            assert(before + b@.take(i + 1) =~= (before + b@.take(i as int)).push(b@[i as int]));
        }
        i = i + 1;
    }
    proof {
        assert(before + b@.take(b@.len() as int) =~= before + b@);
    }
}

/// Append the wire form of one record.
fn encode_record(out: &mut Vec<u8>, r: &FilenodeAccessRecord)
    ensures
        final(out)@ == old(out)@ + record_bytes(r@),
{
    let ghost before = out@;
    push_u64_le(out, r.repo);
    push_u64_le(out, r.key.len() as u64);
    push_bytes(out, &r.key);
    push_u64_le(out, r.payload.len() as u64);
    push_bytes(out, &r.payload);
    proof {
        assert(out@ =~= before + record_bytes(r@));
    }
}

/// Encode a snapshot into its self-describing wire form.
pub fn encode_snapshot(s: &Snapshot) -> (out: Vec<u8>)
    ensures
        out@ == snapshot_bytes(s@),
{
    let mut out: Vec<u8> = Vec::new();
    push_u64_le(&mut out, s.repo);
    push_u64_le(&mut out, s.records.len() as u64);
    proof {
        assert(s@.records.len() == s.records@.len());
        assert(out@ =~= u64_le_bytes(s.repo) + u64_le_bytes(s@.records.len() as u64));
        assert(s@.records.skip(0) =~= s@.records);
        assert(snapshot_bytes(s@) == u64_le_bytes(s.repo) + u64_le_bytes(s@.records.len() as u64)
            + records_bytes(s@.records));
    }
    let mut i: usize = 0;
    while i < s.records.len()
        invariant
            i <= s.records.len(),
            s@.records.len() == s.records@.len(),
            out@ + records_bytes(s@.records.skip(i as int)) == snapshot_bytes(s@),
        decreases s.records.len() - i,
    {
        let ghost pre = out@;
        let ghost recs = s@.records;
        encode_record(&mut out, &s.records[i]);
        proof {
            assert(recs.skip(i as int)[0] == recs[i as int]);
            assert(s.records@[i as int]@ == recs[i as int]);
            assert(recs.skip(i as int).skip(1) =~= recs.skip(i + 1));
            assert(records_bytes(recs.skip(i as int)) == record_bytes(recs[i as int])
                + records_bytes(recs.skip(i + 1)));
            assert(pre + (record_bytes(recs[i as int]) + records_bytes(recs.skip(i + 1))) =~= (pre
                + record_bytes(recs[i as int])) + records_bytes(recs.skip(i + 1)));
        }
        i = i + 1;
    }
    proof {
        assert(s@.records.skip(i as int).len() == 0);
        assert(records_bytes(s@.records.skip(i as int)) == Seq::<u8>::empty());
        assert(out@ + Seq::<u8>::empty() =~= out@);
    }
    out
}

/// Read the eight little-endian bytes that start at `pos`.
fn read_u64_at(b: &Vec<u8>, pos: usize) -> (r: Option<(u64, usize)>)
    requires
        pos <= b@.len(),
    ensures
        match r {
            Some(v) => v.1 <= b@.len() && take_u64(b@.skip(pos as int)) == Some(
                (v.0, b@.skip(v.1 as int)),
            ),
            None => take_u64(b@.skip(pos as int)) is None,
        },
{
    if b.len() - pos >= 8 {
        let x = (b[pos] as u64) | ((b[pos + 1] as u64) << 8) | ((b[pos + 2] as u64) << 16) | ((
        b[pos + 3] as u64) << 24) | ((b[pos + 4] as u64) << 32) | ((b[pos + 5] as u64) << 40) | ((
        b[pos + 6] as u64) << 48) | ((b[pos + 7] as u64) << 56);
        proof {
            let t = b@.skip(pos as int);
            assert(t.take(8)[0] == b@[pos as int]);
            assert(t.take(8)[1] == b@[pos + 1]);
            assert(t.take(8)[2] == b@[pos + 2]);
            assert(t.take(8)[3] == b@[pos + 3]);
            assert(t.take(8)[4] == b@[pos + 4]);
            assert(t.take(8)[5] == b@[pos + 5]);
            assert(t.take(8)[6] == b@[pos + 6]);
            assert(t.take(8)[7] == b@[pos + 7]);
            assert(u64_from_le(t.take(8)) == x);
            assert(t.skip(8) =~= b@.skip(pos + 8));
        }
        Some((x, pos + 8))
    } else {
        None
    }
}

/// Copy the bytes of the half-open range `start..end`.
fn copy_range(b: &Vec<u8>, start: usize, end: usize) -> (out: Vec<u8>)
    requires
        start <= end <= b@.len(),
    ensures
        out@ == b@.subrange(start as int, end as int),
{
    let mut out: Vec<u8> = Vec::new();
    let mut i: usize = start;
    while i < end
        invariant
            start <= i <= end <= b@.len(),
            out@ == b@.subrange(start as int, i as int),
        decreases end - i,
    {
        out.push(b[i]);
        proof {
            assert(b@.subrange(start as int, i + 1) =~= b@.subrange(start as int, i as int).push(
                b@[i as int],
            ));
        }
        i = i + 1;
    }
    out
}

/// Parse the record whose wire form starts at `pos`.
fn parse_record_at(b: &Vec<u8>, pos: usize) -> (r: Option<(FilenodeAccessRecord, usize)>)
    requires
        pos <= b@.len(),
    ensures
        match r {
            Some(v) => v.1 <= b@.len() && parse_record(b@.skip(pos as int)) == Some(
                (v.0@, b@.skip(v.1 as int)),
            ),
            None => parse_record(b@.skip(pos as int)) is None,
        },
{
    let (repo, p1) = match read_u64_at(b, pos) {
        Some(v) => v,
        None => {
            return None;
        },
    };
    let (key_len, p2) = match read_u64_at(b, p1) {
        Some(v) => v,
        None => {
            return None;
        },
    };
    if ((b.len() - p2) as u64) < key_len {
        proof {
            assert(b@.skip(p2 as int).len() < key_len);
        }
        return None;
    }
    let key_len_us: usize = key_len as usize;
    let p3 = p2 + key_len_us;
    let key = copy_range(b, p2, p3);
    proof {
        assert(b@.skip(p2 as int).take(key_len as int) =~= b@.subrange(p2 as int, p3 as int));
        assert(b@.skip(p2 as int).skip(key_len as int) =~= b@.skip(p3 as int));
    }
    let (payload_len, p4) = match read_u64_at(b, p3) {
        Some(v) => v,
        None => {
            return None;
        },
    };
    if ((b.len() - p4) as u64) < payload_len {
        proof {
            assert(b@.skip(p4 as int).len() < payload_len);
        }
        return None;
    }
    let payload_len_us: usize = payload_len as usize;
    let p5 = p4 + payload_len_us;
    let payload = copy_range(b, p4, p5);
    proof {
        assert(b@.skip(p4 as int).take(payload_len as int) =~= b@.subrange(p4 as int, p5 as int));
        assert(b@.skip(p4 as int).skip(payload_len as int) =~= b@.skip(p5 as int));
    }
    Some((FilenodeAccessRecord { repo, key, payload }, p5))
}

/// Decode a snapshot from its wire form; any malformed or trailing byte is
/// refused.
#[verifier::rlimit(50)]
pub fn decode_snapshot_bytes(b: &Vec<u8>) -> (r: Option<Snapshot>)
    ensures
        match r {
            Some(s) => decode_snapshot(b@) == Some(s@),
            None => decode_snapshot(b@) is None,
        },
{
    proof {
        assert(b@.skip(0) =~= b@);
    }
    let (repo, p1) = match read_u64_at(b, 0) {
        Some(v) => v,
        None => {
            return None;
        },
    };
    let (count, p2) = match read_u64_at(b, p1) {
        Some(v) => v,
        None => {
            return None;
        },
    };
    let mut records: Vec<FilenodeAccessRecord> = Vec::new();
    let mut pos: usize = p2;
    let mut i: u64 = 0;
    proof {
        assert(take_u64(b@) == Some((repo, b@.skip(p1 as int))));
        assert(take_u64(b@.skip(p1 as int)) == Some((count, b@.skip(p2 as int))));
        assert(records@.map_values(|r: FilenodeAccessRecord| r@) =~= Seq::<
            RecordModel,
        >::empty());
        let whole = parse_records(b@.skip(p2 as int), count as nat);
        if whole is Some {
            assert(Seq::<RecordModel>::empty() + whole.unwrap().0 =~= whole.unwrap().0);
        }
    }
    while i < count
        invariant
            i <= count,
            pos <= b@.len(),
            take_u64(b@) == Some((repo, b@.skip(p1 as int))),
            take_u64(b@.skip(p1 as int)) == Some((count, b@.skip(p2 as int))),
            parse_records(b@.skip(p2 as int), count as nat) == (match parse_records(
                b@.skip(pos as int),
                (count - i) as nat,
            ) {
                Some(v) => Some(
                    (records@.map_values(|r: FilenodeAccessRecord| r@) + v.0, v.1),
                ),
                None => None,
            }),
        decreases count - i,
    {
        let ghost drained = records@.map_values(|r: FilenodeAccessRecord| r@);
        let ghost pos_before: int = pos as int;
        let ghost n_before: nat = (count - i) as nat;
        match parse_record_at(b, pos) {
            Some((rec, p_next)) => {
                proof {
                    let tail_result = parse_records(b@.skip(p_next as int), (count - i - 1) as nat);
                    assert(parse_records(b@.skip(pos_before), n_before) == (match tail_result {
                        Some(v) => Some((seq![rec@] + v.0, v.1)),
                        None => None,
                    }));
                    if tail_result is Some {
                        let v = tail_result.unwrap();
                        assert(drained + (seq![rec@] + v.0) =~= drained.push(rec@) + v.0);
                    }
                }
                records.push(rec);
                proof {
                    assert(records@.map_values(|r: FilenodeAccessRecord| r@)
                        =~= drained.push(rec@));
                }
                pos = p_next;
                i = i + 1;
            },
            None => {
                proof {
                    assert(n_before != 0);
                    assert(parse_records(b@.skip(pos_before), n_before) is None);
                    assert(parse_records(b@.skip(p2 as int), count as nat) is None);
                    assert(decode_snapshot(b@) is None);
                }
                return None;
            },
        }
    }
    if pos == b.len() {
        proof {
            assert(b@.skip(pos as int).len() == 0);
            let drained = records@.map_values(|r: FilenodeAccessRecord| r@);
            assert(drained + Seq::<RecordModel>::empty() =~= drained);
        }
        Some(Snapshot { repo, records })
    } else {
        proof {
            assert(b@.skip(pos as int).len() != 0);
        }
        None
    }
}

} // verus!
