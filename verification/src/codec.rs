use vstd::prelude::*;
use vstd::bytes::{
    lemma_auto_spec_u32_to_from_le_bytes, spec_u32_from_le_bytes, spec_u32_to_le_bytes,
    u32_from_le_bytes, u32_to_le_bytes,
};
use vstd::slice::{slice_subrange, slice_to_vec};

verus! {

/// One decoded log record: a key and either a value (a put) or no
/// value (a tombstone, written by a delete).
pub struct Record {
    pub key: Vec<u8>,
    pub value: Option<Vec<u8>>,
}

/// The mathematical form of a record.
pub struct RecordModel {
    pub key: Seq<u8>,
    pub value: Option<Seq<u8>>,
}

impl View for Record {
    type V = RecordModel;

    open spec fn view(&self) -> RecordModel {
        RecordModel {
            key: self.key@,
            value: match self.value {
                Some(v) => Some(v@),
                None => None,
            },
        }
    }
}

/// The record model of a put of `value` under `key`.
pub open spec fn put_record(key: Seq<u8>, value: Seq<u8>) -> RecordModel {
    RecordModel { key, value: Some(value) }
}

/// The record model of a delete of `key`.
pub open spec fn delete_record(key: Seq<u8>) -> RecordModel {
    RecordModel { key, value: None }
}

/// The value length the wire format stores: a tombstone is written as
/// length zero.
pub open spec fn value_len_of(value: Option<Seq<u8>>) -> nat {
    match value {
        Some(v) => v.len(),
        None => 0,
    }
}

/// The value bytes the wire format stores: none for a tombstone.
pub open spec fn value_bytes_of(value: Option<Seq<u8>>) -> Seq<u8> {
    match value {
        Some(v) => v,
        None => Seq::empty(),
    }
}

/// A record the wire format can carry: both length fields fit in 32 bits.
pub open spec fn fits_wire(r: RecordModel) -> bool {
    r.key.len() <= u32::MAX && value_len_of(r.value) <= u32::MAX
}

/// The on-disk bytes of one record: the key length and the value length
/// as 4-byte little-endian fields, then the key bytes, then the value
/// bytes.
pub open spec fn spec_encode(r: RecordModel) -> Seq<u8> {
    spec_u32_to_le_bytes(r.key.len() as u32) + spec_u32_to_le_bytes(value_len_of(r.value) as u32)
        + r.key + value_bytes_of(r.value)
}

/// What a record reads back as: the wire format writes a put of an
/// empty value and a delete identically, so both read back as a
/// tombstone. (A deliberate layout overload: no "present but empty"
/// value can be represented.)
pub open spec fn stored_form(r: RecordModel) -> RecordModel {
    match r.value {
        Some(v) => if v.len() == 0 {
            RecordModel { key: r.key, value: None }
        } else {
            r
        },
        None => r,
    }
}

/// What a forward scan of a log image yields: the decoded records, and
/// whether the image ended cleanly at a record boundary.
pub struct ScanModel {
    pub records: Seq<RecordModel>,
    pub complete: bool,
}

/// Decodes a log image from the front, one record at a time. The scan
/// ends cleanly when the bytes run out exactly at a record boundary;
/// any shorter trailing fragment — a partial header or a header whose
/// payload is cut off — makes the scan incomplete and yields no further
/// records. A zero value length decodes as a tombstone.
pub open spec fn spec_scan(b: Seq<u8>) -> ScanModel
    decreases b.len(),
{
    if b.len() == 0 {
        ScanModel { records: Seq::empty(), complete: true }
    } else if b.len() < 8 {
        ScanModel { records: Seq::empty(), complete: false }
    } else {
        let kl = spec_u32_from_le_bytes(b.subrange(0, 4)) as int;
        let vl = spec_u32_from_le_bytes(b.subrange(4, 8)) as int;
        if b.len() < 8 + kl + vl {
            ScanModel { records: Seq::empty(), complete: false }
        } else {
            let key = b.subrange(8, 8 + kl);
            let value = if vl == 0 {
                None
            } else {
                Some(b.subrange(8 + kl, 8 + kl + vl))
            };
            let rest = spec_scan(b.subrange(8 + kl + vl, b.len() as int));
            ScanModel {
                records: seq![RecordModel { key, value }] + rest.records,
                complete: rest.complete,
            }
        }
    }
}

/// The log image that a sequence of appends builds: the records'
/// encodings, concatenated in order.
pub open spec fn spec_encode_all(rs: Seq<RecordModel>) -> Seq<u8>
    decreases rs.len(),
{
    if rs.len() == 0 {
        Seq::empty()
    } else {
        spec_encode(rs[0]) + spec_encode_all(rs.drop_first())
    }
}

/// Scanning bytes that start with one whole encoded record yields that
/// record's stored form followed by whatever the remaining bytes yield,
/// and ends cleanly exactly when the remaining bytes do.
pub proof fn lemma_scan_prepend_record(r: RecordModel, tail: Seq<u8>)
    requires
        fits_wire(r),
    ensures
        spec_scan(spec_encode(r) + tail).records == seq![stored_form(r)] + spec_scan(tail).records,
        spec_scan(spec_encode(r) + tail).complete == spec_scan(tail).complete,
{
    lemma_auto_spec_u32_to_from_le_bytes();
    let b = spec_encode(r) + tail;
    let kl = r.key.len() as int;
    let vl = value_len_of(r.value) as int;
    assert(b.subrange(0, 4) =~= spec_u32_to_le_bytes(r.key.len() as u32));
    assert(b.subrange(4, 8) =~= spec_u32_to_le_bytes(value_len_of(r.value) as u32));
    assert(b.len() == 8 + kl + vl + tail.len());
    assert(b.subrange(8, 8 + kl) =~= r.key);
    assert(b.subrange(8 + kl, 8 + kl + vl) =~= value_bytes_of(r.value));
    assert(b.subrange(8 + kl + vl, b.len() as int) =~= tail);
    assert(spec_scan(b).records == seq![stored_form(r)] + spec_scan(tail).records);
}

/// Round trip: a log image built by appending any sequence of records
/// scans back to exactly those records in the same order, ending
/// cleanly — with each put of an empty value reading back as the
/// tombstone the wire format cannot distinguish it from.
pub proof fn lemma_scan_round_trip(rs: Seq<RecordModel>)
    requires
        forall|i: int| 0 <= i < rs.len() ==> fits_wire(#[trigger] rs[i]),
    ensures
        spec_scan(spec_encode_all(rs)).records == rs.map_values(|r: RecordModel| stored_form(r)),
        spec_scan(spec_encode_all(rs)).complete,
    decreases rs.len(),
{
    if rs.len() == 0 {
        assert(spec_scan(spec_encode_all(rs)).records =~= rs.map_values(
            |r: RecordModel| stored_form(r),
        ));
    } else {
        lemma_scan_prepend_record(rs[0], spec_encode_all(rs.drop_first()));
        lemma_scan_round_trip(rs.drop_first());
        assert(seq![stored_form(rs[0])] + rs.drop_first().map_values(
            |r: RecordModel| stored_form(r),
        ) =~= rs.map_values(|r: RecordModel| stored_form(r)));
    }
}

/// Crash truncation: a log image of whole records followed by a strict,
/// non-empty prefix of one more encoded record scans back to exactly
/// the whole records and then reports a truncated tail instead of a
/// clean end — the cut-off record is not silently dropped.
pub proof fn lemma_scan_truncated_tail(rs: Seq<RecordModel>, r: RecordModel, cut: int)
    requires
        forall|i: int| 0 <= i < rs.len() ==> fits_wire(#[trigger] rs[i]),
        fits_wire(r),
        0 < cut < spec_encode(r).len(),
    ensures
        spec_scan(spec_encode_all(rs) + spec_encode(r).subrange(0, cut)).records == rs.map_values(
            |x: RecordModel| stored_form(x),
        ),
        !spec_scan(spec_encode_all(rs) + spec_encode(r).subrange(0, cut)).complete,
    decreases rs.len(),
{
    lemma_auto_spec_u32_to_from_le_bytes();
    let part = spec_encode(r).subrange(0, cut);
    let kl = r.key.len() as int;
    let vl = value_len_of(r.value) as int;
    assert(spec_encode(r).len() == 8 + kl + vl);
    if rs.len() == 0 {
        let b = spec_encode_all(rs) + part;
        assert(b =~= part);
        if cut >= 8 {
            assert(part.subrange(0, 4) =~= spec_u32_to_le_bytes(r.key.len() as u32));
            assert(part.subrange(4, 8) =~= spec_u32_to_le_bytes(value_len_of(r.value) as u32));
            assert(part.len() < 8 + kl + vl);
        }
        assert(spec_scan(b).records =~= rs.map_values(|x: RecordModel| stored_form(x)));
    } else {
        lemma_scan_prepend_record(rs[0], spec_encode_all(rs.drop_first()) + part);
        assert(spec_encode_all(rs) + part =~= spec_encode(rs[0]) + (spec_encode_all(
            rs.drop_first(),
        ) + part));
        lemma_scan_truncated_tail(rs.drop_first(), r, cut);
        assert(seq![stored_form(rs[0])] + rs.drop_first().map_values(
            |x: RecordModel| stored_form(x),
        ) =~= rs.map_values(|x: RecordModel| stored_form(x)));
    }
}

/// Encodes a put record into its wire bytes.
pub fn encode_put(key: &[u8], value: &[u8]) -> (out: Vec<u8>)
    requires
        key@.len() <= u32::MAX,
        value@.len() <= u32::MAX,
    ensures
        out@ == spec_encode(put_record(key@, value@)),
{
    let mut out = u32_to_le_bytes(key.len() as u32);
    let mut vlen = u32_to_le_bytes(value.len() as u32);
    out.append(&mut vlen);
    out.extend_from_slice(key);
    out.extend_from_slice(value);
    proof {
        assert(out@ =~= spec_encode(put_record(key@, value@)));
    }
    out
}

/// Encodes a delete record (a tombstone) into its wire bytes.
pub fn encode_delete(key: &[u8]) -> (out: Vec<u8>)
    requires
        key@.len() <= u32::MAX,
    ensures
        out@ == spec_encode(delete_record(key@)),
{
    let mut out = u32_to_le_bytes(key.len() as u32);
    let mut vlen = u32_to_le_bytes(0u32);
    out.append(&mut vlen);
    out.extend_from_slice(key);
    proof {
        assert(out@ =~= spec_encode(delete_record(key@)));
    }
    out
}

/// Reads the 4-byte little-endian field at `pos`.
fn read_u32_at(data: &Vec<u8>, pos: usize) -> (x: u32)
    requires
        pos + 4 <= data@.len(),
        data@.len() <= usize::MAX,
    ensures
        x == spec_u32_from_le_bytes(data@.subrange(pos as int, pos as int + 4)),
{
    let field = slice_subrange(data.as_slice(), pos, pos + 4);
    u32_from_le_bytes(field)
}

/// Decodes every whole record of a log image from the front, in file
/// order. Returns the records and whether the image ended cleanly at a
/// record boundary; `false` means a truncated trailing fragment, whose
/// bytes yield no record.
pub fn decode_all(data: &Vec<u8>) -> (out: (Vec<Record>, bool))
    ensures
        out.0@.map_values(|r: Record| r@) == spec_scan(data@).records,
        out.1 == spec_scan(data@).complete,
{
    let ghost whole = data@;
    let mut records: Vec<Record> = Vec::new();
    let mut pos: usize = 0;
    let mut complete = false;
    let n = data.len();
    proof {
        assert(whole.subrange(0, n as int) =~= whole);
    }
    loop
        invariant_except_break
            pos <= n,
            n == whole.len(),
            whole == data@,
            spec_scan(whole).records == records@.map_values(|r: Record| r@) + spec_scan(
                whole.subrange(pos as int, n as int),
            ).records,
            spec_scan(whole).complete == spec_scan(whole.subrange(pos as int, n as int)).complete,
        ensures
            records@.map_values(|r: Record| r@) == spec_scan(whole).records,
            complete == spec_scan(whole).complete,
        decreases n - pos,
    {
        let ghost tail = whole.subrange(pos as int, n as int);
        if n - pos == 0 {
            complete = true;
            proof {
                assert(records@.map_values(|r: Record| r@) =~= spec_scan(whole).records);
            }
            break;
        }
        if n - pos < 8 {
            complete = false;
            proof {
                assert(records@.map_values(|r: Record| r@) =~= spec_scan(whole).records);
            }
            break;
        }
        let kl = read_u32_at(data, pos) as usize;
        let vl = read_u32_at(data, pos + 4) as usize;
        proof {
            assert(tail.subrange(0, 4) =~= whole.subrange(pos as int, pos as int + 4));
            assert(tail.subrange(4, 8) =~= whole.subrange(pos as int + 4, pos as int + 8));
        }
        let avail = n - pos - 8;
        if avail < kl || avail - kl < vl {
            complete = false;
            proof {
                assert(records@.map_values(|r: Record| r@) =~= spec_scan(whole).records);
            }
            break;
        }
        let key = slice_to_vec(slice_subrange(data.as_slice(), pos + 8, pos + 8 + kl));
        let value = if vl == 0 {
            None
        } else {
            Some(slice_to_vec(slice_subrange(data.as_slice(), pos + 8 + kl, pos + 8 + kl + vl)))
        };
        let rec = Record { key, value };
        proof {
            let kli = kl as int;
            let vli = vl as int;
            let posi = pos as int;
            assert(tail.subrange(8, 8 + kli) =~= whole.subrange(posi + 8, posi + 8 + kli));
            if vli > 0 {
                assert(tail.subrange(8 + kli, 8 + kli + vli) =~= whole.subrange(
                    posi + 8 + kli,
                    posi + 8 + kli + vli,
                ));
            }
            assert(tail.subrange(8 + kli + vli, tail.len() as int) =~= whole.subrange(
                posi + 8 + kli + vli,
                n as int,
            ));
            assert(spec_scan(tail).records == seq![rec@] + spec_scan(
                whole.subrange(posi + 8 + kli + vli, n as int),
            ).records);
            assert(records@.push(rec).map_values(|r: Record| r@) =~= records@.map_values(
                |r: Record| r@,
            ).push(rec@));
            assert(records@.map_values(|r: Record| r@).push(rec@) + spec_scan(
                whole.subrange(posi + 8 + kli + vli, n as int),
            ).records =~= records@.map_values(|r: Record| r@) + spec_scan(tail).records);
        }
        records.push(rec);
        pos = pos + 8 + kl + vl;
    }
    (records, complete)
}

} // verus!
