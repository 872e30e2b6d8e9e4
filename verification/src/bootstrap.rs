use vstd::prelude::*;
use crate::codec::{spec_scan, Record, RecordModel};
use crate::key_value::{EntrySpec, KeyValue};
use crate::storage::Storage;

verus! {

/// Recovery failed: the log's trailing record is cut off, so the scan
/// could not reach a clean end of file.
#[derive(Debug)]
pub struct RecoverError;

/// One journaled mutation applied to an entry map: the record's key is
/// mapped to a live entry carrying its value, or to a tombstone, in
/// either case stamped with the next version.
pub open spec fn spec_apply(
    entries: Map<Seq<u8>, EntrySpec>,
    version: u64,
    r: RecordModel,
) -> Map<Seq<u8>, EntrySpec> {
    match r.value {
        Some(val) => entries.insert(r.key, ((version + 1) as u64, false, val)),
        None => entries.insert(r.key, ((version + 1) as u64, true, Seq::empty())),
    }
}

/// The entry map and version counter after replaying `records` in file
/// order, starting from `entries` at `version`: each record applies as
/// the mutation it journals, later records overwriting earlier ones for
/// the same key.
pub open spec fn spec_replay(
    entries: Map<Seq<u8>, EntrySpec>,
    version: u64,
    records: Seq<RecordModel>,
) -> (Map<Seq<u8>, EntrySpec>, u64)
    decreases records.len(),
{
    if records.len() == 0 {
        (entries, version)
    } else {
        spec_replay(spec_apply(entries, version, records[0]), (version + 1) as u64, records.drop_first())
    }
}

/// Replaying one more record equals replaying the others and then
/// applying it to what they produced.
proof fn lemma_replay_push(
    entries: Map<Seq<u8>, EntrySpec>,
    version: u64,
    records: Seq<RecordModel>,
    r: RecordModel,
)
    ensures
        spec_replay(entries, version, records.push(r)).0 == spec_apply(
            spec_replay(entries, version, records).0,
            spec_replay(entries, version, records).1,
            r,
        ),
        spec_replay(entries, version, records.push(r)).1 == (spec_replay(
            entries,
            version,
            records,
        ).1 + 1) as u64,
    decreases records.len(),
{
    reveal_with_fuel(spec_replay, 3);
    if records.len() == 0 {
        assert(records.push(r).drop_first() =~= records);
    } else {
        assert(records.push(r).drop_first() =~= records.drop_first().push(r));
        lemma_replay_push(
            spec_apply(entries, version, records[0]),
            (version + 1) as u64,
            records.drop_first(),
            r,
        );
    }
}

/// Cold-start reconstruction: scans the whole log and applies every
/// decoded record to the index in file order, a record with a value as
/// a put and a tombstone as a delete. On a truncated log the records
/// before the cut are applied and the error is surfaced, so the caller
/// must not serve from the partially rebuilt index.
pub fn rebuild_from_file(kv: &mut KeyValue, st: &Storage) -> (r: Result<(), RecoverError>)
    requires
        old(kv).wf(),
        old(kv).spec_version() + spec_scan(st@).records.len() <= u64::MAX,
    ensures
        final(kv).wf(),
        final(kv).spec_entries() == spec_replay(
            old(kv).spec_entries(),
            old(kv).spec_version(),
            spec_scan(st@).records,
        ).0,
        final(kv).spec_version() == spec_replay(
            old(kv).spec_entries(),
            old(kv).spec_version(),
            spec_scan(st@).records,
        ).1,
        r is Ok <==> spec_scan(st@).complete,
{
    let ghost e0 = old(kv).spec_entries();
    let ghost v0 = old(kv).spec_version();
    let ghost models = spec_scan(st@).records;
    let (records, complete) = st.scan_all();
    let n = records.len();
    let mut i: usize = 0;
    while i < n
        invariant
            i <= n,
            n == records@.len(),
            records@.map_values(|r: Record| r@) == models,
            v0 + models.len() <= u64::MAX,
            kv.wf(),
            kv.spec_version() == v0 + i,
            kv.spec_entries() == spec_replay(e0, v0, models.take(i as int)).0,
            kv.spec_version() == spec_replay(e0, v0, models.take(i as int)).1,
        decreases n - i,
    {
        let ghost done = models.take(i as int);
        proof {
            assert(models.take(i as int + 1) =~= done.push(models[i as int]));
            lemma_replay_push(e0, v0, done, models[i as int]);
            assert(records@.map_values(|r: Record| r@)[i as int] == records@[i as int]@);
        }
        let rec = &records[i];
        match &rec.value {
            Some(v) => {
                kv.put(rec.key.as_slice(), v.as_slice());
            },
            None => {
                kv.delete(rec.key.as_slice());
            },
        }
        i = i + 1;
    }
    proof {
        assert(models.take(n as int) =~= models);
    }
    if complete {
        Ok(())
    } else {
        Err(RecoverError)
    }
}

} // verus!
