use vstd::prelude::*;
use crate::codec::{
    decode_all, delete_record, encode_delete, encode_put, put_record, spec_encode, spec_scan,
    Record,
};

verus! {

/// The append-only log: a single segment's byte image, in the wire
/// format `codec` defines. The surrounding service keeps this image in
/// step with the segment file: it reads the file into `from_bytes` at
/// startup and writes every appended record's bytes straight through.
pub struct Storage {
    data: Vec<u8>,
}

impl View for Storage {
    type V = Seq<u8>;

    closed spec fn view(&self) -> Seq<u8> {
        self.data@
    }
}

impl Storage {
    /// An empty log: a store that has seen no mutation yet.
    pub fn new() -> (st: Self)
        ensures
            st@ == Seq::<u8>::empty(),
    {
        Storage { data: Vec::new() }
    }

    /// A log over an existing segment image, as read back from its file.
    pub fn from_bytes(data: Vec<u8>) -> (st: Self)
        ensures
            st@ == data@,
    {
        Storage { data }
    }

    /// The raw bytes of the log image, exactly as a segment file holds
    /// them.
    pub fn bytes(&self) -> (b: &Vec<u8>)
        ensures
            b@ == self@,
    {
        &self.data
    }

    /// Appends a put record for `key` and `value` at the end of the log.
    pub fn append_put(&mut self, key: &[u8], value: &[u8])
        requires
            key@.len() > 0,
            key@.len() <= u32::MAX,
            value@.len() <= u32::MAX,
        ensures
            final(self)@ == old(self)@ + spec_encode(put_record(key@, value@)),
    {
        let mut rec = encode_put(key, value);
        self.data.append(&mut rec);
    }

    /// Appends a delete record (a tombstone) for `key` at the end of
    /// the log.
    pub fn append_delete(&mut self, key: &[u8])
        requires
            key@.len() > 0,
            key@.len() <= u32::MAX,
        ensures
            final(self)@ == old(self)@ + spec_encode(delete_record(key@)),
    {
        let mut rec = encode_delete(key);
        self.data.append(&mut rec);
    }

    /// Scans the whole log from the start, in file order. Returns every
    /// record that is complete in the image, and whether the image
    /// ended cleanly at a record boundary; `false` means a truncated
    /// trailing fragment, which yields no record.
    pub fn scan_all(&self) -> (out: (Vec<Record>, bool))
        ensures
            out.0@.map_values(|r: Record| r@) == spec_scan(self@).records,
            out.1 == spec_scan(self@).complete,
    {
        decode_all(&self.data)
    }
}

} // verus!
