use vstd::prelude::*;
use vstd::slice::slice_to_vec;

verus! {

/// The latest known state of one key in the index: a version stamp,
/// a tombstone flag, and the value payload (empty and ignored when the
/// entry is a tombstone).
#[derive(Clone)]
pub struct Versioned {
    pub ver: u64,
    pub tomb: bool,
    pub val: Vec<u8>,
}

impl View for Versioned {
    type V = (u64, bool, Seq<u8>);

    open spec fn view(&self) -> (u64, bool, Seq<u8>) {
        (self.ver, self.tomb, self.val@)
    }
}

impl Versioned {
    /// A live entry carrying `value`, stamped with `version`.
    pub fn from_value(version: u64, value: &[u8]) -> (r: Self)
        ensures
            r@ == (version, false, value@),
    {
        Versioned { ver: version, tomb: false, val: slice_to_vec(value) }
    }

    /// A tombstone entry stamped with `version`: the key is logically absent.
    pub fn tomb(version: u64) -> (r: Self)
        ensures
            r@ == (version, true, Seq::<u8>::empty()),
    {
        Versioned { ver: version, tomb: true, val: Vec::new() }
    }
}

} // verus!
