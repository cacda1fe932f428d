//! The type-erased record view: a zero-copy, runtime-type-checked window over
//! exactly one record's bytes inside a decoder's buffer.

use vstd::prelude::*;
use crate::record::{rec_len, HasRType, RecordHeader};

verus! {

/// A borrowed window over one complete record's bytes.
///
/// The view is valid only as long as the borrow lives: a decoder's next
/// decode call overwrites the underlying buffer, and the borrow checker
/// prevents the view from outliving it. Reinterpretation as a concrete
/// record type is gated by the rtype tag in the header, never assumed.
#[derive(Debug)]
pub struct RecordRef<'a> {
    bytes: &'a [u8],
}

impl<'a> RecordRef<'a> {
    /// The record's bytes.
    pub closed spec fn bytes_spec(self) -> Seq<u8> {
        self.bytes@
    }

    /// The view covers one complete record: at least a header, and exactly
    /// the length its own length prefix declares.
    pub open spec fn wf(self) -> bool {
        self.bytes_spec().len() >= 16 && self.bytes_spec().len() == rec_len(self.bytes_spec()[0])
    }

    /// A view over `bytes`, which must be one complete record.
    pub fn new(bytes: &'a [u8]) -> (r: RecordRef<'a>)
        requires
            bytes@.len() >= 16,
            bytes@.len() == rec_len(bytes@[0]),
        ensures
            r.bytes_spec() == bytes@,
            r.wf(),
    {
        RecordRef { bytes }
    }

    /// The record's header, available whatever the record's concrete type.
    pub fn header(&self) -> (h: RecordHeader)
        requires
            self.wf(),
        ensures
            h == RecordHeader::parse_spec(self.bytes_spec()),
    {
        RecordHeader::parse_from(self.bytes)
    }

    /// The record's raw bytes.
    pub fn bytes(&self) -> (b: &[u8])
        ensures
            b@ == self.bytes_spec(),
    {
        self.bytes
    }

    /// The record's size in bytes.
    pub fn record_size(&self) -> (n: usize)
        ensures
            n == self.bytes_spec().len(),
    {
        self.bytes.len()
    }

    /// The record read as concrete type `T`, if the record's rtype tag
    /// selects `T`'s layout; `None` otherwise. Never reinterprets across
    /// mismatched layouts.
    pub fn get<T: HasRType>(&self) -> (r: Option<T>)
        requires
            self.wf(),
        ensures
            r == T::parse_spec(self.bytes_spec()),
            r is Some <==> (self.bytes_spec().len() >= T::size_spec()
                && T::matches_rtype_spec(self.bytes_spec()[1])),
    {
        proof {
            T::lemma_parse_iff(self.bytes_spec());
        }
        T::parse_from(self.bytes)
    }
}

} // verus!
