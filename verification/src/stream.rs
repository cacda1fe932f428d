//! The pull-based streaming front end: a lazy, single-pass, forward-only
//! cursor over the typed records of a stream.

use vstd::prelude::*;
use crate::decode::{frame_len, frames_end, frames_record, Decoder};
use crate::metadata::MetadataView;
use crate::record::HasRType;
use crate::source::ByteSource;

verus! {

/// A consuming cursor over a decoder's records of one concrete type.
///
/// `advance` pulls the next record into the cursor; `get` exposes the
/// current one. Once the stream ends, fails, or yields a record of another
/// type, the cursor is exhausted and stays so: the sequence is finite,
/// forward-only, and not restartable.
pub struct StreamIterDecoder<S: ByteSource, T: HasRType> {
    decoder: Decoder<S>,
    i: Option<usize>,
    cur: Option<T>,
}

impl<S: ByteSource, T: HasRType> StreamIterDecoder<S, T> {
    /// The decoder is usable and the cursor is consistent: a current record
    /// exists only while the cursor is live.
    pub closed spec fn wf(self) -> bool {
        self.decoder.wf() && (self.i is None ==> self.cur is None)
    }

    /// The bytes the underlying source has yet to yield.
    pub closed spec fn rem(self) -> Seq<u8> {
        self.decoder.rem()
    }

    /// Whether the underlying source can only succeed or end cleanly.
    pub closed spec fn src_infallible(self) -> bool {
        self.decoder.src_infallible()
    }

    /// The stream's metadata.
    pub closed spec fn metadata_spec(self) -> MetadataView {
        self.decoder.metadata_spec()
    }

    /// How many records the cursor has consumed; `None` once exhausted.
    pub closed spec fn consumed(self) -> Option<usize> {
        self.i
    }

    /// The record the cursor is on, if any.
    pub closed spec fn current(self) -> Option<T> {
        self.cur
    }

    /// A cursor over `decoder`'s records, before its first `advance`.
    pub fn new(decoder: Decoder<S>) -> (s: StreamIterDecoder<S, T>)
        requires
            decoder.wf(),
        ensures
            s.wf(),
            s.rem() == decoder.rem(),
            s.src_infallible() == decoder.src_infallible(),
            s.metadata_spec() == decoder.metadata_spec(),
            s.consumed() == Some(0usize),
            s.current() is None,
    {
        StreamIterDecoder { decoder, i: Some(0), cur: None }
    }

    /// Pulls the next record into the cursor. On success the count of
    /// consumed records grows (saturating); on end-of-stream, on any error,
    /// and on a record of another type, the cursor becomes exhausted.
    pub fn advance(&mut self)
        requires
            old(self).wf(),
        ensures
            final(self).wf(),
            final(self).src_infallible() == old(self).src_infallible(),
            final(self).metadata_spec() == old(self).metadata_spec(),
            old(self).consumed() is None ==> *final(self) == *old(self),
            old(self).consumed() matches Some(i) ==> ({
                ||| ({
                    &&& frames_record(old(self).rem())
                    &&& (T::parse_spec(
                        old(self).rem().take(frame_len(old(self).rem()) as int),
                    ) matches Some(t) && final(self).current() == Some(t)
                        && final(self).consumed() == Some(
                        (if i < usize::MAX {
                            i + 1
                        } else {
                            i as int
                        }) as usize,
                    ) && final(self).rem() == old(self).rem().skip(
                        frame_len(old(self).rem()) as int,
                    ))
                })
                ||| (final(self).consumed() is None && final(self).current() is None)
            }),
            old(self).src_infallible() && old(self).consumed() is Some && frames_end(
                old(self).rem(),
            ) ==> final(self).consumed() is None,
            old(self).src_infallible() && old(self).consumed() is Some && frames_record(
                old(self).rem(),
            ) && T::parse_spec(old(self).rem().take(frame_len(old(self).rem()) as int)) is Some
                ==> final(self).consumed() is Some,
    {
        if self.i.is_some() {
            match self.decoder.decode_record::<T>() {
                Ok(Some(t)) => {
                    let i = self.i.as_ref().unwrap();
                    let next: usize = if *i < usize::MAX {
                        *i + 1
                    } else {
                        *i
                    };
                    self.i = Some(next);
                    self.cur = Some(t);
                },
                _ => {
                    self.i = None;
                    self.cur = None;
                },
            }
        }
    }

    /// The record the cursor is on, or `None` once exhausted.
    pub fn get(&self) -> (r: Option<&T>)
        ensures
            match r {
                Some(t) => self.current() == Some(*t),
                None => self.current() is None,
            },
            self.wf() && self.consumed() is None ==> r is None,
    {
        self.cur.as_ref()
    }

    /// Advisory bounds on the records left, derived from the metadata's
    /// record-count hint when present: `(remaining, Some(remaining))` then,
    /// `(0, None)` otherwise. An inaccurate hint cannot affect what the
    /// cursor yields, only how consumers pre-size.
    pub fn size_hint(&self) -> (r: (usize, Option<usize>))
        ensures
            match self.metadata_spec().record_count {
                Some(c) => ({
                    let used = (match self.consumed() {
                        Some(i) => i as nat,
                        None => c as nat,
                    });
                    let left = (if used <= c as nat {
                        c as nat - used
                    } else {
                        0int
                    });
                    let bounded = (if left <= usize::MAX as int {
                        left
                    } else {
                        usize::MAX as int
                    });
                    r.0 == bounded && r.1 == Some(r.0)
                }),
                None => r == (0usize, Option::<usize>::None),
            },
    {
        match self.decoder.metadata().record_count {
            Some(c) => {
                let used: u64 = match &self.i {
                    Some(i) => {
                        if *i as u64 <= c {
                            *i as u64
                        } else {
                            c
                        }
                    },
                    None => c,
                };
                let left64: u64 = c - used;
                let left: usize = if left64 <= usize::MAX as u64 {
                    left64 as usize
                } else {
                    usize::MAX
                };
                (left, Some(left))
            },
            None => (0, None),
        }
    }
}

} // verus!
