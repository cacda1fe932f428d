//! Transparent support for compressed streams: the name of what a compressed
//! byte string holds, and trusted wrappers over the compression codec.

use vstd::prelude::*;

verus! {

/// The content of a compressed byte string, decoded through every one of its
/// concatenated frames; `None` when the bytes are not a valid compressed
/// stream. What this function returns on given bytes is decided by the codec
/// alone: the library states only how the wrappers below relate to it.
pub uninterp spec fn zstd_frames(compressed: Seq<u8>) -> Option<Seq<u8>>;

/// Relies on zstd's stream `Encoder` (with content checksums enabled):
/// compressing into an in-memory buffer succeeds — the codec clamps the
/// level, and creation, the checksum flag, writing, and `finish` fail only
/// on I/O, which a `Vec` destination cannot raise — and the result is one
/// complete compressed frame holding exactly `data`, so decoding it
/// recovers `data`, and a decoder that accepts concatenated frames decodes
/// whatever valid stream follows it as well.
#[verifier::external_body]
pub(crate) fn zstd_compress(data: &Vec<u8>, level: i32) -> (r: Option<Vec<u8>>)
    ensures
        r is Some,
        match r {
            Some(c) => zstd_frames(c@) == Some(data@) && (forall|rest: Seq<u8>|
                zstd_frames(rest) is Some ==> zstd_frames(c@ + rest) == Some(
                    data@ + zstd_frames(rest).unwrap(),
                )),
            None => true,
        },
{
    let mut encoder = match zstd::stream::Encoder::new(Vec::new(), level) {
        Ok(e) => e,
        Err(_) => return None,
    };
    if encoder.include_checksum(true).is_err() {
        return None;
    }
    if std::io::Write::write_all(&mut encoder, data.as_slice()).is_err() {
        return None;
    }
    encoder.finish().ok()
}

/// Relies on zstd::stream::decode_all, whose decoder keeps concatenating
/// frames until the input ends: on success the result is the full content
/// of every frame of `data`, and it fails exactly on inputs that are not a
/// valid compressed stream — decoding from an in-memory buffer is a
/// deterministic function of the bytes, with no other source of failure.
#[verifier::external_body]
pub(crate) fn zstd_decompress(data: &Vec<u8>) -> (r: Option<Vec<u8>>)
    ensures
        match r {
            Some(d) => zstd_frames(data@) == Some(d@),
            None => zstd_frames(data@) is None,
        },
{
    zstd::stream::decode_all(data.as_slice()).ok()
}

} // verus!
