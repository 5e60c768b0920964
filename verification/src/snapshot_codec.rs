//! The bytes of a stored snapshot: an optional gzip wrapping around the
//! encoded snapshot, and the version check after decoding.
use crate::model::SNAPSHOT_VERSION;
use crate::ui::SnapshotError;
use vstd::prelude::*;

verus! {

/// What gzip decompression gives for `data`: the decompressed bytes, or
/// `None` when the stream is not valid gzip.
pub uninterp spec fn gunzip_result(data: Seq<u8>) -> Option<Seq<u8>>;

/// What gzip compression at the default level gives for `data`.
pub uninterp spec fn gzip_result(data: Seq<u8>) -> Seq<u8>;

/// Wraps `flate2::read::GzDecoder::new(data)` read to its end with
/// `std::io::Read::read_to_end`: the decompressed bytes (named
/// `gunzip_result`), or the decoder's error message. The message itself is
/// not stated.
#[verifier::external_body]
fn gunzip(data: &[u8]) -> (r: Result<Vec<u8>, String>)
    ensures
        r is Ok <==> gunzip_result(data@) is Some,
        r matches Ok(v) ==> gunzip_result(data@) == Some(v@),
{
    let mut decoder = flate2::read::GzDecoder::new(data);
    let mut buf: Vec<u8> = Vec::new();
    match std::io::Read::read_to_end(&mut decoder, &mut buf) {
        Ok(_) => Ok(buf),
        Err(e) => Err(e.to_string()),
    }
}

/// Wraps `flate2::write::GzEncoder::new(Vec::new(), Compression::default())`,
/// `write_all` of `data` and `finish`: the compressed bytes (named
/// `gzip_result`; the header carries no time). Stated: it succeeds, since
/// the encoder fails only when its inner writer does and a `Vec` writer
/// never fails; the error arm (writing `false`, finishing `true`, with the
/// message) is kept for the types' sake.
#[verifier::external_body]
fn gzip(data: &[u8]) -> (r: Result<Vec<u8>, (bool, String)>)
    ensures
        r is Ok,
        r matches Ok(v) ==> v@ == gzip_result(data@),
{
    let mut encoder = flate2::write::GzEncoder::new(Vec::new(), flate2::Compression::default());
    if let Err(e) = std::io::Write::write_all(&mut encoder, data) {
        return Err((false, e.to_string()));
    }
    encoder.finish().map_err(|e| (true, e.to_string()))
}

/// Data that starts with the gzip magic bytes `1f 8b`.
pub open spec fn is_gzip(data: Seq<u8>) -> bool {
    data.len() >= 2 && data[0] == 0x1f && data[1] == 0x8b
}

/// The encoded snapshot inside stored bytes: gzip-wrapped data is
/// decompressed (an I/O error when that fails); other data is the encoded
/// snapshot itself.
pub fn snapshot_payload(data: &[u8]) -> (r: Result<Vec<u8>, SnapshotError>)
    ensures
        !is_gzip(data@) ==> (r matches Ok(p) && p@ == data@),
        is_gzip(data@) ==> match gunzip_result(data@) {
            Some(v) => r matches Ok(p) && p@ == v,
            None => r matches Err(SnapshotError::Io(_)),
        },
{
    if data.len() >= 2 && data[0] == 0x1f && data[1] == 0x8b {
        match gunzip(data) {
            Ok(v) => Ok(v),
            Err(m) => Err(SnapshotError::Io(m)),
        }
    } else {
        let mut v: Vec<u8> = Vec::new();
        let mut i: usize = 0;
        while i < data.len()
            invariant
                i <= data@.len(),
                v@ == data@.take(i as int),
            decreases data@.len() - i,
        {
            v.push(data[i]);
            proof {
                assert(v@ =~= data@.take(i + 1));
            }
            i = i + 1;
        }
        proof {
            assert(data@.take(data@.len() as int) =~= data@);
        }
        Ok(v)
    }
}

/// The stored bytes of an encoded snapshot: its gzip compression, which
/// always succeeds in memory (a failed write would be an I/O error, a
/// failed finish a corruption, "compression failed: " and the message).
pub fn compact_payload(raw: &[u8]) -> (r: Result<Vec<u8>, SnapshotError>)
    ensures
        r matches Ok(v) && v@ == gzip_result(raw@),
{
    match gzip(raw) {
        Ok(v) => Ok(v),
        Err((finishing, m)) => if finishing {
            let mut t = crate::text::string_from("compression failed: ");
            crate::text::push_str(&mut t, m.as_str());
            proof {
                assert(t@ == "compression failed: "@ + m@);
            }
            Err(SnapshotError::Corrupted(t))
        } else {
            Err(SnapshotError::Io(m))
        },
    }
}

/// Accepts a decoded snapshot's version only when it is the current one.
pub fn check_snapshot_version(version: u32) -> (r: Result<(), SnapshotError>)
    ensures
        version == SNAPSHOT_VERSION ==> r is Ok,
        version != SNAPSHOT_VERSION ==> (r matches Err(SnapshotError::VersionMismatch { expected, actual })
            && expected == SNAPSHOT_VERSION && actual == version),
{
    if version != SNAPSHOT_VERSION {
        return Err(SnapshotError::VersionMismatch { expected: SNAPSHOT_VERSION, actual: version });
    }
    Ok(())
}

} // verus!
