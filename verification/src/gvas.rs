//! The compressed save container: a 12-byte header (uncompressed length, compressed
//! length, a 3-byte magic and one more byte) followed by a zlib (`PlZ`) or Oodle (`PlM`)
//! payload.
use vstd::prelude::*;
use vstd::string::StringSliceAdditionalSpecFns;
use std::io::{Read, Write};
use crate::db::owned;
use crate::save_editor::u32_le;
use crate::wire::{bytes_match_at, le_u32, matches_at, read_u32_le};

verus! {

broadcast use vstd::string::group_string_axioms;

/// What decoding a zlib stream with `flate2::read::ZlibDecoder` and `read_to_end` gives:
/// the decompressed bytes, or the error's text.
pub uninterp spec fn zlib_decode(data: Seq<u8>) -> Result<Seq<u8>, Seq<char>>;

/// What compressing bytes with `flate2::write::ZlibEncoder` at `Compression::best()`
/// gives: the zlib stream, or the error's text.
pub uninterp spec fn zlib_encode_best(data: Seq<u8>) -> Result<Seq<u8>, Seq<char>>;

/// `c` is a zlib stream that decodes to `d`.
pub open spec fn decodes_to(c: Seq<u8>, d: Seq<u8>) -> bool {
    zlib_decode(c) == Ok::<Seq<u8>, Seq<char>>(d)
}

/// Views of a byte result.
pub open spec fn bytes_result(r: Result<Vec<u8>, String>) -> Result<Seq<u8>, Seq<char>> {
    match r {
        Ok(v) => Ok(v@),
        Err(e) => Err(e@),
    }
}

/// Decompresses a zlib stream with `flate2::read::ZlibDecoder::read_to_end`; the result is
/// the named `zlib_decode` of the input. Input whose first byte names a compression method
/// other than 8 (deflate) in its low four bits fails: the decoder (miniz_oxide) rejects
/// such a zlib header before reading further.
#[verifier::external_body]
fn zlib_inflate(data: &[u8]) -> (r: Result<Vec<u8>, String>)
    ensures
        bytes_result(r) == zlib_decode(data@),
        data@.len() >= 2 && data@[0] % 16 != 8 ==> r is Err,
{
    let mut decoder = flate2::read::ZlibDecoder::new(data);
    let mut out = Vec::new();
    match decoder.read_to_end(&mut out) {
        Ok(_) => Ok(out),
        Err(e) => Err(e.to_string()),
    }
}

/// Compresses bytes with `flate2::write::ZlibEncoder` at `Compression::best()`; the result
/// is the named `zlib_encode_best` of the input. Compressing into memory succeeds (the
/// encoder's only failures come from its output writer, and a `Vec` never fails), and the
/// stream it produces decodes back to the input (a complete zlib stream of the data).
#[verifier::external_body]
fn zlib_deflate_best(data: &[u8]) -> (r: Result<Vec<u8>, String>)
    ensures
        bytes_result(r) == zlib_encode_best(data@),
        r is Ok,
        r is Ok ==> decodes_to(r->Ok_0@, data@),
{
    let mut encoder = flate2::write::ZlibEncoder::new(Vec::new(), flate2::Compression::best());
    match encoder.write_all(data) {
        Ok(()) => {},
        Err(e) => return Err(e.to_string()),
    }
    encoder.finish().map_err(|e| e.to_string())
}

/// What the container holds: the decompressed data, or, for an Oodle payload, where it
/// starts and how long its decompressed form is (the Oodle library does that work).
#[derive(Debug, Clone, PartialEq)]
pub enum Payload {
    Data(Vec<u8>),
    Oodle { start: usize, uncompressed_len: usize },
}

/// The view of a container's content.
pub enum PayloadView {
    Data(Seq<u8>),
    Oodle { start: nat, uncompressed_len: nat },
}

pub open spec fn payload_view(p: Payload) -> PayloadView {
    match p {
        Payload::Data(v) => PayloadView::Data(v@),
        Payload::Oodle { start, uncompressed_len } => PayloadView::Oodle {
            start: start as nat,
            uncompressed_len: uncompressed_len as nat,
        },
    }
}

/// The content of a save container. Shorter than 12 bytes: `File too short`. Magic
/// `PlZ`: the zlib payload after the header is decoded (its error ends the read); when
/// the result is itself a zlib stream (a doubly compressed save) it is decoded once more.
/// Magic `PlM`: an Oodle payload. Any other magic: `Unsupported magic`.
pub open spec fn gvas_content(data: Seq<u8>) -> Result<PayloadView, Seq<char>> {
    if data.len() < 12 {
        Err("File too short"@)
    } else if matches_at(data, 8, "PlZ".spec_bytes()) {
        match zlib_decode(data.subrange(12, data.len() as int)) {
            Err(e) => Err(e),
            Ok(inter) => match zlib_decode(inter) {
                Ok(d) => Ok(PayloadView::Data(d)),
                Err(_) => Ok(PayloadView::Data(inter)),
            },
        }
    } else if matches_at(data, 8, "PlM".spec_bytes()) {
        Ok(PayloadView::Oodle { start: 12, uncompressed_len: le_u32(data, 0) })
    } else {
        Err("Unsupported magic"@)
    }
}

/// Reading the container `f` gives back the data `d`.
pub open spec fn reads_back(f: Seq<u8>, d: Seq<u8>) -> bool {
    gvas_content(f) == Ok::<PayloadView, Seq<char>>(PayloadView::Data(d))
}

/// Views of a container read.
pub open spec fn content_view(r: Result<Payload, String>) -> Result<PayloadView, Seq<char>> {
    match r {
        Ok(p) => Ok(payload_view(p)),
        Err(e) => Err(e@),
    }
}

/// Reads a save container's bytes (see `gvas_content`).
pub fn decompress_gvas_bytes(data: &[u8]) -> (r: Result<Payload, String>)
    ensures
        content_view(r) == gvas_content(data@),
        data@.len() >= 12 && matches_at(data@, 8, "PlZ".spec_bytes()) ==> (zlib_decode(
            data@.subrange(12, data@.len() as int),
        ) matches Ok(inter) ==> (inter.len() >= 2 && inter[0] % 16 != 8 ==> content_view(r)
            == Ok::<PayloadView, Seq<char>>(PayloadView::Data(inter)))),
{
    if data.len() < 12 {
        return Err(owned("File too short"));
    }
    let uncompressed_len = read_u32_le(data, 0) as usize;
    if bytes_match_at(data, 8, "PlZ".as_bytes()) {
        let body = crate::wire::slice_range(data, 12, data.len());
        let intermediate = match zlib_inflate(body) {
            Ok(v) => v,
            Err(_) => {
                return match zlib_inflate(body) {
                    Ok(v) => Ok(Payload::Data(v)),
                    Err(e) => Err(e),
                };
            },
        };
        match zlib_inflate(intermediate.as_slice()) {
            Ok(d) => Ok(Payload::Data(d)),
            Err(_) => Ok(Payload::Data(intermediate)),
        }
    } else if bytes_match_at(data, 8, "PlM".as_bytes()) {
        Ok(Payload::Oodle { start: 12, uncompressed_len })
    } else {
        Err(owned("Unsupported magic"))
    }
}

/// The container written for decompressed data, reusing the magic bytes of the given
/// header: the data's length and the payload's length as 32-bit little-endian values
/// (truncated), header bytes 8..12, then the best-compression zlib payload. A header
/// under 12 bytes or without the `PlZ` magic is refused with a message, and a
/// compression error is passed on.
pub open spec fn gvas_file(data: Seq<u8>, header: Seq<u8>) -> Result<Seq<u8>, Seq<char>> {
    if header.len() < 12 {
        Err("Original header too short"@)
    } else if !matches_at(header, 8, "PlZ".spec_bytes()) {
        Err("Saving only supports Zlib (PlZ) compressed saves currently"@)
    } else {
        match zlib_encode_best(data) {
            Err(e) => Err(e),
            Ok(c) => Ok(
                u32_le((data.len() as u32) as nat) + u32_le((c.len() as u32) as nat)
                    + header.subrange(8, 12) + c,
            ),
        }
    }
}

/// Builds the container bytes for decompressed data (see `gvas_file`).
pub fn compress_gvas(decompressed: &[u8], original_header: &[u8]) -> (r: Result<Vec<u8>, String>)
    ensures
        bytes_result(r) == gvas_file(decompressed@, original_header@),
        r is Err <==> (original_header@.len() < 12 || !matches_at(original_header@, 8, "PlZ".spec_bytes())),
        r matches Ok(f) ==> f@.len() >= 12 && matches_at(f@, 8, "PlZ".spec_bytes()) && decodes_to(
            f@.subrange(12, f@.len() as int),
            decompressed@,
        ),
        r matches Ok(f) ==> (zlib_decode(decompressed@) is Err ==> reads_back(f@, decompressed@)),
{
    if original_header.len() < 12 {
        return Err(owned("Original header too short"));
    }
    if !bytes_match_at(original_header, 8, "PlZ".as_bytes()) {
        return Err(owned("Saving only supports Zlib (PlZ) compressed saves currently"));
    }
    let payload = match zlib_deflate_best(decompressed) {
        Ok(p) => p,
        Err(e) => return Err(e),
    };
    let mut out: Vec<u8> = Vec::new();
    let a = crate::save_editor::u32_le_bytes(decompressed.len() as u32);
    let b = crate::save_editor::u32_le_bytes(payload.len() as u32);
    out.push(a[0]);
    out.push(a[1]);
    out.push(a[2]);
    out.push(a[3]);
    out.push(b[0]);
    out.push(b[1]);
    out.push(b[2]);
    out.push(b[3]);
    out.push(original_header[8]);
    out.push(original_header[9]);
    out.push(original_header[10]);
    out.push(original_header[11]);
    let ghost head = out@;
    let mut i: usize = 0;
    while i < payload.len()
        invariant
            i <= payload@.len(),
            out@ =~= head + payload@.take(i as int),
        decreases payload@.len() - i,
    {
        out.push(payload[i]);
        i = i + 1;
    }
    assert(head =~= u32_le((decompressed@.len() as u32) as nat) + u32_le(
        (payload@.len() as u32) as nat,
    ) + original_header@.subrange(8, 12));
    assert(payload@.take(i as int) =~= payload@);
    assert(out@.subrange(12, out@.len() as int) =~= payload@);
    proof {
        lemma_zlib_magic_len();
        assert(out@[8] == original_header@[8] && out@[9] == original_header@[9] && out@[10]
            == original_header@[10]);
        assert(matches_at(out@, 8, "PlZ".spec_bytes()));
        if zlib_decode(decompressed@) is Err {
            lemma_container_roundtrip(decompressed@, original_header@, payload@);
        }
    }
    Ok(out)
}

/// The `PlZ` magic is three bytes.
proof fn lemma_zlib_magic_len()
    ensures
        "PlZ".spec_bytes().len() == 3,
{
    reveal_strlit("PlZ");
    reveal_with_fuel(vstd::utf8::encode_utf8, 4);
}

proof fn lemma_container_roundtrip(data: Seq<u8>, header: Seq<u8>, c: Seq<u8>)
    requires
        header.len() >= 12,
        matches_at(header, 8, "PlZ".spec_bytes()),
        decodes_to(c, data),
        zlib_decode(data) is Err,
    ensures
        reads_back(
            u32_le((data.len() as u32) as nat) + u32_le((c.len() as u32) as nat) + header.subrange(
                8,
                12,
            ) + c,
            data,
        ),
{
    let f = u32_le((data.len() as u32) as nat) + u32_le((c.len() as u32) as nat) + header.subrange(
        8,
        12,
    ) + c;
    lemma_zlib_magic_len();
    assert(f.subrange(12, f.len() as int) =~= c);
    assert(matches_at(f, 8, "PlZ".spec_bytes())) by {
        assert forall|k: int| 0 <= k < "PlZ".spec_bytes().len() implies f[8 + k]
            == "PlZ".spec_bytes()[k] by {
            assert(f[8 + k] == header[8 + k]);
        }
    }
}

} // verus!
