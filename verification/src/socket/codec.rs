//! Binary value codec for message bodies.
//!
//! Every value travels as a flat byte sequence: integers as eight
//! little-endian bytes, strings as a length followed by their UTF-8 bytes,
//! lists as a count followed by their items. Each decoder is specified
//! against a spec-level decoder that pins down the result, and a lemma per
//! shape shows that decoding inverts encoding.

use vstd::prelude::*;

use vstd::bytes::{
    lemma_auto_spec_u64_to_from_le_bytes, spec_u64_from_le_bytes, spec_u64_to_le_bytes,
    u64_from_le_bytes, u64_to_le_bytes,
};
use vstd::slice::{slice_subrange, slice_to_vec};
use vstd::utf8::{decode_utf8, encode_utf8, valid_utf8};

verus! {

// ---------------------------------------------------------------------------
// unsigned 64-bit integers
// ---------------------------------------------------------------------------

/// Encoding of a `u64`: its eight little-endian bytes.
pub open spec fn spec_enc_u64(x: u64) -> Seq<u8> {
    spec_u64_to_le_bytes(x)
}

/// Spec-level decoder for a `u64` at position `pos`.
pub open spec fn spec_dec_u64(b: Seq<u8>, pos: int) -> Option<(u64, int)> {
    if 0 <= pos && pos + 8 <= b.len() {
        Some((spec_u64_from_le_bytes(b.subrange(pos, pos + 8)), pos + 8))
    } else {
        None
    }
}

pub proof fn lemma_dec_enc_u64(b: Seq<u8>, pos: int, x: u64)
    requires
        0 <= pos,
        pos + 8 <= b.len(),
        b.subrange(pos, pos + 8) == spec_enc_u64(x),
    ensures
        spec_dec_u64(b, pos) == Some((x, pos + 8)),
{
    lemma_auto_spec_u64_to_from_le_bytes();
}

/// Append the encoding of `x` to `out`.
pub fn enc_u64_into(out: &mut Vec<u8>, x: u64)
    ensures
        final(out)@ == old(out)@ + spec_enc_u64(x),
{
    let bytes = u64_to_le_bytes(x);
    out.extend_from_slice(bytes.as_slice());
    proof {
        assert(out@ =~= old(out)@ + spec_enc_u64(x));
    }
}

/// Decode a `u64` at `pos`, exactly as the spec-level decoder does.
pub fn dec_u64(buf: &[u8], pos: usize) -> (r: Option<(u64, usize)>)
    ensures
        match r {
            Some((x, p)) => spec_dec_u64(buf@, pos as int) == Some((x, p as int)),
            None => spec_dec_u64(buf@, pos as int) is None,
        },
{
    if pos <= buf.len() && buf.len() - pos >= 8 {
        let x = u64_from_le_bytes(slice_subrange(buf, pos, pos + 8));
        Some((x, pos + 8))
    } else {
        None
    }
}

// ---------------------------------------------------------------------------
// signed 64-bit integers (identifiers), via their two's-complement bits
// ---------------------------------------------------------------------------

/// Encoding of an `i64`: the little-endian bytes of its bit pattern.
pub open spec fn spec_enc_i64(x: i64) -> Seq<u8> {
    spec_enc_u64(x as u64)
}

pub open spec fn spec_dec_i64(b: Seq<u8>, pos: int) -> Option<(i64, int)> {
    match spec_dec_u64(b, pos) {
        Some((x, p)) => Some((x as i64, p)),
        None => None,
    }
}

proof fn lemma_i64_bits_roundtrip(x: i64)
    ensures
        ((x as u64) as i64) == x,
{
    assert(((x as u64) as i64) == x) by (bit_vector);
}

pub proof fn lemma_dec_enc_i64(b: Seq<u8>, pos: int, x: i64)
    requires
        0 <= pos,
        pos + 8 <= b.len(),
        b.subrange(pos, pos + 8) == spec_enc_i64(x),
    ensures
        spec_dec_i64(b, pos) == Some((x, pos + 8)),
{
    lemma_dec_enc_u64(b, pos, x as u64);
    lemma_i64_bits_roundtrip(x);
}

pub fn enc_i64_into(out: &mut Vec<u8>, x: i64)
    ensures
        final(out)@ == old(out)@ + spec_enc_i64(x),
{
    enc_u64_into(out, x as u64);
}

pub fn dec_i64(buf: &[u8], pos: usize) -> (r: Option<(i64, usize)>)
    ensures
        match r {
            Some((x, p)) => spec_dec_i64(buf@, pos as int) == Some((x, p as int)),
            None => spec_dec_i64(buf@, pos as int) is None,
        },
{
    match dec_u64(buf, pos) {
        Some((x, p)) => Some((x as i64, p)),
        None => None,
    }
}

// ---------------------------------------------------------------------------
// strings, as a byte count followed by UTF-8 bytes
// ---------------------------------------------------------------------------

/// Encoding of a string: the length of its UTF-8 form, then those bytes.
pub open spec fn spec_enc_str(s: Seq<char>) -> Seq<u8> {
    spec_enc_u64(encode_utf8(s).len() as u64) + encode_utf8(s)
}

/// Spec-level decoder for a string at position `pos`.
pub open spec fn spec_dec_str(b: Seq<u8>, pos: int) -> Option<(Seq<char>, int)> {
    match spec_dec_u64(b, pos) {
        Some((n, p)) => {
            if p + n <= b.len() && valid_utf8(b.subrange(p, p + n)) {
                Some((decode_utf8(b.subrange(p, p + n)), p + n))
            } else {
                None
            }
        },
        None => None,
    }
}

/// Relies on `String::from_utf8`: it succeeds exactly on valid UTF-8 input
/// and the returned string's bytes are the input bytes, unchanged.
#[verifier::external_body]
fn string_from_utf8(v: Vec<u8>) -> (r: Option<String>)
    ensures
        r is Some <==> valid_utf8(v@),
        r is Some ==> encode_utf8(r.unwrap()@) == v@,
{
    String::from_utf8(v).ok()
}

pub proof fn lemma_dec_enc_str(b: Seq<u8>, pos: int, s: Seq<char>)
    requires
        0 <= pos,
        pos + spec_enc_str(s).len() <= b.len(),
        b.subrange(pos, pos + spec_enc_str(s).len()) == spec_enc_str(s),
        encode_utf8(s).len() <= u64::MAX,
    ensures
        spec_dec_str(b, pos) == Some((s, pos + spec_enc_str(s).len())),
{
    lemma_auto_spec_u64_to_from_le_bytes();
    let u = encode_utf8(s);
    let n = u.len() as u64;
    let e = spec_enc_str(s);
    assert(e == spec_enc_u64(n) + u);
    assert(e.len() == 8 + u.len());
    assert(b.subrange(pos, pos + 8) =~= e.subrange(0, 8));
    assert(e.subrange(0, 8) =~= spec_enc_u64(n));
    lemma_dec_enc_u64(b, pos, n);
    assert(b.subrange(pos + 8, pos + 8 + n as int) =~= e.subrange(8, 8 + n as int));
    assert(e.subrange(8, 8 + n as int) =~= u);
    vstd::utf8::encode_utf8_valid_utf8(s);
    vstd::utf8::encode_utf8_decode_utf8(s);
}

pub fn enc_str_into(out: &mut Vec<u8>, s: &str)
    ensures
        final(out)@ == old(out)@ + spec_enc_str(s@),
{
    let bytes = s.as_bytes();
    enc_u64_into(out, bytes.len() as u64);
    out.extend_from_slice(bytes);
    proof {
        assert(out@ =~= old(out)@ + spec_enc_str(s@));
    }
}

pub fn dec_str(buf: &[u8], pos: usize) -> (r: Option<(String, usize)>)
    ensures
        match r {
            Some((s, p)) => spec_dec_str(buf@, pos as int) == Some((s@, p as int)),
            None => spec_dec_str(buf@, pos as int) is None,
        },
{
    match dec_u64(buf, pos) {
        Some((n, p)) => {
            if n <= (buf.len() - p) as u64 {
                let end = p + n as usize;
                let bytes = slice_to_vec(slice_subrange(buf, p, end));
                match string_from_utf8(bytes) {
                    Some(s) => {
                        proof {
                            vstd::utf8::encode_utf8_decode_utf8(s@);
                        }
                        Some((s, end))
                    },
                    None => None,
                }
            } else {
                None
            }
        },
        None => None,
    }
}

} // verus!
