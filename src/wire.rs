//! Fixed-width little-endian primitives of the value codec, and the
//! length-prefixed string that the codec builds from them.
use vstd::bytes::*;
use vstd::prelude::*;
use vstd::slice::slice_subrange;
use vstd::slice::slice_to_vec;
use vstd::utf8::*;

verus! {

/// The bytes of a string: its UTF-8 length as a `u64`, then its UTF-8 bytes.
pub open spec fn str_bytes(s: Seq<char>) -> Seq<u8> {
    spec_u64_to_le_bytes(encode_utf8(s).len() as u64) + encode_utf8(s)
}

/// Appends `x` as two little-endian bytes.
pub fn put_u16(out: &mut Vec<u8>, x: u16)
    ensures
        final(out)@ == old(out)@ + spec_u16_to_le_bytes(x),
{
    let mut b = u16_to_le_bytes(x);
    out.append(&mut b);
}

/// Appends `x` as four little-endian bytes.
pub fn put_u32(out: &mut Vec<u8>, x: u32)
    ensures
        final(out)@ == old(out)@ + spec_u32_to_le_bytes(x),
{
    let mut b = u32_to_le_bytes(x);
    out.append(&mut b);
}

/// Appends `x` as eight little-endian bytes.
pub fn put_u64(out: &mut Vec<u8>, x: u64)
    ensures
        final(out)@ == old(out)@ + spec_u64_to_le_bytes(x),
{
    let mut b = u64_to_le_bytes(x);
    out.append(&mut b);
}

/// Appends `x` as sixteen little-endian bytes.
pub fn put_u128(out: &mut Vec<u8>, x: u128)
    ensures
        final(out)@ == old(out)@ + spec_u128_to_le_bytes(x),
{
    let mut b = u128_to_le_bytes(x);
    out.append(&mut b);
}

/// Appends the bytes of `bytes`.
pub fn put_bytes(out: &mut Vec<u8>, bytes: &[u8])
    ensures
        final(out)@ == old(out)@ + bytes@,
{
    let mut b = slice_to_vec(bytes);
    out.append(&mut b);
}

/// Appends a string as its length and its UTF-8 bytes.
pub fn put_str(out: &mut Vec<u8>, s: &String)
    ensures
        final(out)@ == old(out)@ + str_bytes(s@),
{
    let b = s.as_str().as_bytes();
    put_u64(out, b.len() as u64);
    put_bytes(out, b);
}

/// The `n` bytes of `b` from `pos` on, where there are that many.
pub fn take(b: &[u8], pos: usize, n: usize) -> (r: Option<&[u8]>)
    ensures
        r is Some <==> pos + n <= b@.len(),
        b@.len() <= usize::MAX,
        r matches Some(s) ==> s@ == b@.subrange(pos as int, pos + n),
{
    let len = b.len();
    if pos <= len && n <= len - pos {
        Some(slice_subrange(b, pos, pos + n))
    } else {
        None
    }
}

/// Reads a little-endian `u16` at `pos`.
pub fn get_u16(b: &[u8], pos: usize) -> (r: Option<u16>)
    ensures
        r is Some <==> pos + 2 <= b@.len(),
        b@.len() <= usize::MAX,
        r matches Some(x) ==> spec_u16_to_le_bytes(x) == b@.subrange(pos as int, pos + 2),
{
    match take(b, pos, 2) {
        Some(s) => {
            proof {
                lemma_auto_spec_u16_to_from_le_bytes();
            }
            Some(u16_from_le_bytes(s))
        },
        None => None,
    }
}

/// Reads a little-endian `u32` at `pos`.
pub fn get_u32(b: &[u8], pos: usize) -> (r: Option<u32>)
    ensures
        r is Some <==> pos + 4 <= b@.len(),
        b@.len() <= usize::MAX,
        r matches Some(x) ==> spec_u32_to_le_bytes(x) == b@.subrange(pos as int, pos + 4),
{
    match take(b, pos, 4) {
        Some(s) => {
            proof {
                lemma_auto_spec_u32_to_from_le_bytes();
            }
            Some(u32_from_le_bytes(s))
        },
        None => None,
    }
}

/// Reads a little-endian `u64` at `pos`.
pub fn get_u64(b: &[u8], pos: usize) -> (r: Option<u64>)
    ensures
        r is Some <==> pos + 8 <= b@.len(),
        b@.len() <= usize::MAX,
        r matches Some(x) ==> spec_u64_to_le_bytes(x) == b@.subrange(pos as int, pos + 8),
{
    match take(b, pos, 8) {
        Some(s) => {
            proof {
                lemma_auto_spec_u64_to_from_le_bytes();
            }
            Some(u64_from_le_bytes(s))
        },
        None => None,
    }
}

/// Reads a little-endian `u128` at `pos`.
pub fn get_u128(b: &[u8], pos: usize) -> (r: Option<u128>)
    ensures
        r is Some <==> pos + 16 <= b@.len(),
        b@.len() <= usize::MAX,
        r matches Some(x) ==> spec_u128_to_le_bytes(x) == b@.subrange(pos as int, pos + 16),
{
    match take(b, pos, 16) {
        Some(s) => {
            proof {
                lemma_auto_spec_u128_to_from_le_bytes();
            }
            Some(u128_from_le_bytes(s))
        },
        None => None,
    }
}

/// Relies on `String::from_utf8`: it succeeds exactly on valid UTF-8, and the
/// string then holds the characters that the bytes encode.
#[verifier::external_body]
fn string_from_utf8(bytes: Vec<u8>) -> (r: Option<String>)
    ensures
        r is Some <==> valid_utf8(bytes@),
        r matches Some(s) ==> s@ == decode_utf8(bytes@),
{
    String::from_utf8(bytes).ok()
}

/// Where the bytes of `t` stand at `pos`, their length field and their body
/// stand there too.
proof fn lemma_str_at(b: Seq<u8>, pos: int, t: Seq<char>)
    requires
        0 <= pos,
        pos + str_bytes(t).len() <= b.len(),
        str_bytes(t) == b.subrange(pos, pos + str_bytes(t).len()),
    ensures
        b.subrange(pos, pos + 8) == spec_u64_to_le_bytes(encode_utf8(t).len() as u64),
        b.subrange(pos + 8, pos + 8 + encode_utf8(t).len()) == encode_utf8(t),
        str_bytes(t).len() == 8 + encode_utf8(t).len(),
{
    lemma_auto_spec_u64_to_from_le_bytes();
    let l = spec_u64_to_le_bytes(encode_utf8(t).len() as u64);
    assert(b.subrange(pos, pos + 8) =~= str_bytes(t).subrange(0, 8));
    assert(str_bytes(t).subrange(0, 8) =~= l);
    assert(b.subrange(pos + 8, pos + 8 + encode_utf8(t).len()) =~= str_bytes(t).subrange(
        8,
        str_bytes(t).len() as int,
    ));
    assert(str_bytes(t).subrange(8, str_bytes(t).len() as int) =~= encode_utf8(t));
}

/// Reads a length-prefixed string at `pos`, with the position after it.
pub fn get_str(b: &[u8], pos: usize) -> (r: Option<(String, usize)>)
    ensures
        r matches Some((s, p)) ==> pos <= p <= b@.len() && b@.subrange(pos as int, p as int)
            == str_bytes(s@),
        forall|t: Seq<char>|
            pos + str_bytes(t).len() <= b@.len() && #[trigger] str_bytes(t) == b@.subrange(
                pos as int,
                pos + str_bytes(t).len(),
            ) ==> (r matches Some((s, p)) && s@ == t && p == pos + str_bytes(t).len()),
{
    broadcast use encode_utf8_decode_utf8, encode_utf8_valid_utf8, decode_utf8_encode_utf8;

    proof {
        lemma_auto_spec_u64_to_from_le_bytes();
    }

    let n = match get_u64(b, pos) {
        Some(n) => n,
        None => {
            assert forall|t: Seq<char>|
                pos + str_bytes(t).len() <= b@.len() implies !(#[trigger] str_bytes(t)
                == b@.subrange(pos as int, pos + str_bytes(t).len())) by {
                assert(str_bytes(t).len() >= 8);
            }
            return None;
        },
    };
    let len = b.len();
    let start = pos + 8;
    if n > (len - start) as u64 {
        assert forall|t: Seq<char>|
            pos + str_bytes(t).len() <= b@.len() implies !(#[trigger] str_bytes(t)
            == b@.subrange(pos as int, pos + str_bytes(t).len())) by {
            if str_bytes(t) == b@.subrange(pos as int, pos + str_bytes(t).len()) {
                lemma_str_at(b@, pos as int, t);
            }
        }
        return None;
    }
    let bytes = match take(b, start, n as usize) {
        Some(s) => s,
        None => {
            return None;
        },
    };
    let s = match string_from_utf8(slice_to_vec(bytes)) {
        Some(s) => s,
        None => {
            assert forall|t: Seq<char>|
                pos + str_bytes(t).len() <= b@.len() implies !(#[trigger] str_bytes(t)
                == b@.subrange(pos as int, pos + str_bytes(t).len())) by {
                if str_bytes(t) == b@.subrange(pos as int, pos + str_bytes(t).len()) {
                    lemma_str_at(b@, pos as int, t);
                }
            }
            return None;
        },
    };
    let end = start + n as usize;
    assert forall|t: Seq<char>|
        pos + str_bytes(t).len() <= b@.len() && #[trigger] str_bytes(t) == b@.subrange(
            pos as int,
            pos + str_bytes(t).len(),
        ) implies s@ == t && end == pos + str_bytes(t).len() by {
        lemma_str_at(b@, pos as int, t);
    }
    assert(b@.subrange(pos as int, end as int) =~= b@.subrange(pos as int, start as int)
        + bytes@);
    Some((s, end))
}

} // verus!
