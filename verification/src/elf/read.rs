//! Reading fixed-size integers, fixed byte strings and NUL-terminated UTF-8
//! strings from byte slices.

use crate::elf::Endianness;
use vstd::prelude::*;
use vstd::slice::slice_subrange;
use vstd::utf8::{decode_utf8, valid_utf8};

verus! {

broadcast use vstd::string::group_string_axioms;

/// The 16-bit number stored at `s[i..i + 2]` in byte order `e`.
pub open spec fn u16_at(s: Seq<u8>, i: int, e: Endianness) -> u16 {
    match e {
        Endianness::Little => (s[i] + 0x100 * s[i + 1]) as u16,
        Endianness::Big => (0x100 * s[i] + s[i + 1]) as u16,
    }
}

/// The 32-bit number stored at `s[i..i + 4]` in byte order `e`.
pub open spec fn u32_at(s: Seq<u8>, i: int, e: Endianness) -> u32 {
    match e {
        Endianness::Little => (s[i] + 0x100 * s[i + 1] + 0x1_0000 * s[i + 2] + 0x100_0000 * s[i
            + 3]) as u32,
        Endianness::Big => (0x100_0000 * s[i] + 0x1_0000 * s[i + 1] + 0x100 * s[i + 2] + s[i
            + 3]) as u32,
    }
}

/// The 64-bit number stored at `s[i..i + 8]` in byte order `e`.
pub open spec fn u64_at(s: Seq<u8>, i: int, e: Endianness) -> u64 {
    match e {
        Endianness::Little => (s[i] + 0x100 * s[i + 1] + 0x1_0000 * s[i + 2] + 0x100_0000 * s[i
            + 3] + 0x1_0000_0000 * s[i + 4] + 0x100_0000_0000 * s[i + 5] + 0x1_0000_0000_0000
            * s[i + 6] + 0x100_0000_0000_0000 * s[i + 7]) as u64,
        Endianness::Big => (0x100_0000_0000_0000 * s[i] + 0x1_0000_0000_0000 * s[i + 1]
            + 0x100_0000_0000 * s[i + 2] + 0x1_0000_0000 * s[i + 3] + 0x100_0000 * s[i + 4]
            + 0x1_0000 * s[i + 5] + 0x100 * s[i + 6] + s[i + 7]) as u64,
    }
}

/// The number at `s.skip(p)[i..]` is the number at `s[p + i..]`.
pub(crate) proof fn lemma_u32_at_skip(s: Seq<u8>, p: int, i: int, e: Endianness)
    requires
        0 <= p,
        0 <= i,
        p + i + 4 <= s.len(),
    ensures
        u32_at(s.skip(p), i, e) == u32_at(s, p + i, e),
{
    assert(s.skip(p)[i] == s[p + i]);
    assert(s.skip(p)[i + 1] == s[p + i + 1]);
    assert(s.skip(p)[i + 2] == s[p + i + 2]);
    assert(s.skip(p)[i + 3] == s[p + i + 3]);
}

/// The number at `s.skip(p)[i..]` is the number at `s[p + i..]`.
pub(crate) proof fn lemma_u64_at_skip(s: Seq<u8>, p: int, i: int, e: Endianness)
    requires
        0 <= p,
        0 <= i,
        p + i + 8 <= s.len(),
    ensures
        u64_at(s.skip(p), i, e) == u64_at(s, p + i, e),
{
    assert(s.skip(p)[i] == s[p + i]);
    assert(s.skip(p)[i + 1] == s[p + i + 1]);
    assert(s.skip(p)[i + 2] == s[p + i + 2]);
    assert(s.skip(p)[i + 3] == s[p + i + 3]);
    assert(s.skip(p)[i + 4] == s[p + i + 4]);
    assert(s.skip(p)[i + 5] == s[p + i + 5]);
    assert(s.skip(p)[i + 6] == s[p + i + 6]);
    assert(s.skip(p)[i + 7] == s[p + i + 7]);
}

/// Reads one byte with `nom::number::complete::u8`, which fails exactly on
/// empty input and otherwise yields the first byte and the rest of the input.
#[verifier::external_body]
pub(crate) fn read_u8(input: &[u8]) -> (r: Option<(&[u8], u8)>)
    ensures
        r is Some <==> input@.len() >= 1,
        r matches Some((rest, v)) ==> rest@ == input@.skip(1) && v == input@[0],
{
    match nom::number::complete::u8::<&[u8], nom::error::Error<&[u8]>>(input) {
        Ok((rest, v)) => Some((rest, v)),
        Err(_) => None,
    }
}

/// Reads a 16-bit number with `nom::number::complete::u16`, which fails
/// exactly on input shorter than two bytes and otherwise yields the number the
/// first two bytes encode in byte order `e`, and the rest of the input.
#[verifier::external_body]
pub(crate) fn read_u16(input: &[u8], e: Endianness) -> (r: Option<(&[u8], u16)>)
    ensures
        r is Some <==> input@.len() >= 2,
        r matches Some((rest, v)) ==> rest@ == input@.skip(2) && v == u16_at(input@, 0, e),
{
    let endian = match e {
        Endianness::Big => nom::number::Endianness::Big,
        Endianness::Little => nom::number::Endianness::Little,
    };
    match nom::number::complete::u16::<&[u8], nom::error::Error<&[u8]>>(endian)(input) {
        Ok((rest, v)) => Some((rest, v)),
        Err(_) => None,
    }
}

/// Reads a 32-bit number with `nom::number::complete::u32`, which fails
/// exactly on input shorter than four bytes and otherwise yields the number the
/// first four bytes encode in byte order `e`, and the rest of the input.
#[verifier::external_body]
pub(crate) fn read_u32(input: &[u8], e: Endianness) -> (r: Option<(&[u8], u32)>)
    ensures
        r is Some <==> input@.len() >= 4,
        r matches Some((rest, v)) ==> rest@ == input@.skip(4) && v == u32_at(input@, 0, e),
{
    let endian = match e {
        Endianness::Big => nom::number::Endianness::Big,
        Endianness::Little => nom::number::Endianness::Little,
    };
    match nom::number::complete::u32::<&[u8], nom::error::Error<&[u8]>>(endian)(input) {
        Ok((rest, v)) => Some((rest, v)),
        Err(_) => None,
    }
}

/// Reads a 64-bit number with `nom::number::complete::u64`, which fails
/// exactly on input shorter than eight bytes and otherwise yields the number
/// the first eight bytes encode in byte order `e`, and the rest of the input.
#[verifier::external_body]
pub(crate) fn read_u64(input: &[u8], e: Endianness) -> (r: Option<(&[u8], u64)>)
    ensures
        r is Some <==> input@.len() >= 8,
        r matches Some((rest, v)) ==> rest@ == input@.skip(8) && v == u64_at(input@, 0, e),
{
    let endian = match e {
        Endianness::Big => nom::number::Endianness::Big,
        Endianness::Little => nom::number::Endianness::Little,
    };
    match nom::number::complete::u64::<&[u8], nom::error::Error<&[u8]>>(endian)(input) {
        Ok((rest, v)) => Some((rest, v)),
        Err(_) => None,
    }
}

/// Matches the bytes `t` at the start of `input` and gives back what follows.
pub fn tag<'a>(input: &'a [u8], t: &[u8]) -> (r: Option<&'a [u8]>)
    ensures
        r is Some <==> (t@.len() <= input@.len() && input@.take(t@.len() as int) == t@),
        r matches Some(rest) ==> rest@ == input@.skip(t@.len() as int),
{
    if input.len() < t.len() {
        return None;
    }
    let mut i: usize = 0;
    while i < t.len()
        invariant
            t@.len() <= input@.len(),
            i <= t@.len(),
            forall|k: int| 0 <= k < i ==> input@[k] == t@[k],
        decreases t@.len() - i,
    {
        if input[i] != t[i] {
            assert(input@.take(t@.len() as int)[i as int] != t@[i as int]);
            return None;
        }
        i = i + 1;
    }
    assert(input@.take(t@.len() as int) =~= t@);
    Some(slice_subrange(input, t.len(), input.len()))
}

/// Splits off the first `n` bytes of `input`: gives back the rest and the
/// bytes taken.
pub fn take(input: &[u8], n: usize) -> (r: Option<(&[u8], &[u8])>)
    ensures
        r is Some <==> n <= input@.len(),
        r matches Some((rest, taken)) ==> rest@ == input@.skip(n as int) && taken@ == input@.take(
            n as int,
        ),
{
    if n <= input.len() {
        Some((slice_subrange(input, n, input.len()), slice_subrange(input, 0, n)))
    } else {
        None
    }
}

/// Decodes `bytes` as UTF-8 with `std::str::from_utf8`, which fails exactly
/// on byte strings that are not well-formed UTF-8 and otherwise yields the
/// text whose characters the bytes encode.
#[verifier::external_body]
fn str_from_utf8(bytes: &[u8]) -> (r: Option<&str>)
    ensures
        r is Some <==> valid_utf8(bytes@),
        r matches Some(s) ==> s@ == decode_utf8(bytes@),
{
    match std::str::from_utf8(bytes) {
        Ok(s) => Some(s),
        Err(_) => None,
    }
}

/// `s[j]` is the first zero byte of `s` at or after `p`.
pub open spec fn is_first_nul(s: Seq<u8>, p: int, j: int) -> bool {
    &&& p <= j < s.len()
    &&& s[j] == 0
    &&& forall|k: int| p <= k < j ==> s[k] != 0
}

/// `s` holds a zero byte at or after position `p`.
pub open spec fn nul_terminated(s: Seq<u8>, p: int) -> bool {
    exists|j: int| is_first_nul(s, p, j)
}

/// The bytes from position `p` up to (and without) the first zero byte after it.
pub open spec fn cstr_bytes(s: Seq<u8>, p: int) -> Seq<u8> {
    s.subrange(p, choose|j: int| is_first_nul(s, p, j))
}

/// A zero byte is the first one after `p` in only one place.
proof fn lemma_first_nul_unique(s: Seq<u8>, p: int, j1: int, j2: int)
    requires
        is_first_nul(s, p, j1),
        is_first_nul(s, p, j2),
    ensures
        j1 == j2,
{
    if j1 < j2 {
        assert(s[j1] != 0);
    } else if j2 < j1 {
        assert(s[j2] != 0);
    }
}

/// The NUL-terminated UTF-8 string that starts at `buf[pos]`, as text;
/// `None` when no zero byte follows in `buf` or the bytes before it are not
/// well-formed UTF-8.
pub fn try_read_cstr(buf: &[u8], pos: usize) -> (r: Option<String>)
    ensures
        r is Some <==> nul_terminated(buf@, pos as int) && valid_utf8(cstr_bytes(buf@, pos as int)),
        r matches Some(text) ==> text@ == decode_utf8(cstr_bytes(buf@, pos as int)),
{
    let mut i: usize = pos;
    while i < buf.len()
        invariant
            pos <= i,
            forall|k: int| pos <= k < i ==> buf@[k] != 0,
        decreases buf@.len() - i,
    {
        if buf[i] == 0 {
            assert(is_first_nul(buf@, pos as int, i as int));
            proof {
                let c = choose|j: int| is_first_nul(buf@, pos as int, j);
                lemma_first_nul_unique(buf@, pos as int, i as int, c);
            }
            let bytes = slice_subrange(buf, pos, i);
            return match str_from_utf8(bytes) {
                Some(text) => Some(text.to_string()),
                None => None,
            };
        }
        i = i + 1;
    }
    assert(!nul_terminated(buf@, pos as int)) by {
        if nul_terminated(buf@, pos as int) {
            let c = choose|j: int| is_first_nul(buf@, pos as int, j);
            assert(buf@[c] != 0);
        }
    }
    None
}

/// The NUL-terminated UTF-8 string that starts at `buf[pos]`, as text.
pub fn read_cstr(buf: &[u8], pos: usize) -> (r: String)
    requires
        nul_terminated(buf@, pos as int),
        valid_utf8(cstr_bytes(buf@, pos as int)),
    ensures
        r@ == decode_utf8(cstr_bytes(buf@, pos as int)),
{
    match try_read_cstr(buf, pos) {
        Some(text) => text,
        None => {
            assert(false);
            String::new()
        },
    }
}

} // verus!
