//! Little-endian integers, byte-pattern search and length-prefixed strings as they are
//! laid out in GVAS save buffers.
use vstd::prelude::*;
use crate::text::{decode_utf16_lossy, decode_utf8_lossy, lossy_text, pop_char, push_char, utf16_lossy};

verus! {

/// Unsigned 32-bit little-endian value of the four bytes at `i`.
pub open spec fn le_u32(s: Seq<u8>, i: int) -> nat {
    (s[i] as nat) + (s[i + 1] as nat) * 256 + (s[i + 2] as nat) * 65536 + (s[i + 3] as nat)
        * 16777216
}

/// Unsigned 64-bit little-endian value of the eight bytes at `i`.
pub open spec fn le_u64(s: Seq<u8>, i: int) -> nat {
    le_u32(s, i) + le_u32(s, i + 4) * 4294967296
}

/// Two's complement reading of a 32-bit pattern.
pub open spec fn as_i32(u: nat) -> int {
    if u < 0x8000_0000 {
        u as int
    } else {
        u - 0x1_0000_0000
    }
}

/// `pat` occurs in `s` starting at `i`.
pub open spec fn matches_at(s: Seq<u8>, i: int, pat: Seq<u8>) -> bool {
    &&& 0 <= i
    &&& i + pat.len() <= s.len()
    &&& forall|k: int| 0 <= k < pat.len() ==> s[i + k] == pat[k]
}

/// The first start position in `lo..hi` at which `pat` occurs.
pub open spec fn first_match(s: Seq<u8>, pat: Seq<u8>, lo: int, hi: int) -> Option<int>
    decreases hi - lo,
{
    if lo >= hi {
        None
    } else if matches_at(s, lo, pat) {
        Some(lo)
    } else {
        first_match(s, pat, lo + 1, hi)
    }
}

/// An optional position read as an integer.
pub open spec fn opt_pos(r: Option<usize>) -> Option<int> {
    match r {
        Some(i) => Some(i as int),
        None => None,
    }
}

pub proof fn lemma_first_match_found(s: Seq<u8>, pat: Seq<u8>, lo: int, hi: int)
    ensures
        first_match(s, pat, lo, hi) matches Some(i) ==> lo <= i < hi && matches_at(s, i, pat),
    decreases hi - lo,
{
    if lo < hi && !matches_at(s, lo, pat) {
        lemma_first_match_found(s, pat, lo + 1, hi);
    }
}

pub fn read_u32_le(bytes: &[u8], i: usize) -> (r: u32)
    requires
        i + 4 <= bytes@.len(),
    ensures
        r == le_u32(bytes@, i as int),
{
    (bytes[i] as u32) + (bytes[i + 1] as u32) * 256 + (bytes[i + 2] as u32) * 65536 + (bytes[i
        + 3] as u32) * 16777216
}

pub fn read_u64_le(bytes: &[u8], i: usize) -> (r: u64)
    requires
        i + 8 <= bytes@.len(),
    ensures
        r == le_u64(bytes@, i as int),
{
    let _n = bytes.len();
    let lo = read_u32_le(bytes, i) as u64;
    let hi = read_u32_le(bytes, i + 4) as u64;
    lo + hi * 4294967296
}

pub fn u32_to_i32(u: u32) -> (r: i32)
    ensures
        r == as_i32(u as nat),
{
    if u < 0x8000_0000 {
        u as i32
    } else {
        let d = (u - 0x8000_0000) as i32;
        d - 0x7fff_ffff - 1
    }
}

/// Whether `pat` occurs in `bytes` at `i` (in bounds).
pub fn bytes_match_at(bytes: &[u8], i: usize, pat: &[u8]) -> (r: bool)
    ensures
        r == matches_at(bytes@, i as int, pat@),
{
    if i > bytes.len() || pat.len() > bytes.len() - i {
        return false;
    }
    let mut k: usize = 0;
    while k < pat.len()
        invariant
            i + pat@.len() <= bytes@.len(),
            bytes@.len() <= usize::MAX,
            k <= pat@.len(),
            forall|j: int| 0 <= j < k ==> bytes@[i + j] == pat@[j],
        decreases pat@.len() - k,
    {
        if bytes[i + k] != pat[k] {
            return false;
        }
        k = k + 1;
    }
    true
}

/// First start position in `lo..hi` at which `pat` occurs in `bytes`.
pub fn find_first(bytes: &[u8], pat: &[u8], lo: usize, hi: usize) -> (r: Option<usize>)
    ensures
        opt_pos(r) == first_match(bytes@, pat@, lo as int, hi as int),
{
    let mut i = lo;
    while i < hi
        invariant
            lo <= i || hi <= lo,
            i <= hi || hi <= lo,
            first_match(bytes@, pat@, lo as int, hi as int) == first_match(
                bytes@,
                pat@,
                i as int,
                hi as int,
            ),
        decreases hi - i,
    {
        if bytes_match_at(bytes, i, pat) {
            return Some(i);
        }
        i = i + 1;
    }
    None
}

/// First start position in `lo..` at which `pat` occurs and ends by `end` (the first
/// window of a `windows(pat.len())` scan over `bytes[lo..end]`).
pub fn find_within(bytes: &[u8], pat: &[u8], lo: usize, end: usize) -> (r: Option<usize>)
    requires
        end < usize::MAX,
    ensures
        opt_pos(r) == first_match(bytes@, pat@, lo as int, end - pat@.len() + 1),
{
    if end < pat.len() {
        return None;
    }
    find_first(bytes, pat, lo, end - pat.len() + 1)
}

/// The text with one trailing NUL character removed, if there is one.
pub open spec fn strip_nul(c: Seq<char>) -> Seq<char> {
    if c.len() > 0 && c.last() == '\0' {
        c.drop_last()
    } else {
        c
    }
}

/// Little-endian UTF-16 code units of a byte run (pairs of bytes).
pub open spec fn u16_units(b: Seq<u8>) -> Seq<u16> {
    Seq::new(b.len() / 2, |k: int| ((b[2 * k] as nat) + (b[2 * k + 1] as nat) * 256) as u16)
}

/// A length-prefixed string at `off`: the text and the offset after it; `None` where
/// reading it overflows an offset or negates the most negative length.
/// A positive length prefix counts UTF-8 bytes, a negative one UTF-16 code units; a
/// prefix that does not fit the buffer reads as the empty text.
pub open spec fn fstring_at(s: Seq<u8>, off: int) -> Option<(Seq<char>, int)> {
    if off + 4 > usize::MAX {
        None
    } else if off + 4 > s.len() {
        Some((Seq::empty(), off))
    } else {
        let n = as_i32(le_u32(s, off));
        let o = off + 4;
        if n == 0 {
            Some((Seq::empty(), o))
        } else if n > 0 {
            if o + n > usize::MAX {
                None
            } else if o + n > s.len() {
                Some((Seq::empty(), o))
            } else {
                Some((strip_nul(lossy_text(s.subrange(o, o + n))), o + n))
            }
        } else if n == -0x8000_0000 {
            None
        } else {
            let w = -n;
            if w * 2 > usize::MAX || o + w * 2 > usize::MAX {
                None
            } else if o + w * 2 > s.len() {
                Some((Seq::empty(), o))
            } else {
                Some((strip_nul(utf16_lossy(u16_units(s.subrange(o, o + w * 2)))), o + w * 2))
            }
        }
    }
}

/// A string read never moves the offset backwards, and lands inside the buffer unless
/// it did not move at all.
pub proof fn lemma_fstring_offset(s: Seq<u8>, off: int)
    ensures
        fstring_at(s, off) matches Some((t, o)) ==> off <= o && (o <= s.len() || o == off),
        fstring_at(s, off) matches Some((t, o)) ==> (t.len() > 0 ==> o >= off + 5),
{
}

/// Removes one trailing NUL character.
fn strip_trailing_nul(s: &mut String)
    ensures
        final(s)@ == strip_nul(old(s)@),
{
    match pop_char(s) {
        Some(c) => {
            if c != '\0' {
                push_char(s, c);
                assert(final(s)@ =~= old(s)@);
            }
        },
        None => {},
    }
}

/// Reads a length-prefixed string at `*offset`, advancing the offset past it.
/// `None` exactly where reading it would overflow an offset or negate `i32::MIN`.
pub fn try_read_string_at(bytes: &[u8], offset: &mut usize) -> (r: Option<String>)
    ensures
        fstring_at(bytes@, *old(offset) as int) is None ==> r is None,
        fstring_at(bytes@, *old(offset) as int) matches Some((t, o)) ==> r is Some && r->0@ == t
            && *final(offset) == o,
{
    let off = *offset;
    if off > usize::MAX - 4 {
        return None;
    }
    if off + 4 > bytes.len() {
        return Some(String::new());
    }
    let len = u32_to_i32(read_u32_le(bytes, off));
    *offset = off + 4;
    let o = off + 4;
    if len == 0 {
        return Some(String::new());
    }
    if len > 0 {
        let u_len = len as usize;
        if o > usize::MAX - u_len {
            return None;
        }
        if o + u_len > bytes.len() {
            return Some(String::new());
        }
        let str_bytes = slice_range(bytes, o, o + u_len);
        *offset = o + u_len;
        let mut s = decode_utf8_lossy(str_bytes);
        strip_trailing_nul(&mut s);
        Some(s)
    } else {
        if len == i32::MIN {
            return None;
        }
        let w_len = (-len) as usize;
        if w_len > usize::MAX / 2 {
            return None;
        }
        if o > usize::MAX - w_len * 2 {
            return None;
        }
        if o + w_len * 2 > bytes.len() {
            return Some(String::new());
        }
        let char_bytes = slice_range(bytes, o, o + w_len * 2);
        *offset = o + w_len * 2;
        let units = utf16_units_of(char_bytes);
        let mut s = decode_utf16_lossy(units.as_slice());
        strip_trailing_nul(&mut s);
        Some(s)
    }
}

/// Reads a length-prefixed string at `*offset`, advancing the offset past it.
pub fn read_string_at(bytes: &[u8], offset: &mut usize) -> (r: String)
    requires
        fstring_at(bytes@, *old(offset) as int) is Some,
    ensures
        fstring_at(bytes@, *old(offset) as int) matches Some((t, o)) && r@ == t && *final(offset)
            == o,
{
    match try_read_string_at(bytes, offset) {
        Some(s) => s,
        None => String::new(),
    }
}

/// The sub-slice `lo..hi`.
pub fn slice_range(bytes: &[u8], lo: usize, hi: usize) -> (r: &[u8])
    requires
        lo <= hi <= bytes@.len(),
    ensures
        r@ == bytes@.subrange(lo as int, hi as int),
{
    &bytes[lo..hi]
}

/// Pairs of bytes read as little-endian UTF-16 code units.
fn utf16_units_of(b: &[u8]) -> (r: Vec<u16>)
    ensures
        r@ == u16_units(b@),
{
    let mut r: Vec<u16> = Vec::new();
    let n = b.len() / 2;
    let mut k: usize = 0;
    while k < n
        invariant
            n == b@.len() / 2,
            b@.len() <= usize::MAX,
            k <= n,
            r@ =~= u16_units(b@).take(k as int),
        decreases n - k,
    {
        let u = (b[2 * k] as u16) + (b[2 * k + 1] as u16) * 256;
        r.push(u);
        k = k + 1;
    }
    assert(r@ =~= u16_units(b@));
    r
}

} // verus!
