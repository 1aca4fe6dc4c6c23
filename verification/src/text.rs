//! Text helpers: decoding of byte payloads and character-level string operations.
use vstd::prelude::*;
use vstd::utf8::*;
use vstd::string::*;

verus! {

broadcast use vstd::string::group_string_axioms;

/// What `String::from_utf8_lossy` yields for a byte payload.
pub uninterp spec fn utf8_lossy(b: Seq<u8>) -> Seq<char>;

/// The text of a byte payload as `String::from_utf8_lossy` gives it, written out where
/// the bytes are valid UTF-8 (they then decode exactly).
pub open spec fn lossy_text(b: Seq<u8>) -> Seq<char> {
    if valid_utf8(b) {
        decode_utf8(b)
    } else {
        utf8_lossy(b)
    }
}

/// What `String::from_utf16_lossy` yields for a sequence of UTF-16 code units: a code
/// unit outside the surrogate range is that character, a high surrogate followed by a
/// low surrogate is the character of the pair, and any other surrogate is replaced by
/// U+FFFD.
pub open spec fn utf16_lossy(u: Seq<u16>) -> Seq<char>
    decreases u.len(),
{
    if u.len() == 0 {
        Seq::empty()
    } else if u[0] < 0xD800 || u[0] > 0xDFFF {
        seq![u[0] as char] + utf16_lossy(u.skip(1))
    } else if u[0] <= 0xDBFF && u.len() >= 2 && 0xDC00 <= u[1] <= 0xDFFF {
        seq![(0x10000 + (u[0] - 0xD800) * 0x400 + (u[1] - 0xDC00)) as char] + utf16_lossy(
            u.skip(2),
        )
    } else {
        seq!['\u{FFFD}'] + utf16_lossy(u.skip(1))
    }
}

/// Decodes bytes as UTF-8 with `String::from_utf8_lossy`. The result is the named
/// `utf8_lossy` of the bytes; on valid UTF-8 it is exactly the decoded text (as the std
/// documentation states). What replaces an invalid sequence is not stated here.
#[verifier::external_body]
pub(crate) fn decode_utf8_lossy(b: &[u8]) -> (r: String)
    ensures
        r@ == utf8_lossy(b@),
        valid_utf8(b@) ==> r@ == decode_utf8(b@),
{
    String::from_utf8_lossy(b).into_owned()
}

/// Whether a code is a Unicode scalar value (not a surrogate, at most U+10FFFF).
pub open spec fn is_scalar_code(v: nat) -> bool {
    v < 0xD800 || (0xE000 <= v && v <= 0x10FFFF)
}

/// `char::from_u32`: the character with this code when it is a Unicode scalar value, else
/// `None` (as the std documentation states).
#[verifier::external_body]
fn char_of(v: u32) -> (r: Option<char>)
    ensures
        is_scalar_code(v as nat) ==> r == Some(v as char),
        !is_scalar_code(v as nat) ==> r is None,
{
    char::from_u32(v)
}

/// Decodes UTF-16 code units as `String::from_utf16_lossy` does (see `utf16_lossy`).
pub(crate) fn decode_utf16_lossy(u: &[u16]) -> (r: String)
    ensures
        r@ == utf16_lossy(u@),
{
    let mut out = String::new();
    let mut i: usize = 0;
    assert(u@.skip(0) =~= u@);
    assert(out@ + utf16_lossy(u@) =~= utf16_lossy(u@));
    while i < u.len()
        invariant
            i <= u@.len(),
            out@ + utf16_lossy(u@.skip(i as int)) == utf16_lossy(u@),
        decreases u@.len() - i,
    {
        let ghost rest = u@.skip(i as int);
        let c = u[i];
        assert(rest[0] == c);
        if c < 0xD800 || c > 0xDFFF {
            let ch = match char_of(c as u32) {
                Some(ch) => ch,
                None => '\u{FFFD}',
            };
            assert(rest.skip(1) =~= u@.skip(i + 1));
            push_char(&mut out, ch);
            assert(out@ + utf16_lossy(u@.skip(i + 1)) =~= utf16_lossy(u@));
            i = i + 1;
        } else if c <= 0xDBFF && i + 1 < u.len() && 0xDC00 <= u[i + 1] && u[i + 1] <= 0xDFFF {
            let d = u[i + 1];
            assert(rest[1] == d);
            let v: u32 = 0x10000 + (c as u32 - 0xD800) * 0x400 + (d as u32 - 0xDC00);
            let ch = match char_of(v) {
                Some(ch) => ch,
                None => '\u{FFFD}',
            };
            assert(rest.skip(2) =~= u@.skip(i + 2));
            push_char(&mut out, ch);
            assert(out@ + utf16_lossy(u@.skip(i + 2)) =~= utf16_lossy(u@));
            i = i + 2;
        } else {
            assert(rest.skip(1) =~= u@.skip(i + 1));
            push_char(&mut out, '\u{FFFD}');
            assert(out@ + utf16_lossy(u@.skip(i + 1)) =~= utf16_lossy(u@));
            i = i + 1;
        }
    }
    assert(u@.skip(i as int) =~= Seq::<u16>::empty());
    assert(out@ + utf16_lossy(u@.skip(i as int)) =~= out@);
    out
}

/// Appends one character with `String::push`.
#[verifier::external_body]
pub(crate) fn push_char(s: &mut String, c: char)
    ensures
        final(s)@ == old(s)@.push(c),
{
    s.push(c)
}

/// Removes the last character with `String::pop`.
#[verifier::external_body]
pub(crate) fn pop_char(s: &mut String) -> (r: Option<char>)
    ensures
        old(s)@.len() == 0 ==> r is None && final(s)@ == old(s)@,
        old(s)@.len() > 0 ==> r == Some(old(s)@.last()) && final(s)@ == old(s)@.drop_last(),
{
    s.pop()
}

/// The characters of a string, in order.
pub fn chars_of(s: &str) -> (v: Vec<char>)
    ensures
        v@ == s@,
{
    let mut v: Vec<char> = Vec::new();
    for c in it: s.chars()
        invariant
            v@ == it.seq().take(it.index() as int),
    {
        v.push(c);
    }
    v
}

/// Whether two texts are the same character sequence.
pub fn text_eq(a: &str, b: &str) -> (r: bool)
    ensures
        r == (a@ == b@),
{
    let x = chars_of(a);
    let y = chars_of(b);
    if x.len() != y.len() {
        return false;
    }
    let mut i: usize = 0;
    while i < x.len()
        invariant
            x@ == a@,
            y@ == b@,
            x@.len() == y@.len(),
            i <= x@.len(),
            forall|j: int| 0 <= j < i ==> x@[j] == y@[j],
        decreases x@.len() - i,
    {
        if x[i] != y[i] {
            return false;
        }
        i = i + 1;
    }
    assert(x@ =~= y@);
    true
}

/// A non-empty text has a non-empty UTF-8 encoding.
pub proof fn lemma_nonempty_bytes(s: &str)
    requires
        s@.len() > 0,
    ensures
        s.spec_bytes().len() > 0,
{
}

/// What `str::to_lowercase` yields for a text.
pub uninterp spec fn lowercase(s: Seq<char>) -> Seq<char>;

/// Lowercases a text with `str::to_lowercase`; the result is the named `lowercase` of the
/// text (the Unicode case mapping itself is not stated here).
#[verifier::external_body]
pub(crate) fn to_lowercase(s: &str) -> (r: String)
    ensures
        r@ == lowercase(s@),
{
    s.to_lowercase()
}

/// Decodes bytes with `std::str::from_utf8`: `Some` exactly on valid UTF-8, holding the
/// decoded text (as the std documentation states).
#[verifier::external_body]
pub(crate) fn utf8_text(b: &[u8]) -> (r: Option<String>)
    ensures
        r is Some <==> valid_utf8(b@),
        r matches Some(t) ==> t@ == decode_utf8(b@),
{
    match std::str::from_utf8(b) {
        Ok(t) => Some(t.to_string()),
        Err(_) => None,
    }
}

/// `needle` occurs in `hay` starting at `i`.
pub open spec fn chars_at(hay: Seq<char>, i: int, needle: Seq<char>) -> bool {
    0 <= i && i + needle.len() <= hay.len() && hay.subrange(i, i + needle.len()) == needle
}

/// `needle` occurs somewhere in `hay`.
pub open spec fn has_sub(hay: Seq<char>, needle: Seq<char>) -> bool {
    exists|i: int| chars_at(hay, i, needle)
}

/// Whether `needle` occurs in `hay` (as `str::contains` with a string pattern).
pub fn text_contains(hay: &str, needle: &str) -> (r: bool)
    ensures
        r == has_sub(hay@, needle@),
{
    let h = chars_of(hay);
    let n = chars_of(needle);
    if n.len() > h.len() {
        assert forall|i: int| !chars_at(hay@, i, needle@) by {}
        return false;
    }
    let hl = h.len();
    let last = hl - n.len();
    let mut i: usize = 0;
    while i <= last
        invariant
            h@ == hay@,
            n@ == needle@,
            last == h@.len() - n@.len(),
            n@.len() <= h@.len(),
            hl == h@.len(),
            forall|j: int| 0 <= j < i ==> !chars_at(hay@, j, needle@),
        decreases last + 1 - i,
    {
        let mut k: usize = 0;
        let mut same = true;
        while k < n.len()
            invariant
                h@ == hay@,
                n@ == needle@,
                i <= last,
                last == h@.len() - n@.len(),
                n@.len() <= h@.len(),
                hl == h@.len(),
                k <= n@.len(),
                same == (forall|m: int| 0 <= m < k ==> h@[i + m] == n@[m]),
            decreases n@.len() - k,
        {
            if h[i + k] != n[k] {
                same = false;
            }
            k = k + 1;
        }
        if same {
            assert(hay@.subrange(i as int, i + needle@.len()) =~= needle@);
            assert(chars_at(hay@, i as int, needle@));
            return true;
        }
        proof {
            if chars_at(hay@, i as int, needle@) {
                assert forall|m: int| 0 <= m < n@.len() implies h@[i + m] == n@[m] by {
                    assert(hay@.subrange(i as int, i + needle@.len())[m] == needle@[m]);
                }
            }
        }
        if i == last {
            assert forall|j: int| !chars_at(hay@, j, needle@) by {
                if 0 <= j <= last {
                    assert(j < i || j == i);
                }
            }
            return false;
        }
        i = i + 1;
    }
    false
}


/// The decimal digits of `n` (no leading zeros; `0` for zero).
pub open spec fn decimal(n: nat) -> Seq<char>
    decreases n,
{
    if n < 10 {
        seq![((n + 48) as u8) as char]
    } else {
        decimal(n / 10).push((((n % 10) + 48) as u8) as char)
    }
}

/// The decimal text of an integer, with a leading `-` when negative (`{}` formatting).
pub open spec fn int_text(v: int) -> Seq<char> {
    if v < 0 {
        seq!['-'] + decimal((-v) as nat)
    } else {
        decimal(v as nat)
    }
}

fn decimal_chars(n: u64) -> (r: Vec<char>)
    ensures
        r@ == decimal(n as nat),
    decreases n,
{
    let d = (n % 10) as u8;
    let c = (d + 48) as char;
    if n < 10 {
        let mut v: Vec<char> = Vec::new();
        v.push(c);
        assert(v@ =~= seq![((n as nat + 48) as u8) as char]);
        v
    } else {
        let mut v = decimal_chars(n / 10);
        v.push(c);
        v
    }
}

/// The decimal text of an unsigned number.
pub fn u64_text(n: u64) -> (r: String)
    ensures
        r@ == decimal(n as nat),
{
    let cs = decimal_chars(n);
    let mut out = String::new();
    let mut i: usize = 0;
    while i < cs.len()
        invariant
            i <= cs@.len(),
            out@ =~= cs@.take(i as int),
        decreases cs@.len() - i,
    {
        push_char(&mut out, cs[i]);
        i = i + 1;
    }
    assert(cs@.take(i as int) =~= cs@);
    out
}

/// The decimal text of a signed number, with a leading `-` when negative.
pub fn i64_text(v: i64) -> (r: String)
    ensures
        r@ == int_text(v as int),
{
    if v < 0 {
        let m: u64 = if v == i64::MIN {
            9223372036854775808u64
        } else {
            (-v) as u64
        };
        let digits = u64_text(m);
        let mut out = String::new();
        push_char(&mut out, '-');
        let cs = chars_of(digits.as_str());
        let mut i: usize = 0;
        while i < cs.len()
            invariant
                cs@ == digits@,
                i <= cs@.len(),
                out@ =~= seq!['-'] + cs@.take(i as int),
            decreases cs@.len() - i,
        {
            push_char(&mut out, cs[i]);
            i = i + 1;
        }
        assert(cs@.take(i as int) =~= cs@);
        out
    } else {
        u64_text(v as u64)
    }
}

} // verus!
