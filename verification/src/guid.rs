//! GUID text forms used by the save files.
use vstd::prelude::*;
use crate::text::push_char;

verus! {

/// Lowercase hexadecimal digit of a value below 16.
pub open spec fn hex_digit(d: nat) -> char {
    if d < 10 {
        ((d + 48) as u8) as char
    } else {
        ((d + 87) as u8) as char
    }
}

/// The byte shown at position `j` of a GUID: each 4-byte group is little-endian, so its
/// bytes are shown in reverse.
pub open spec fn guid_shown_byte(b: Seq<u8>, j: int) -> u8 {
    b[4 * (j / 4) + (3 - j % 4)]
}

/// Text of the first `j` shown bytes: two lowercase hex digits per byte, with a dash
/// before bytes 4, 6, 8 and 10 (the 8-4-4-4-12 layout).
pub open spec fn guid_prefix(b: Seq<u8>, j: nat) -> Seq<char>
    decreases j,
{
    if j == 0 {
        Seq::empty()
    } else {
        let k = (j - 1) as nat;
        let x = guid_shown_byte(b, k as int) as nat;
        let sep: Seq<char> = if k == 4 || k == 6 || k == 8 || k == 10 {
            seq!['-']
        } else {
            Seq::empty()
        };
        guid_prefix(b, k) + sep + seq![hex_digit(x / 16), hex_digit(x % 16)]
    }
}

/// The textual form of a 16-byte GUID as the save files' readers print it.
pub open spec fn guid_text(b: Seq<u8>) -> Seq<char> {
    guid_prefix(b, 16)
}

fn hex_char(d: u8) -> (c: char)
    requires
        d < 16,
    ensures
        c == hex_digit(d as nat),
{
    if d < 10 {
        (d + 48) as char
    } else {
        (d + 87) as char
    }
}

/// The 16 bytes starting at `at`.
pub fn guid_bytes_at(bytes: &[u8], at: usize) -> (r: [u8; 16])
    requires
        at + 16 <= bytes@.len(),
    ensures
        r@ == bytes@.subrange(at as int, at + 16),
{
    let out: [u8; 16] = [
        bytes[at],
        bytes[at + 1],
        bytes[at + 2],
        bytes[at + 3],
        bytes[at + 4],
        bytes[at + 5],
        bytes[at + 6],
        bytes[at + 7],
        bytes[at + 8],
        bytes[at + 9],
        bytes[at + 10],
        bytes[at + 11],
        bytes[at + 12],
        bytes[at + 13],
        bytes[at + 14],
        bytes[at + 15],
    ];
    assert(out@ =~= bytes@.subrange(at as int, at + 16));
    out
}

/// Formats a GUID stored as four little-endian 32-bit groups, e.g.
/// `xxxxxxxx-xxxx-xxxx-xxxx-xxxxxxxxxxxx` in lowercase hex.
pub fn format_guid(bytes: &[u8; 16]) -> (r: String)
    ensures
        r@ == guid_text(bytes@),
{
    let mut out = String::new();
    let mut j: usize = 0;
    while j < 16
        invariant
            j <= 16,
            out@ == guid_prefix(bytes@, j as nat),
        decreases 16 - j,
    {
        if j == 4 || j == 6 || j == 8 || j == 10 {
            push_char(&mut out, '-');
        }
        let x = bytes[4 * (j / 4) + (3 - j % 4)];
        push_char(&mut out, hex_char(x / 16));
        push_char(&mut out, hex_char(x % 16));
        proof {
            let sep: Seq<char> = if j == 4 || j == 6 || j == 8 || j == 10 {
                seq!['-']
            } else {
                Seq::empty()
            };
            assert(out@ =~= guid_prefix(bytes@, j as nat) + sep + seq![
                hex_digit(x as nat / 16),
                hex_digit(x as nat % 16),
            ]);
        }
        j = j + 1;
    }
    out
}

/// A lowercase hexadecimal digit.
pub open spec fn is_lower_hex(c: char) -> bool {
    ('0' <= c && c <= '9') || ('a' <= c && c <= 'f')
}

/// The two hex digits of shown byte `k`.
spec fn shown_pair(b: Seq<u8>, k: int) -> Seq<char> {
    let x = guid_shown_byte(b, k) as nat;
    seq![hex_digit(x / 16), hex_digit(x % 16)]
}

/// How many of the dashes (before shown bytes 4, 6, 8 and 10) come before shown byte `j`.
spec fn dashes_before(j: int) -> int {
    (if j > 4 { 1int } else { 0 }) + (if j > 6 { 1int } else { 0 }) + (if j > 8 { 1int } else {
        0
    }) + (if j > 10 { 1int } else { 0 })
}

/// Where the digits of shown byte `k` start in the text.
spec fn pair_pos(k: int) -> int {
    2 * k + dashes_before(k + 1)
}

proof fn lemma_prefix_layout(b: Seq<u8>, j: nat)
    requires
        b.len() == 16,
        j <= 16,
    ensures
        guid_prefix(b, j).len() == 2 * j + dashes_before(j as int),
        forall|k: int|
            0 <= k < j ==> guid_prefix(b, j)[#[trigger] pair_pos(k)] == shown_pair(b, k)[0]
                && guid_prefix(b, j)[pair_pos(k) + 1] == shown_pair(b, k)[1],
        forall|i: int|
            0 <= i < guid_prefix(b, j).len() && (i == 8 || i == 13 || i == 18 || i == 23) ==> #[trigger] guid_prefix(b, j)[i] == '-',
    decreases j,
{
    if j > 0 {
        let k = (j - 1) as nat;
        lemma_prefix_layout(b, k);
    }
}

proof fn lemma_hex_digit(d: nat, e: nat)
    requires
        d < 16,
        e < 16,
    ensures
        is_lower_hex(hex_digit(d)),
        hex_digit(d) == hex_digit(e) ==> d == e,
{
}

/// The text of a GUID is 36 characters long, with dashes at positions 8, 13, 18 and 23
/// and a lowercase hexadecimal digit everywhere else; GUIDs with the same text are the
/// same bytes.
pub proof fn lemma_guid_text_form(a: Seq<u8>, b: Seq<u8>)
    requires
        a.len() == 16,
        b.len() == 16,
    ensures
        guid_text(b).len() == 36,
        forall|i: int|
            0 <= i < 36 ==> if i == 8 || i == 13 || i == 18 || i == 23 {
                #[trigger] guid_text(b)[i] == '-'
            } else {
                is_lower_hex(guid_text(b)[i])
            },
        guid_text(a) == guid_text(b) ==> a == b,
{
    lemma_prefix_layout(a, 16);
    lemma_prefix_layout(b, 16);
    let t = guid_text(b);
    assert forall|i: int| 0 <= i < 36 implies if i == 8 || i == 13 || i == 18 || i == 23 {
        #[trigger] t[i] == '-'
    } else {
        is_lower_hex(t[i])
    } by {
        if !(i == 8 || i == 13 || i == 18 || i == 23) {
            let k: int = if i < 8 {
                i / 2
            } else if i < 13 {
                (i - 1) / 2
            } else if i < 18 {
                (i - 2) / 2
            } else if i < 23 {
                (i - 3) / 2
            } else {
                (i - 4) / 2
            };
            assert(0 <= k < 16);
            assert(i == pair_pos(k) || i == pair_pos(k) + 1);
            let x = guid_shown_byte(b, k) as nat;
            lemma_hex_digit(x / 16, 0);
            lemma_hex_digit(x % 16, 0);
            assert(t[pair_pos(k)] == shown_pair(b, k)[0]);
        }
    }
    if guid_text(a) == guid_text(b) {
        assert forall|k: int| 0 <= k < 16 implies guid_shown_byte(a, k) == guid_shown_byte(b, k) by {
            let xa = guid_shown_byte(a, k) as nat;
            let xb = guid_shown_byte(b, k) as nat;
            assert(guid_text(a)[pair_pos(k)] == shown_pair(a, k)[0]);
            assert(guid_text(b)[pair_pos(k)] == shown_pair(b, k)[0]);
            assert(guid_text(a)[pair_pos(k) + 1] == shown_pair(a, k)[1]);
            assert(guid_text(b)[pair_pos(k) + 1] == shown_pair(b, k)[1]);
            lemma_hex_digit(xa / 16, xb / 16);
            lemma_hex_digit(xa % 16, xb % 16);
        }
        assert forall|i: int| 0 <= i < 16 implies a[i] == b[i] by {
            let k = 4 * (i / 4) + (3 - i % 4);
            assert(0 <= k < 16);
            assert(4 * (k / 4) + (3 - k % 4) == i);
            assert(guid_shown_byte(a, k) == guid_shown_byte(b, k));
        }
        assert(a =~= b);
    }
}

} // verus!
