//! Inventory slot encoding of converted save files: reading a slot's raw bytes, writing
//! a new item into them, player GUIDs from file names and nicknames from character data.
use vstd::prelude::*;
use vstd::string::StringSliceAdditionalSpecFns;
use vstd::utf8::*;
use crate::text::utf8_text;
use crate::wire::{find_within, first_match, le_u32, lemma_first_match_found, read_u32_le, slice_range};

verus! {

broadcast use vstd::string::group_string_axioms;

/// A player of the world, as listed by the editor.
#[derive(Debug, Clone)]
pub struct PlayerInfo {
    pub player_uid: String,
    pub nickname: String,
    pub common_container_id: String,
    pub weapon_container_id: String,
    pub armor_container_id: String,
}

/// An occupied slot of a container: its position in the slot list, the item id and the
/// stack count.
#[derive(Debug, Clone)]
pub struct InventoryItem {
    pub slot_index: usize,
    pub item_id: String,
    pub count: u32,
}

/// The view of a slot item.
pub open spec fn item_view(it: InventoryItem) -> (nat, Seq<char>, nat) {
    (it.slot_index as nat, it.item_id@, it.count as nat)
}

/// The hyphenated GUID layout (8-4-4-4-12) of 32 bytes.
pub open spec fn guid_form(b: Seq<u8>) -> Seq<u8> {
    b.subrange(0, 8) + seq![45u8] + b.subrange(8, 12) + seq![45u8] + b.subrange(12, 16) + seq![
        45u8,
    ] + b.subrange(16, 20) + seq![45u8] + b.subrange(20, 32)
}

/// Whether the text can be cut at the GUID group boundaries (bytes 8, 12, 16 and 20).
pub open spec fn guid_cuts_ok(b: Seq<u8>) -> bool {
    &&& is_char_boundary(b, 8)
    &&& is_char_boundary(b, 12)
    &&& is_char_boundary(b, 16)
    &&& is_char_boundary(b, 20)
}

proof fn lemma_dash_valid()
    ensures
        valid_utf8(seq![45u8]),
{
    reveal_with_fuel(valid_utf8, 2);
    assert(pop_first_scalar(seq![45u8]) =~= Seq::<u8>::empty());
}

proof fn lemma_guid_form_valid(b: Seq<u8>)
    requires
        valid_utf8(b),
        b.len() == 32,
        guid_cuts_ok(b),
    ensures
        valid_utf8(guid_form(b)),
{
    broadcast use valid_utf8_split, valid_utf8_concat, is_char_boundary_iff_not_is_continuation_byte;

    lemma_dash_valid();
    let d = seq![45u8];
    valid_utf8_split(b, 8);
    let r1 = b.subrange(8, 32);
    assert(r1[4] == b[12]);
    is_char_boundary_iff_not_is_continuation_byte(b, 12);
    is_char_boundary_iff_not_is_continuation_byte(r1, 4);
    valid_utf8_split(r1, 4);
    let r2 = r1.subrange(4, 24);
    assert(r2 =~= b.subrange(12, 32));
    assert(r1.subrange(0, 4) =~= b.subrange(8, 12));
    assert(r2[4] == b[16]);
    is_char_boundary_iff_not_is_continuation_byte(b, 16);
    is_char_boundary_iff_not_is_continuation_byte(r2, 4);
    valid_utf8_split(r2, 4);
    let r3 = r2.subrange(4, 20);
    assert(r3 =~= b.subrange(16, 32));
    assert(r2.subrange(0, 4) =~= b.subrange(12, 16));
    assert(r3[4] == b[20]);
    is_char_boundary_iff_not_is_continuation_byte(b, 20);
    is_char_boundary_iff_not_is_continuation_byte(r3, 4);
    valid_utf8_split(r3, 4);
    assert(r3.subrange(0, 4) =~= b.subrange(16, 20));
    assert(r3.subrange(4, 16) =~= b.subrange(20, 32));
    let p1 = b.subrange(0, 8);
    let p2 = b.subrange(8, 12);
    let p3 = b.subrange(12, 16);
    let p4 = b.subrange(16, 20);
    let p5 = b.subrange(20, 32);
    valid_utf8_concat(p1, d);
    valid_utf8_concat(p1 + d, p2);
    valid_utf8_concat(p1 + d + p2, d);
    valid_utf8_concat(p1 + d + p2 + d, p3);
    valid_utf8_concat(p1 + d + p2 + d + p3, d);
    valid_utf8_concat(p1 + d + p2 + d + p3 + d, p4);
    valid_utf8_concat(p1 + d + p2 + d + p3 + d + p4, d);
    valid_utf8_concat(p1 + d + p2 + d + p3 + d + p4 + d, p5);
}

/// Turns the 32-character hex name of a player save file into the hyphenated GUID form;
/// any other text is returned as it is.
pub fn hex_to_guid(hex: &str) -> (r: String)
    requires
        hex.spec_bytes().len() == 32 ==> guid_cuts_ok(hex.spec_bytes()),
    ensures
        hex.spec_bytes().len() != 32 ==> r@ == hex@,
        hex.spec_bytes().len() == 32 ==> r@ == decode_utf8(guid_form(hex.spec_bytes())),
{
    broadcast use encode_utf8_valid_utf8;

    let b = hex.as_bytes();
    if b.len() != 32 {
        return hex.to_owned();
    }
    let mut out: Vec<u8> = Vec::new();
    let mut i: usize = 0;
    while i < 32
        invariant
            b@.len() == 32,
            i <= 32,
            out@ =~= guid_form(b@).take(i + (if i > 20 {
                4int
            } else if i > 16 {
                3int
            } else if i > 12 {
                2int
            } else if i > 8 {
                1int
            } else {
                0int
            })),
        decreases 32 - i,
    {
        if i == 8 || i == 12 || i == 16 || i == 20 {
            out.push(45u8);
        }
        out.push(b[i]);
        i = i + 1;
    }
    assert(out@ =~= guid_form(b@));
    proof {
        lemma_guid_form_valid(b@);
    }
    match utf8_text(out.as_slice()) {
        Some(t) => t,
        None => String::new(),
    }
}

/// The item recorded in a slot's raw bytes: stack count (bytes 4..8), id length counting
/// its NUL (8..12, at most 100) and the id, which must be non-empty valid UTF-8, with a
/// non-zero count. `None` for an empty or malformed slot.
pub open spec fn slot_entry(i: nat, b: Seq<u8>) -> Option<(nat, Seq<char>, nat)> {
    if b.len() < 12 {
        None
    } else {
        let count = le_u32(b, 4);
        let idl = le_u32(b, 8);
        if idl == 0 || idl > 100 || b.len() < 12 + idl {
            None
        } else {
            let idb = b.subrange(12, 12 + idl - 1);
            let id = if valid_utf8(idb) {
                decode_utf8(idb)
            } else {
                Seq::empty()
            };
            if id.len() == 0 || count == 0 {
                None
            } else {
                Some((i, id, count))
            }
        }
    }
}

/// Reads the item stored in one slot's raw bytes.
pub fn parse_slot(slot_index: usize, bytes: &[u8]) -> (r: Option<InventoryItem>)
    ensures
        slot_entry(slot_index as nat, bytes@) is None ==> r is None,
        slot_entry(slot_index as nat, bytes@) matches Some(e) ==> r matches Some(it)
            && item_view(it) == e,
{
    if bytes.len() < 12 {
        return None;
    }
    let count = read_u32_le(bytes, 4);
    let id_length = read_u32_le(bytes, 8) as usize;
    if id_length == 0 || id_length > 100 || bytes.len() < 12 + id_length {
        return None;
    }
    let item_id = match utf8_text(slice_range(bytes, 12, 12 + id_length - 1)) {
        Some(t) => t,
        None => String::new(),
    };
    if item_id.as_str().is_empty() || count == 0 {
        return None;
    }
    Some(InventoryItem { slot_index, item_id, count })
}

/// The items of a container's slot list (each slot given by its raw bytes), with each
/// slot's position as its index; empty slots are left out.
pub open spec fn slot_entries(slots: Seq<Vec<u8>>, n: nat) -> Seq<(nat, Seq<char>, nat)>
    decreases n,
{
    if n == 0 {
        Seq::empty()
    } else {
        let k = (n - 1) as nat;
        let rest = slot_entries(slots, k);
        match slot_entry(k, slots[k as int]@) {
            Some(e) => rest.push(e),
            None => rest,
        }
    }
}

/// Views of a list of slot items.
pub open spec fn items_view(v: Seq<InventoryItem>) -> Seq<(nat, Seq<char>, nat)> {
    v.map_values(|it: InventoryItem| item_view(it))
}

/// The occupied slots of a container, in slot order.
pub fn parse_slots(slots: &Vec<Vec<u8>>) -> (r: Vec<InventoryItem>)
    ensures
        items_view(r@) == slot_entries(slots@, slots@.len()),
{
    let mut items: Vec<InventoryItem> = Vec::new();
    let mut k: usize = 0;
    assert(items_view(items@) =~= slot_entries(slots@, 0));
    while k < slots.len()
        invariant
            k <= slots@.len(),
            items_view(items@) == slot_entries(slots@, k as nat),
        decreases slots@.len() - k,
    {
        let ghost before = items@;
        match parse_slot(k, slots[k].as_slice()) {
            Some(it) => {
                items.push(it);
                assert(items_view(items@) =~= items_view(before).push(item_view(it)));
            },
            None => {},
        }
        k = k + 1;
    }
    items
}

/// Little-endian bytes of a 32-bit value.
pub open spec fn u32_le(v: nat) -> Seq<u8> {
    seq![
        (v % 256) as u8,
        ((v / 256) % 256) as u8,
        ((v / 65536) % 256) as u8,
        ((v / 16777216) % 256) as u8,
    ]
}

pub(crate) fn u32_le_bytes(v: u32) -> (r: [u8; 4])
    ensures
        r@ == u32_le(v as nat),
{
    let r: [u8; 4] = [
        (v % 256) as u8,
        ((v / 256) % 256) as u8,
        ((v / 65536) % 256) as u8,
        ((v / 16777216) % 256) as u8,
    ];
    assert(r@ =~= u32_le(v as nat));
    r
}

/// The raw bytes of a slot after writing an item into it. An empty id or a zero count
/// clears the slot: from byte 4 on everything is zeroed (a slot under 12 bytes is left
/// as it is). Otherwise the slot becomes its first 4 bytes (zeros if shorter), the count,
/// the id length counting a NUL, the id, a NUL, and whatever followed the old id.
pub open spec fn rewritten_slot(b: Seq<u8>, id: Seq<u8>, count: nat) -> Seq<u8> {
    if id.len() == 0 || count == 0 {
        if b.len() >= 12 {
            Seq::new(b.len(), |i: int| if i < 4 { b[i] } else { 0u8 })
        } else {
            b
        }
    } else {
        let head = if b.len() >= 4 {
            b.subrange(0, 4)
        } else {
            seq![0u8, 0u8, 0u8, 0u8]
        };
        let fresh = head + u32_le(count) + u32_le(((id.len() + 1) as u32) as nat) + id + seq![0u8];
        if b.len() >= 12 && 12 + le_u32(b, 8) < b.len() {
            fresh + b.subrange(12 + le_u32(b, 8) as int, b.len() as int)
        } else {
            fresh
        }
    }
}

fn copy_from(bytes: &[u8], lo: usize, out: &mut Vec<u8>)
    requires
        lo <= bytes@.len(),
    ensures
        final(out)@ == old(out)@ + bytes@.subrange(lo as int, bytes@.len() as int),
{
    let mut i = lo;
    while i < bytes.len()
        invariant
            lo <= i <= bytes@.len(),
            out@ =~= old(out)@ + bytes@.subrange(lo as int, i as int),
        decreases bytes@.len() - i,
    {
        out.push(bytes[i]);
        i = i + 1;
    }
}

/// Writes an item into a slot's raw bytes (see `rewritten_slot`).
pub fn rewrite_slot(bytes: &[u8], item_id: &str, count: u32) -> (r: Vec<u8>)
    requires
        bytes@.len() >= 12 ==> 12 + le_u32(bytes@, 8) <= usize::MAX,
        item_id.spec_bytes().len() < usize::MAX,
    ensures
        r@ == rewritten_slot(bytes@, item_id.spec_bytes(), count as nat),
{
    let id = item_id.as_bytes();
    if item_id.is_empty() || count == 0 {
        proof {
            if item_id@.len() == 0 {
                assert(item_id.spec_bytes() =~= Seq::<u8>::empty());
            } else {
                crate::text::lemma_nonempty_bytes(item_id);
            }
        }
        let mut out: Vec<u8> = Vec::new();
        if bytes.len() >= 12 {
            let mut i: usize = 0;
            while i < bytes.len()
                invariant
                    i <= bytes@.len(),
                    out@.len() == i,
                    forall|k: int| 0 <= k < i ==> out@[k] == (if k < 4 {
                        bytes@[k]
                    } else {
                        0u8
                    }),
                decreases bytes@.len() - i,
            {
                if i < 4 {
                    out.push(bytes[i]);
                } else {
                    out.push(0u8);
                }
                i = i + 1;
            }
            assert(out@ =~= Seq::new(bytes@.len(), |i: int| if i < 4 { bytes@[i] } else { 0u8 }));
        } else {
            copy_from(bytes, 0, &mut out);
            assert(out@ =~= bytes@);
        }
        return out;
    }
    proof {
        crate::text::lemma_nonempty_bytes(item_id);
    }
    let mut out: Vec<u8> = Vec::new();
    if bytes.len() >= 4 {
        out.push(bytes[0]);
        out.push(bytes[1]);
        out.push(bytes[2]);
        out.push(bytes[3]);
        assert(out@ =~= bytes@.subrange(0, 4));
    } else {
        out.push(0u8);
        out.push(0u8);
        out.push(0u8);
        out.push(0u8);
        assert(out@ =~= seq![0u8, 0u8, 0u8, 0u8]);
    }
    let c = u32_le_bytes(count);
    out.push(c[0]);
    out.push(c[1]);
    out.push(c[2]);
    out.push(c[3]);
    let ghost after_count = out@;
    let total = id.len() + 1;
    let l = u32_le_bytes(total as u32);
    out.push(l[0]);
    out.push(l[1]);
    out.push(l[2]);
    out.push(l[3]);
    copy_from(id, 0, &mut out);
    out.push(0u8);
    let ghost fresh = out@;
    assert(fresh =~= (if bytes@.len() >= 4 {
        bytes@.subrange(0, 4)
    } else {
        seq![0u8, 0u8, 0u8, 0u8]
    }) + u32_le(count as nat) + u32_le(((id@.len() + 1) as u32) as nat) + id@ + seq![0u8]);
    if bytes.len() >= 12 {
        let ol = read_u32_le(bytes, 8) as usize;
        let end = 12 + ol;
        if end < bytes.len() {
            copy_from(bytes, end, &mut out);
        }
    }
    out
}


/// The NUL-free nickname stored after the first `NickName` property marker: the value of
/// the first `StrProperty` marker following it, if its length prefix counts 1 to 99
/// bytes (the NUL included), it fits the buffer and it is valid UTF-8.
pub open spec fn nickname(s: Seq<u8>) -> Option<Seq<char>> {
    let nick = "\x09\x00\x00\x00NickName\x00".spec_bytes();
    let sp = "\x0c\x00\x00\x00StrProperty\x00".spec_bytes();
    match first_match(s, nick, 0, s.len() - nick.len() + 1) {
        None => None,
        Some(idx) => match first_match(s, sp, idx, s.len() - sp.len() + 1) {
            None => None,
            Some(si) => {
                let v = si + sp.len() + 9;
                if v + 4 > s.len() {
                    None
                } else {
                    let n = le_u32(s, v);
                    if n > 0 && n < 100 && v + 4 + n <= s.len() {
                        let nb = s.subrange(v + 4, v + 4 + n - 1);
                        if valid_utf8(nb) {
                            Some(decode_utf8(nb))
                        } else {
                            None
                        }
                    } else {
                        None
                    }
                }
            },
        },
    }
}

/// Reads a player's nickname from the raw bytes of its character record.
pub fn extract_nickname(bytes: &[u8]) -> (r: Option<String>)
    requires
        bytes@.len() <= isize::MAX,
    ensures
        nickname(bytes@) is None ==> r is None,
        nickname(bytes@) matches Some(n) ==> r matches Some(t) && t@ == n,
{
    let nick = "\x09\x00\x00\x00NickName\x00".as_bytes();
    let sp = "\x0c\x00\x00\x00StrProperty\x00".as_bytes();
    let idx = match find_within(bytes, nick, 0, bytes.len()) {
        None => return None,
        Some(i) => i,
    };
    let si = match find_within(bytes, sp, idx, bytes.len()) {
        None => return None,
        Some(i) => i,
    };
    proof {
        lemma_first_match_found(bytes@, sp@, idx as int, bytes@.len() - sp@.len() + 1);
    }
    let v = si + sp.len() + 9;
    if v > bytes.len() || bytes.len() - v < 4 {
        return None;
    }
    let n = read_u32_le(bytes, v) as usize;
    if n > 0 && n < 100 && v + 4 + n <= bytes.len() {
        utf8_text(slice_range(bytes, v + 4, v + 4 + n - 1))
    } else {
        None
    }
}

proof fn lemma_u32_le_roundtrip(v: u32)
    ensures
        le_u32(u32_le(v as nat), 0) == v,
{
    let x = v as nat;
    assert(x % 256 + ((x / 256) % 256) * 256 + ((x / 65536) % 256) * 65536 + ((x / 16777216)
        % 256) * 16777216 == x) by (nonlinear_arith)
        requires
            x < 0x1_0000_0000,
    ;
}

/// Writing an item with a non-empty id of at most 99 bytes and a positive count into a
/// slot, then reading the slot back, gives that item.
pub proof fn lemma_rewrite_then_parse(b: Seq<u8>, id: Seq<char>, count: u32, i: nat)
    requires
        id.len() > 0,
        encode_utf8(id).len() <= 99,
        count > 0,
    ensures
        slot_entry(i, rewritten_slot(b, encode_utf8(id), count as nat)) == Some(
            (i, id, count as nat),
        ),
{
    broadcast use encode_utf8_valid_utf8, encode_utf8_decode_utf8;

    let idb = encode_utf8(id);
    reveal_with_fuel(encode_utf8, 1);
    assert(idb.len() > 0);
    let l: u32 = (idb.len() + 1) as u32;
    assert(l == idb.len() + 1);
    let head = if b.len() >= 4 {
        b.subrange(0, 4)
    } else {
        seq![0u8, 0u8, 0u8, 0u8]
    };
    let fresh = head + u32_le(count as nat) + u32_le(l as nat) + idb + seq![0u8];
    let r = rewritten_slot(b, idb, count as nat);
    assert(r.subrange(0, fresh.len() as int) =~= fresh);
    lemma_u32_le_roundtrip(count);
    lemma_u32_le_roundtrip(l);
    assert(le_u32(r, 4) == le_u32(u32_le(count as nat), 0));
    assert(le_u32(r, 8) == le_u32(u32_le(l as nat), 0));
    assert(r.subrange(12, 12 + l - 1) =~= idb);
}

/// Writing an empty id or a zero count clears the slot: reading it back finds nothing.
pub proof fn lemma_clear_then_parse(b: Seq<u8>, id: Seq<char>, count: u32, i: nat)
    requires
        id.len() == 0 || count == 0,
    ensures
        slot_entry(i, rewritten_slot(b, encode_utf8(id), count as nat)) is None,
{
    reveal_with_fuel(encode_utf8, 1);
    let r = rewritten_slot(b, encode_utf8(id), count as nat);
    if b.len() >= 12 {
        assert(r[8] == 0 && r[9] == 0 && r[10] == 0 && r[11] == 0);
    }
}

/// A text without its hyphens.
pub open spec fn no_hyphens(s: Seq<char>) -> Seq<char>
    decreases s.len(),
{
    if s.len() == 0 {
        Seq::empty()
    } else if s.last() == '-' {
        no_hyphens(s.drop_last())
    } else {
        no_hyphens(s.drop_last()).push(s.last())
    }
}

/// The save-file name a player GUID stands for: the GUID without its hyphens.
pub fn guid_to_stem(uid: &str) -> (r: String)
    ensures
        r@ == no_hyphens(uid@),
{
    let cs = crate::text::chars_of(uid);
    let mut out = String::new();
    let mut i: usize = 0;
    while i < cs.len()
        invariant
            cs@ == uid@,
            i <= cs@.len(),
            out@ == no_hyphens(cs@.take(i as int)),
        decreases cs@.len() - i,
    {
        let c = cs[i];
        assert(cs@.take(i + 1).drop_last() =~= cs@.take(i as int));
        if c != '-' {
            crate::text::push_char(&mut out, c);
        }
        i = i + 1;
    }
    assert(cs@.take(cs@.len() as int) =~= cs@);
    out
}

proof fn lemma_no_hyphens_concat(a: Seq<char>, b: Seq<char>)
    ensures
        no_hyphens(a + b) == no_hyphens(a) + no_hyphens(b),
    decreases b.len(),
{
    if b.len() == 0 {
        assert(a + b =~= a);
        assert(no_hyphens(a) + no_hyphens(b) =~= no_hyphens(a));
    } else {
        lemma_no_hyphens_concat(a, b.drop_last());
        assert((a + b).drop_last() =~= a + b.drop_last());
        assert((a + b).last() == b.last());
        if b.last() != '-' {
            assert(no_hyphens(a) + no_hyphens(b.drop_last()).push(b.last()) =~= (no_hyphens(a)
                + no_hyphens(b.drop_last())).push(b.last()));
        }
    }
}

proof fn lemma_no_hyphens_plain(s: Seq<char>)
    requires
        forall|i: int| 0 <= i < s.len() ==> s[i] != '-',
    ensures
        no_hyphens(s) == s,
    decreases s.len(),
{
    if s.len() > 0 {
        lemma_no_hyphens_plain(s.drop_last());
        assert(s.drop_last().push(s.last()) =~= s);
    }
}

/// A player's save-file name of 32 ASCII characters without hyphens can be cut into GUID
/// groups, and dropping the hyphens of its GUID form gives the name back.
pub proof fn lemma_guid_stem_roundtrip(stem: Seq<char>)
    requires
        stem.len() == 32,
        is_ascii_chars(stem),
        forall|i: int| 0 <= i < stem.len() ==> stem[i] != '-',
    ensures
        encode_utf8(stem).len() == 32,
        guid_cuts_ok(encode_utf8(stem)),
        no_hyphens(decode_utf8(guid_form(encode_utf8(stem)))) == stem,
{
    broadcast use encode_utf8_valid_utf8, is_char_boundary_iff_not_is_continuation_byte;

    let b = encode_utf8(stem);
    is_ascii_chars_encode_utf8(stem);
    is_ascii_chars_nat_bound(stem);
    assert(!is_continuation_byte(b[8]) && !is_continuation_byte(b[12]) && !is_continuation_byte(b[16])
        && !is_continuation_byte(b[20]));
    let d = seq!['-'];
    let p1 = stem.subrange(0, 8);
    let p2 = stem.subrange(8, 12);
    let p3 = stem.subrange(12, 16);
    let p4 = stem.subrange(16, 20);
    let p5 = stem.subrange(20, 32);
    let g = p1 + d + p2 + d + p3 + d + p4 + d + p5;
    assert(is_ascii_chars(g));
    is_ascii_chars_encode_utf8(g);
    assert(guid_form(b) =~= encode_utf8(g));
    encode_utf8_decode_utf8(g);
    assert(no_hyphens(d) =~= Seq::<char>::empty()) by {
        assert(d.drop_last() =~= Seq::<char>::empty());
        assert(d.last() == '-');
        assert(no_hyphens(d.drop_last()) =~= Seq::<char>::empty());
    }
    lemma_no_hyphens_plain(p1);
    lemma_no_hyphens_plain(p2);
    lemma_no_hyphens_plain(p3);
    lemma_no_hyphens_plain(p4);
    lemma_no_hyphens_plain(p5);
    lemma_no_hyphens_concat(p1, d);
    lemma_no_hyphens_concat(p1 + d, p2);
    lemma_no_hyphens_concat(p1 + d + p2, d);
    lemma_no_hyphens_concat(p1 + d + p2 + d, p3);
    lemma_no_hyphens_concat(p1 + d + p2 + d + p3, d);
    lemma_no_hyphens_concat(p1 + d + p2 + d + p3 + d, p4);
    lemma_no_hyphens_concat(p1 + d + p2 + d + p3 + d + p4, d);
    lemma_no_hyphens_concat(p1 + d + p2 + d + p3 + d + p4 + d, p5);
    assert(p1 + p2 + p3 + p4 + p5 =~= stem);
}

/// A container of a converted level file: its GUID text and its slots, each given by its
/// raw bytes (`None` for a slot without raw data).
#[derive(Debug, Clone)]
pub struct ContainerSlots {
    pub guid: String,
    pub slots: Vec<Option<Vec<u8>>>,
}

/// The first container from `i` on with this GUID.
pub open spec fn container_from(cs: Seq<ContainerSlots>, guid: Seq<char>, i: int) -> Option<int>
    decreases cs.len() - i,
{
    if i < 0 || i >= cs.len() {
        None
    } else if cs[i].guid@ == guid {
        Some(i)
    } else {
        container_from(cs, guid, i + 1)
    }
}

proof fn lemma_container_from(cs: Seq<ContainerSlots>, guid: Seq<char>, i: int)
    requires
        0 <= i,
    ensures
        container_from(cs, guid, i) matches Some(k) ==> i <= k < cs.len() && cs[k].guid@ == guid,
    decreases cs.len() - i,
{
    if i < cs.len() && cs[i].guid@ != guid {
        lemma_container_from(cs, guid, i + 1);
    }
}

/// The first container with this GUID.
pub fn find_container(cs: &Vec<ContainerSlots>, guid: &str) -> (r: Option<usize>)
    ensures
        crate::wire::opt_pos(r) == container_from(cs@, guid@, 0),
{
    let mut i: usize = 0;
    while i < cs.len()
        invariant
            i <= cs@.len(),
            container_from(cs@, guid@, 0) == container_from(cs@, guid@, i as int),
        decreases cs@.len() - i,
    {
        if crate::text::text_eq(cs[i].guid.as_str(), guid) {
            return Some(i);
        }
        i = i + 1;
    }
    None
}

/// The items of the first `n` slots (slots without raw data are skipped), each with its
/// position in the slot list.
pub open spec fn container_entries(slots: Seq<Option<Vec<u8>>>, n: nat) -> Seq<(nat, Seq<char>, nat)>
    decreases n,
{
    if n == 0 {
        Seq::empty()
    } else {
        let k = (n - 1) as nat;
        let rest = container_entries(slots, k);
        match slots[k as int] {
            Some(b) => match slot_entry(k, b@) {
                Some(e) => rest.push(e),
                None => rest,
            },
            None => rest,
        }
    }
}

/// The items of the container with this GUID (see `container_entries`); none when no
/// container has it.
pub open spec fn items_of_container(cs: Seq<ContainerSlots>, guid: Seq<char>) -> Seq<(nat, Seq<char>, nat)> {
    match container_from(cs, guid, 0) {
        Some(i) => container_entries(cs[i].slots@, cs[i].slots@.len()),
        None => Seq::empty(),
    }
}

/// The items of the container with this GUID, in slot order (see `items_of_container`).
pub fn container_items(cs: &Vec<ContainerSlots>, guid: &str) -> (r: Vec<InventoryItem>)
    ensures
        items_view(r@) == items_of_container(cs@, guid@),
{
    let mut items: Vec<InventoryItem> = Vec::new();
    let i = match find_container(cs, guid) {
        None => {
            assert(items_view(items@) =~= Seq::<(nat, Seq<char>, nat)>::empty());
            return items;
        },
        Some(i) => i,
    };
    proof {
        lemma_container_from(cs@, guid@, 0);
    }
    let slots = &cs[i].slots;
    let mut k: usize = 0;
    assert(items_view(items@) =~= container_entries(slots@, 0));
    while k < slots.len()
        invariant
            k <= slots@.len(),
            items_view(items@) == container_entries(slots@, k as nat),
        decreases slots@.len() - k,
    {
        let ghost before = items@;
        match &slots[k] {
            Some(b) => match parse_slot(k, b.as_slice()) {
                Some(it) => {
                    items.push(it);
                    assert(items_view(items@) =~= items_view(before).push(item_view(it)));
                },
                None => {},
            },
            None => {},
        }
        k = k + 1;
    }
    items
}

/// The raw bytes of slot `k` of the container with this GUID, when that container and
/// that slot's raw data exist.
pub open spec fn target_slot(cs: Seq<ContainerSlots>, guid: Seq<char>, k: int) -> Option<Seq<u8>> {
    match container_from(cs, guid, 0) {
        Some(i) => if 0 <= k < cs[i].slots@.len() {
            match cs[i].slots@[k] {
                Some(b) => Some(b@),
                None => None,
            }
        } else {
            None
        },
        None => None,
    }
}

/// Writing an item into slot `slot_index` of the container with this GUID: the
/// container's position and the slot's new raw bytes (see `rewritten_slot`); `None` when
/// no container has the GUID or the slot is missing or has no raw data.
pub fn modified_slot(cs: &Vec<ContainerSlots>, guid: &str, slot_index: usize, item_id: &str, count: u32) -> (r: Option<(usize, Vec<u8>)>)
    requires
        target_slot(cs@, guid@, slot_index as int) matches Some(b) ==> (b.len() >= 12 ==> 12 + le_u32(b, 8) <= usize::MAX),
        item_id.spec_bytes().len() < usize::MAX,
    ensures
        r is None <==> target_slot(cs@, guid@, slot_index as int) is None,
        r matches Some((i, nb)) ==> container_from(cs@, guid@, 0) == Some(i as int) && nb@ == rewritten_slot(
            target_slot(cs@, guid@, slot_index as int)->0,
            item_id.spec_bytes(),
            count as nat,
        ),
{
    let i = match find_container(cs, guid) {
        None => return None,
        Some(i) => i,
    };
    proof {
        lemma_container_from(cs@, guid@, 0);
    }
    if slot_index >= cs[i].slots.len() {
        return None;
    }
    match &cs[i].slots[slot_index] {
        None => None,
        Some(b) => Some((i, rewrite_slot(b.as_slice(), item_id, count))),
    }
}


/// The item that slot `j` of a slot list holds, read from its raw bytes; `None` for a
/// slot out of range, without raw data, or empty.
pub open spec fn slot_item(slots: Seq<Option<Vec<u8>>>, j: int) -> Option<(nat, Seq<char>, nat)> {
    if 0 <= j < slots.len() {
        match slots[j] {
            Some(b) => slot_entry(j as nat, b@),
            None => None,
        }
    } else {
        None
    }
}

/// The item list of the first `n` slots holds exactly the items that those slots hold,
/// each listed under its own slot, in increasing slot order.
pub proof fn lemma_container_entries_members(slots: Seq<Option<Vec<u8>>>, n: nat)
    requires
        n <= slots.len(),
    ensures
        forall|e: (nat, Seq<char>, nat)| #[trigger]
            container_entries(slots, n).contains(e) <==> (e.0 < n && slot_item(slots, e.0 as int)
                == Some(e)),
        forall|a: int, b: int|
            0 <= a < b < container_entries(slots, n).len() ==> #[trigger] container_entries(
                slots,
                n,
            )[a].0 < #[trigger] container_entries(slots, n)[b].0,
        forall|a: int|
            0 <= a < container_entries(slots, n).len() ==> #[trigger] container_entries(
                slots,
                n,
            )[a].0 < n,
    decreases n,
{
    if n > 0 {
        let k = (n - 1) as nat;
        lemma_container_entries_members(slots, k);
        let rest = container_entries(slots, k);
        let all = container_entries(slots, n);
        match slot_item(slots, k as int) {
            Some(x) => {
                assert(x.0 == k);
                assert(all == rest.push(x));
                assert forall|e: (nat, Seq<char>, nat)| #[trigger]
                    all.contains(e) <==> (e.0 < n && slot_item(slots, e.0 as int) == Some(e)) by {
                    if all.contains(e) {
                        let idx = choose|idx: int| 0 <= idx < all.len() && all[idx] == e;
                        if idx < rest.len() {
                            assert(rest[idx] == e);
                            assert(rest.contains(e));
                        }
                    }
                    if e.0 < n && slot_item(slots, e.0 as int) == Some(e) {
                        if e.0 < k {
                            assert(rest.contains(e));
                            let idx = choose|idx: int| 0 <= idx < rest.len() && rest[idx] == e;
                            assert(all[idx] == e);
                        } else {
                            assert(all[rest.len() as int] == e);
                        }
                    }
                }
                assert forall|a: int, b: int| 0 <= a < b < all.len() implies #[trigger] all[a].0
                    < #[trigger] all[b].0 by {
                    if b < rest.len() {
                        assert(rest[a].0 < rest[b].0);
                    } else {
                        assert(rest[a].0 < k);
                    }
                }
                assert forall|a: int| 0 <= a < all.len() implies #[trigger] all[a].0 < n by {
                    if a < rest.len() {
                        assert(rest[a].0 < k);
                    }
                }
            },
            None => {
                assert(all == rest);
                assert forall|e: (nat, Seq<char>, nat)| #[trigger]
                    all.contains(e) <==> (e.0 < n && slot_item(slots, e.0 as int) == Some(e)) by {
                    if e.0 == k {
                        assert(slot_item(slots, e.0 as int) is None);
                    }
                }
            },
        }
    }
}

/// `cs2` is `cs` with slot `k` of container `i` given the raw bytes `nb`, and nothing
/// else changed.
pub open spec fn slot_replaced(
    cs: Seq<ContainerSlots>,
    cs2: Seq<ContainerSlots>,
    i: int,
    k: int,
    nb: Seq<u8>,
) -> bool {
    &&& 0 <= i < cs.len()
    &&& 0 <= k < cs[i].slots@.len()
    &&& cs2.len() == cs.len()
    &&& forall|c: int| 0 <= c < cs.len() && c != i ==> #[trigger] cs2[c] == cs[c]
    &&& cs2[i].guid@ == cs[i].guid@
    &&& cs2[i].slots@.len() == cs[i].slots@.len()
    &&& forall|j: int|
        0 <= j < cs[i].slots@.len() && j != k ==> #[trigger] cs2[i].slots@[j] == cs[i].slots@[j]
    &&& cs2[i].slots@[k] matches Some(b) && b@ == nb
}

proof fn lemma_container_from_same_guids(cs: Seq<ContainerSlots>, cs2: Seq<ContainerSlots>, guid: Seq<char>, c: int)
    requires
        0 <= c,
        cs2.len() == cs.len(),
        forall|d: int| 0 <= d < cs.len() ==> #[trigger] cs2[d].guid@ == cs[d].guid@,
    ensures
        container_from(cs2, guid, c) == container_from(cs, guid, c),
    decreases cs.len() - c,
{
    if c < cs.len() {
        assert(cs2[c].guid@ == cs[c].guid@);
        lemma_container_from_same_guids(cs, cs2, guid, c + 1);
    }
}

/// Writing an item with a non-empty id of at most 99 bytes and a positive count into slot
/// `k` of the container with a GUID, then reading that container's items back: the slot
/// holds exactly that item, every other slot holds what it held before, and the items
/// come in increasing slot order.
pub proof fn lemma_edit_then_read(
    cs: Seq<ContainerSlots>,
    cs2: Seq<ContainerSlots>,
    guid: Seq<char>,
    k: int,
    id: Seq<char>,
    count: u32,
)
    requires
        target_slot(cs, guid, k) is Some,
        id.len() > 0,
        encode_utf8(id).len() <= 99,
        count > 0,
        container_from(cs, guid, 0) matches Some(i) && slot_replaced(
            cs,
            cs2,
            i,
            k,
            rewritten_slot(target_slot(cs, guid, k)->0, encode_utf8(id), count as nat),
        ),
    ensures
        items_of_container(cs2, guid).contains((k as nat, id, count as nat)),
        forall|e: (nat, Seq<char>, nat)| #[trigger]
            items_of_container(cs2, guid).contains(e) && e.0 == k ==> e == (k as nat, id, count as nat),
        forall|e: (nat, Seq<char>, nat)|
            e.0 != k ==> (#[trigger] items_of_container(cs2, guid).contains(e)
                <==> items_of_container(cs, guid).contains(e)),
        forall|a: int, b: int|
            0 <= a < b < items_of_container(cs2, guid).len() ==> #[trigger] items_of_container(
                cs2,
                guid,
            )[a].0 < #[trigger] items_of_container(cs2, guid)[b].0,
{
    let i = container_from(cs, guid, 0)->0;
    lemma_container_from(cs, guid, 0);
    assert forall|d: int| 0 <= d < cs.len() implies #[trigger] cs2[d].guid@ == cs[d].guid@ by {
        if d != i {
            assert(cs2[d] == cs[d]);
        }
    }
    lemma_container_from_same_guids(cs, cs2, guid, 0);
    let s1 = cs[i].slots@;
    let s2 = cs2[i].slots@;
    let b = target_slot(cs, guid, k)->0;
    lemma_rewrite_then_parse(b, id, count, k as nat);
    assert(slot_item(s2, k) == Some((k as nat, id, count as nat)));
    assert forall|j: int| j != k implies #[trigger] slot_item(s2, j) == slot_item(s1, j) by {
        if 0 <= j < s1.len() {
            assert(s2[j] == s1[j]);
        }
    }
    lemma_container_entries_members(s1, s1.len());
    lemma_container_entries_members(s2, s2.len());
    assert(items_of_container(cs2, guid) == container_entries(s2, s2.len()));
    assert(items_of_container(cs, guid) == container_entries(s1, s1.len()));
    assert forall|e: (nat, Seq<char>, nat)|
        e.0 != k implies (#[trigger] items_of_container(cs2, guid).contains(e)
            <==> items_of_container(cs, guid).contains(e)) by {
        assert(slot_item(s2, e.0 as int) == slot_item(s1, e.0 as int));
    }
}

} // verus!
