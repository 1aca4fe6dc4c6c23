//! Scans of the world save (`Level.sav`): character records, item containers,
//! storage chests and guild groups.
use vstd::prelude::*;
use vstd::string::StringSliceAdditionalSpecFns;
use crate::guid::{format_guid, guid_bytes_at, guid_text};
use crate::scanner::{
    extract_guid_bytes_prop, find_pattern, guid_bytes_prop, map_header, pattern_from, remaining,
    skip_prop, string_prop, try_extract_string_prop, try_skip_property_at,
};
use crate::db::{bytes_le, bytes_le_exec, owned};
use vstd::utf8::encode_utf8;
use crate::text::{
    decode_utf8_lossy, has_sub, lemma_nonempty_bytes, lowercase, text_contains, text_eq,
    to_lowercase, lossy_text, utf8_text,
};
use vstd::utf8::{decode_utf8, valid_utf8};
use crate::wire::{
    as_i32, find_first, find_within, first_match, opt_pos, fstring_at, lemma_first_match_found, matches_at, bytes_match_at, slice_range, le_u32, le_u64, lemma_fstring_offset, read_u32_le, read_u64_le,
    try_read_string_at,
};

verus! {

broadcast use vstd::string::group_string_axioms;

/// The header after a property's 8-byte size: a struct type name and 17 bytes for a
/// `StructProperty`, one separator byte for anything else. Gives the struct type (empty
/// for non-structs) and the offset of the value.
pub open spec fn value_header(s: Seq<u8>, off: int, prop_type: Seq<char>) -> Option<(Seq<char>, int)> {
    if prop_type == "StructProperty"@ {
        match fstring_at(s, off) {
            None => None,
            Some((st, o)) => Some((st, o + 17)),
        }
    } else {
        Some((Seq::empty(), off + 1))
    }
}

/// Reads the key fields of a character record from `off` up to the `None` terminator (or
/// an empty name), keeping the last `PlayerUId` and `InstanceId` GUIDs seen. Gives the
/// two GUID texts (empty when absent) and the offset after the terminator; `None` where
/// the bytes are malformed (cut-off size or GUID, offset overflow).
pub open spec fn key_fields(s: Seq<u8>, off: int, uid: Seq<char>, inst: Seq<char>) -> Option<
    (Seq<char>, Seq<char>, int),
>
    decreases remaining(s, off),
{
    match fstring_at(s, off) {
        None => None,
        Some((name, o)) => {
            proof {
                lemma_fstring_offset(s, off);
            }
            if name.len() == 0 || name == "None"@ {
                Some((uid, inst, o))
            } else {
                match fstring_at(s, o) {
                    None => None,
                    Some((pt, o2)) => {
                        proof {
                            lemma_fstring_offset(s, o);
                        }
                        if o2 + 8 > s.len() {
                            None
                        } else {
                            let size = (le_u64(s, o2) as usize) as int;
                            proof {
                                lemma_fstring_offset(s, o2 + 8);
                            }
                            match value_header(s, o2 + 8, pt) {
                                None => None,
                                Some((st, v)) => {
                                    let is_uid = name == "PlayerUId"@ && st == "Guid"@;
                                    let is_inst = name == "InstanceId"@ && st == "Guid"@;
                                    if v + size > usize::MAX {
                                        None
                                    } else if (is_uid || is_inst) && v + 16 > s.len() {
                                        None
                                    } else {
                                        let g = guid_text(s.subrange(v, v + 16));
                                        key_fields(
                                            s,
                                            v + size,
                                            if is_uid {
                                                g
                                            } else {
                                                uid
                                            },
                                            if is_inst {
                                                g
                                            } else {
                                                inst
                                            },
                                        )
                                    }
                                },
                            }
                        }
                    },
                }
            }
        },
    }
}

/// Reads the value fields of a character record from `off` up to the terminator, keeping
/// the payload of the last `RawData` byte array that fits the buffer. `None` where the
/// bytes are malformed.
pub open spec fn raw_fields(s: Seq<u8>, off: int, raw: Seq<u8>) -> Option<(Seq<u8>, int)>
    decreases remaining(s, off),
{
    match fstring_at(s, off) {
        None => None,
        Some((name, o)) => {
            proof {
                lemma_fstring_offset(s, off);
            }
            if name.len() == 0 || name == "None"@ {
                Some((raw, o))
            } else {
                match fstring_at(s, o) {
                    None => None,
                    Some((pt, o2)) => {
                        proof {
                            lemma_fstring_offset(s, o);
                        }
                        if o2 + 8 > s.len() {
                            None
                        } else {
                            let size = (le_u64(s, o2) as usize) as int;
                            proof {
                                lemma_fstring_offset(s, o2 + 8);
                            }
                            if pt == "ArrayProperty"@ {
                                match fstring_at(s, o2 + 8) {
                                    None => None,
                                    Some((at, x)) => {
                                        let v = x + 1;
                                        if v + size > usize::MAX {
                                            None
                                        } else if name == "RawData"@ && at == "ByteProperty"@ {
                                            if v + 4 > s.len() {
                                                None
                                            } else {
                                                let b = le_u32(s, v);
                                                if v + 4 + b > usize::MAX {
                                                    None
                                                } else {
                                                    raw_fields(
                                                        s,
                                                        v + size,
                                                        if v + 4 + b <= s.len() {
                                                            s.subrange(v + 4, v + 4 + b)
                                                        } else {
                                                            raw
                                                        },
                                                    )
                                                }
                                            }
                                        } else {
                                            raw_fields(s, v + size, raw)
                                        }
                                    },
                                }
                            } else {
                                match value_header(s, o2 + 8, pt) {
                                    None => None,
                                    Some((_, v)) => if v + size > usize::MAX {
                                        None
                                    } else {
                                        raw_fields(s, v + size, raw)
                                    },
                                }
                            }
                        }
                    },
                }
            }
        },
    }
}

/// One character record as plain values: player GUID text, instance GUID text and the
/// raw parameter bytes.
#[derive(Debug, Clone)]
pub struct CharacterEntry {
    pub player_uid: String,
    pub instance_id: String,
    pub raw_data: Vec<u8>,
}

/// The view of a character record.
pub open spec fn entry_view(e: CharacterEntry) -> (Seq<char>, Seq<char>, Seq<u8>) {
    (e.player_uid@, e.instance_id@, e.raw_data@)
}

/// Views of a list of character records.
pub open spec fn entries_view(v: Seq<CharacterEntry>) -> Seq<(Seq<char>, Seq<char>, Seq<u8>)> {
    v.map_values(|e: CharacterEntry| entry_view(e))
}

/// Records found in `n` map entries from `off`; a record is kept when its player GUID,
/// instance GUID and raw data are all non-empty. Stops early at the end of the buffer.
pub open spec fn char_entries(s: Seq<u8>, off: int, n: nat) -> Option<
    Seq<(Seq<char>, Seq<char>, Seq<u8>)>,
>
    decreases n,
{
    if n == 0 || off >= s.len() {
        Some(Seq::empty())
    } else {
        match key_fields(s, off, Seq::empty(), Seq::empty()) {
            None => None,
            Some((uid, inst, o)) => match raw_fields(s, o, Seq::empty()) {
                None => None,
                Some((raw, o2)) => match char_entries(s, o2, (n - 1) as nat) {
                    None => None,
                    Some(rest) => Some(
                        if uid.len() > 0 && inst.len() > 0 && raw.len() > 0 {
                            seq![(uid, inst, raw)] + rest
                        } else {
                            rest
                        },
                    ),
                },
            },
        }
    }
}

/// The character records of `CharacterSaveParameterMap` in file order; empty when the
/// map is missing. `None` where the bytes are malformed.
pub open spec fn character_entries(s: Seq<u8>) -> Option<Seq<(Seq<char>, Seq<char>, Seq<u8>)>> {
    match map_header(s, "CharacterSaveParameterMap\0".spec_bytes()) {
        None => None,
        Some(None) => Some(Seq::empty()),
        Some(Some((_, n, off))) => char_entries(s, off, n),
    }
}

fn try_key_fields(bytes: &[u8], offset: &mut usize) -> (r: Option<(String, String)>)
    requires
        bytes@.len() <= isize::MAX,
    ensures
        key_fields(bytes@, *old(offset) as int, Seq::empty(), Seq::empty()) is None ==> r is None,
        key_fields(bytes@, *old(offset) as int, Seq::empty(), Seq::empty()) matches Some(
            (u, i, o),
        ) ==> r matches Some((ru, ri)) && ru@ == u && ri@ == i && *final(offset) == o,
{
    let mut uid = String::new();
    let mut inst = String::new();
    loop
        invariant
            bytes@.len() <= isize::MAX,
            key_fields(bytes@, *old(offset) as int, Seq::empty(), Seq::empty()) == key_fields(
                bytes@,
                *offset as int,
                uid@,
                inst@,
            ),
        decreases remaining(bytes@, *offset as int),
    {
        let ghost off0 = *offset;
        proof {
            lemma_fstring_offset(bytes@, off0 as int);
        }
        let name = match try_read_string_at(bytes, offset) {
            None => return None,
            Some(n) => n,
        };
        if name.as_str().is_empty() || text_eq(name.as_str(), "None") {
            return Some((uid, inst));
        }
        let ghost o = *offset;
        proof {
            lemma_fstring_offset(bytes@, o as int);
        }
        let pt = match try_read_string_at(bytes, offset) {
            None => return None,
            Some(p) => p,
        };
        if *offset + 8 > bytes.len() {
            return None;
        }
        let size = read_u64_le(bytes, *offset) as usize;
        *offset = *offset + 8;
        let ghost o3 = *offset;
        proof {
            lemma_fstring_offset(bytes@, o3 as int);
        }
        let mut st = String::new();
        if text_eq(pt.as_str(), "StructProperty") {
            st = match try_read_string_at(bytes, offset) {
                None => return None,
                Some(t) => t,
            };
            *offset = *offset + 17;
        } else {
            *offset = *offset + 1;
        }
        let v = *offset;
        if v > usize::MAX - size {
            return None;
        }
        let is_guid = text_eq(st.as_str(), "Guid");
        let is_uid = text_eq(name.as_str(), "PlayerUId") && is_guid;
        let is_inst = text_eq(name.as_str(), "InstanceId") && is_guid;
        if (is_uid || is_inst) && v + 16 > bytes.len() {
            return None;
        }
        if is_uid {
            uid = format_guid(&guid_bytes_at(bytes, v));
        }
        if is_inst {
            inst = format_guid(&guid_bytes_at(bytes, v));
        }
        *offset = v + size;
    }
}

fn try_raw_fields(bytes: &[u8], offset: &mut usize) -> (r: Option<Vec<u8>>)
    requires
        bytes@.len() <= isize::MAX,
    ensures
        raw_fields(bytes@, *old(offset) as int, Seq::empty()) is None ==> r is None,
        raw_fields(bytes@, *old(offset) as int, Seq::empty()) matches Some((raw, o)) ==> r
            matches Some(rr) && rr@ == raw && *final(offset) == o,
{
    let mut raw: Vec<u8> = Vec::new();
    loop
        invariant
            bytes@.len() <= isize::MAX,
            raw_fields(bytes@, *old(offset) as int, Seq::empty()) == raw_fields(
                bytes@,
                *offset as int,
                raw@,
            ),
        decreases remaining(bytes@, *offset as int),
    {
        let ghost off0 = *offset;
        proof {
            lemma_fstring_offset(bytes@, off0 as int);
        }
        let name = match try_read_string_at(bytes, offset) {
            None => return None,
            Some(n) => n,
        };
        if name.as_str().is_empty() || text_eq(name.as_str(), "None") {
            return Some(raw);
        }
        let ghost o = *offset;
        proof {
            lemma_fstring_offset(bytes@, o as int);
        }
        let pt = match try_read_string_at(bytes, offset) {
            None => return None,
            Some(p) => p,
        };
        if *offset + 8 > bytes.len() {
            return None;
        }
        let size = read_u64_le(bytes, *offset) as usize;
        *offset = *offset + 8;
        let ghost o3 = *offset;
        proof {
            lemma_fstring_offset(bytes@, o3 as int);
        }
        if text_eq(pt.as_str(), "ArrayProperty") {
            let at = match try_read_string_at(bytes, offset) {
                None => return None,
                Some(t) => t,
            };
            let v = *offset + 1;
            if v > usize::MAX - size {
                return None;
            }
            if text_eq(name.as_str(), "RawData") && text_eq(at.as_str(), "ByteProperty") {
                if v + 4 > bytes.len() {
                    return None;
                }
                let b = read_u32_le(bytes, v) as usize;
                if v + 4 > usize::MAX - b {
                    return None;
                }
                if v + 4 + b <= bytes.len() {
                    raw = copy_range(bytes, v + 4, v + 4 + b);
                }
            }
            *offset = v + size;
        } else {
            if text_eq(pt.as_str(), "StructProperty") {
                if try_read_string_at(bytes, offset).is_none() {
                    return None;
                }
                *offset = *offset + 17;
            } else {
                *offset = *offset + 1;
            }
            if *offset > usize::MAX - size {
                return None;
            }
            *offset = *offset + size;
        }
    }
}

/// A copy of the bytes `lo..hi`.
pub fn copy_range(bytes: &[u8], lo: usize, hi: usize) -> (r: Vec<u8>)
    requires
        lo <= hi <= bytes@.len(),
    ensures
        r@ == bytes@.subrange(lo as int, hi as int),
{
    let mut r: Vec<u8> = Vec::new();
    let mut i = lo;
    while i < hi
        invariant
            lo <= i <= hi <= bytes@.len(),
            r@ =~= bytes@.subrange(lo as int, i as int),
        decreases hi - i,
    {
        r.push(bytes[i]);
        i = i + 1;
    }
    r
}

/// The character records of `CharacterSaveParameterMap`, `None` where the bytes are
/// malformed.
pub fn try_scan_character_save_parameters(level_bytes: &[u8]) -> (r: Option<Vec<CharacterEntry>>)
    requires
        level_bytes@.len() <= isize::MAX,
    ensures
        character_entries(level_bytes@) is None ==> r is None,
        character_entries(level_bytes@) matches Some(es) ==> r is Some && entries_view(r->0@)
            == es,
{
    let mut entries: Vec<CharacterEntry> = Vec::new();
    assert(entries_view(entries@) =~= Seq::empty());
    let (n, start) = match crate::scanner::try_map_header(
        level_bytes,
        "CharacterSaveParameterMap\0".as_bytes(),
    ) {
        None => return None,
        Some(None) => return Some(entries),
        Some(Some((_, n, start))) => (n, start),
    };
    let ghost total = character_entries(level_bytes@);
    let mut offset = start;
    let mut left = n;
    assert(entries_view(entries@) + char_entries(level_bytes@, offset as int, left as nat)->0
        =~= char_entries(level_bytes@, offset as int, left as nat)->0);
    while left > 0 && offset < level_bytes.len()
        invariant
            level_bytes@.len() <= isize::MAX,
            total == character_entries(level_bytes@),
            char_entries(level_bytes@, offset as int, left as nat) matches Some(rest) ==> total
                == Some(entries_view(entries@) + rest),
            char_entries(level_bytes@, offset as int, left as nat) is None ==> total is None,
        decreases left,
    {
        let ghost before = entries@;
        let ghost off0 = offset;
        let (uid, inst) = match try_key_fields(level_bytes, &mut offset) {
            None => return None,
            Some(k) => k,
        };
        let raw = match try_raw_fields(level_bytes, &mut offset) {
            None => return None,
            Some(r) => r,
        };
        left = left - 1;
        let keep = !uid.as_str().is_empty() && !inst.as_str().is_empty() && raw.len() > 0;
        let ghost ev = (uid@, inst@, raw@);
        if keep {
            entries.push(CharacterEntry { player_uid: uid, instance_id: inst, raw_data: raw });
        }
        proof {
            match char_entries(level_bytes@, offset as int, left as nat) {
                Some(rest) => {
                    if keep {
                        assert(entries_view(entries@) =~= entries_view(before) + seq![ev]);
                        assert(entries_view(before) + (seq![ev] + rest) =~= entries_view(
                            entries@,
                        ) + rest);
                    } else {
                        assert(entries_view(entries@) =~= entries_view(before));
                    }
                },
                None => {},
            }
        }
    }
    proof {
        assert(entries_view(entries@) + Seq::empty() =~= entries_view(entries@));
    }
    Some(entries)
}

/// The character records of `CharacterSaveParameterMap` in file order: for each map entry,
/// the player and instance GUIDs of its key and the `RawData` bytes of its value; entries
/// missing any of the three are left out.
pub fn scan_character_save_parameters(level_bytes: &[u8]) -> (r: Vec<CharacterEntry>)
    requires
        level_bytes@.len() <= isize::MAX,
        character_entries(level_bytes@) is Some,
    ensures
        entries_view(r@) == character_entries(level_bytes@)->0,
{
    match try_scan_character_save_parameters(level_bytes) {
        Some(v) => v,
        None => Vec::new(),
    }
}


/// One occupied inventory slot: its index, the item id and the stack count.
#[derive(Debug, Clone)]
pub struct InventoryItem {
    pub slot_index: u32,
    pub item_id: String,
    pub count: u32,
}

/// The view of an inventory slot.
pub open spec fn item_view(it: InventoryItem) -> (nat, Seq<char>, nat) {
    (it.slot_index as nat, it.item_id@, it.count as nat)
}

/// Views of a list of inventory slots.
pub open spec fn items_view(v: Seq<InventoryItem>) -> Seq<(nat, Seq<char>, nat)> {
    v.map_values(|it: InventoryItem| item_view(it))
}

/// Skipping a property value always moves forward.
pub proof fn lemma_skip_prop_advances(s: Seq<u8>, off: int, t: Seq<char>, size: int)
    requires
        size >= 0,
    ensures
        skip_prop(s, off, t, size) matches Some(n) ==> n > off,
{
    lemma_fstring_offset(s, off);
    if let Some((_, o)) = fstring_at(s, off) {
        lemma_fstring_offset(s, o);
    }
}

/// The item held in a slot's raw bytes: slot index (bytes 0..4), stack count (4..8), id
/// length counting its NUL (8..12), then the id. Empty when the id is missing or empty or
/// the count is 0; `None` where the bytes are malformed (fewer than 12 bytes, overflow).
pub open spec fn slot_payload(r: Seq<u8>) -> Option<Seq<(nat, Seq<char>, nat)>> {
    if r.len() < 12 {
        None
    } else {
        let slot = le_u32(r, 0);
        let stack = le_u32(r, 4);
        let idl = le_u32(r, 8);
        if idl <= 1 {
            Some(Seq::empty())
        } else if 12 + idl > usize::MAX {
            None
        } else if 12 + idl - 1 > r.len() {
            Some(Seq::empty())
        } else {
            let id = lossy_text(r.subrange(12, 12 + idl - 1));
            if id.len() > 0 && stack > 0 {
                Some(seq![(slot, id, stack)])
            } else {
                Some(Seq::empty())
            }
        }
    }
}

/// The `RawData` byte array of a slot element whose header starts at `off` and whose
/// payload is `size` bytes: the item it holds and the offset after it.
pub open spec fn raw_slot(s: Seq<u8>, off: int, size: int) -> Option<(Seq<(nat, Seq<char>, nat)>, int)> {
    match fstring_at(s, off) {
        None => None,
        Some((_, x)) => {
            let v = x + 1;
            if v + size > usize::MAX {
                None
            } else if v + 4 > s.len() {
                None
            } else {
                let b = le_u32(s, v);
                if v + 4 + b > usize::MAX {
                    None
                } else if v + 4 + b > s.len() {
                    Some((Seq::empty(), v + size))
                } else {
                    match slot_payload(s.subrange(v + 4, v + 4 + b)) {
                        None => None,
                        Some(found) => Some((found, v + size)),
                    }
                }
            }
        },
    }
}

/// Reads the properties of one slot element from `off` up to its `RawData` array (whose
/// payload gives the item) or its terminator; other properties are skipped by type.
/// Gives the items found (at most one) and the offset reached.
pub open spec fn slot_item(s: Seq<u8>, off: int) -> Option<(Seq<(nat, Seq<char>, nat)>, int)>
    decreases remaining(s, off),
{
    match fstring_at(s, off) {
        None => None,
        Some((name, o)) => {
            proof {
                lemma_fstring_offset(s, off);
            }
            if name.len() == 0 || name == "None"@ {
                Some((Seq::empty(), o))
            } else {
                match fstring_at(s, o) {
                    None => None,
                    Some((pt, o2)) => {
                        proof {
                            lemma_fstring_offset(s, o);
                        }
                        if o2 + 8 > s.len() {
                            None
                        } else {
                            let size = (le_u64(s, o2) as usize) as int;
                            if name == "RawData"@ {
                                raw_slot(s, o2 + 8, size)
                            } else {
                                proof {
                                    lemma_skip_prop_advances(s, o2 + 8, pt, size);
                                }
                                match skip_prop(s, o2 + 8, pt, size) {
                                    None => None,
                                    Some(next) => slot_item(s, next),
                                }
                            }
                        }
                    },
                }
            }
        },
    }
}

/// Items of `n` slot elements read one after another from `off`.
pub open spec fn container_slots(s: Seq<u8>, off: int, n: nat) -> Option<
    Seq<(nat, Seq<char>, nat)>,
>
    decreases n,
{
    if n == 0 {
        Some(Seq::empty())
    } else {
        match slot_item(s, off) {
            None => None,
            Some((found, next)) => match container_slots(s, next, (n - 1) as nat) {
                None => None,
                Some(rest) => Some(found + rest),
            },
        }
    }
}

/// `BelongInfo` starts within `i + 16 .. min(i + 40, len)` (and fits there).
pub open spec fn belong_near(s: Seq<u8>, i: int) -> bool {
    let end = if i + 40 < s.len() {
        i + 40
    } else {
        s.len() as int
    };
    first_match(s, "BelongInfo".spec_bytes(), i + 16, end - "BelongInfo".spec_bytes().len() + 1)
        is Some
}

/// The first position in `lo..hi` holding the container GUID followed by `BelongInfo`.
pub open spec fn first_container(s: Seq<u8>, g: Seq<u8>, lo: int, hi: int) -> Option<int>
    decreases hi - lo,
{
    if lo >= hi {
        None
    } else if matches_at(s, lo, g) && belong_near(s, lo) {
        Some(lo)
    } else {
        first_container(s, g, lo + 1, hi)
    }
}

/// The header of a `Slots` array property whose name starts at `at`: the element count
/// and the offset of the first element's fields (past the element struct's header).
/// Inner `None`: the count is cut off; outer `None`: it cannot be read.
pub open spec fn slots_header(s: Seq<u8>, at: int) -> Option<Option<(nat, int)>> {
    match fstring_at(s, at) {
        None => None,
        Some((_, a)) => match fstring_at(s, a) {
            None => None,
            Some((_, b)) => match fstring_at(s, b + 8) {
                None => None,
                Some((_, c)) => {
                    let d = c + 1;
                    if d + 4 > s.len() {
                        Some(None)
                    } else {
                        match fstring_at(s, d + 4) {
                            None => None,
                            Some((_, e)) => match fstring_at(s, e) {
                                None => None,
                                Some((_, f)) => match fstring_at(s, f + 8) {
                                    None => None,
                                    Some((_, h)) => Some(Some((le_u32(s, d), h + 17))),
                                },
                            },
                        }
                    }
                },
            },
        },
    }
}

/// The items of the container whose 16-byte GUID is `g`: the record is the first
/// occurrence of the GUID followed by `BelongInfo`; its `Slots` array must start within
/// 15000 bytes. Empty when either is missing or the array header is cut off; `None`
/// where the bytes are malformed.
pub open spec fn container_items(s: Seq<u8>, g: Seq<u8>) -> Option<Seq<(nat, Seq<char>, nat)>> {
    if s.len() < 16 {
        None
    } else {
        match first_container(s, g, 0, s.len() - 16) {
            None => Some(Seq::empty()),
            Some(lc) => {
                let hi = if lc + 15000 < s.len() {
                    lc + 15000
                } else {
                    s.len() as int
                };
                match first_match(s, "Slots\0".spec_bytes(), lc, hi) {
                    None => Some(Seq::empty()),
                    Some(i) => if i < 4 {
                        None
                    } else {
                        match slots_header(s, i - 4) {
                            None => None,
                            Some(None) => Some(Seq::empty()),
                            Some(Some((count, start))) => container_slots(s, start, count),
                        }
                    },
                }
            },
        }
    }
}

fn try_slot_payload(raw: &[u8]) -> (r: Option<Option<InventoryItem>>)
    ensures
        slot_payload(raw@) is None ==> r is None,
        slot_payload(raw@) matches Some(found) ==> r matches Some(o) && (match o {
            None => found.len() == 0,
            Some(it) => found == seq![item_view(it)],
        }),
{
    if raw.len() < 12 {
        return None;
    }
    let slot = read_u32_le(raw, 0);
    let stack = read_u32_le(raw, 4);
    let idl = read_u32_le(raw, 8) as usize;
    if idl <= 1 {
        return Some(None);
    }
    if idl > usize::MAX - 12 {
        return None;
    }
    if 12 + idl - 1 > raw.len() {
        return Some(None);
    }
    let id = decode_utf8_lossy(slice_range(raw, 12, 12 + idl - 1));
    if !id.as_str().is_empty() && stack > 0 {
        Some(Some(InventoryItem { slot_index: slot, item_id: id, count: stack }))
    } else {
        Some(None)
    }
}

fn try_raw_slot(bytes: &[u8], offset: &mut usize, size: usize) -> (r: Option<Option<InventoryItem>>)
    requires
        bytes@.len() <= isize::MAX,
        *old(offset) <= bytes@.len() + 8,
    ensures
        raw_slot(bytes@, *old(offset) as int, size as int) is None ==> r is None,
        raw_slot(bytes@, *old(offset) as int, size as int) matches Some((found, o)) ==> r
            matches Some(oi) && *final(offset) == o && (match oi {
            None => found.len() == 0,
            Some(it) => found == seq![item_view(it)],
        }),
{
    proof {
        lemma_fstring_offset(bytes@, *offset as int);
    }
    if try_read_string_at(bytes, offset).is_none() {
        return None;
    }
    let v = *offset + 1;
    if v > usize::MAX - size {
        return None;
    }
    if v + 4 > bytes.len() {
        return None;
    }
    let b = read_u32_le(bytes, v) as usize;
    if v + 4 > usize::MAX - b {
        return None;
    }
    *offset = v + size;
    if v + 4 + b > bytes.len() {
        return Some(None);
    }
    try_slot_payload(slice_range(bytes, v + 4, v + 4 + b))
}

fn try_slot_item(bytes: &[u8], offset: &mut usize, out: &mut Vec<InventoryItem>) -> (r: Option<()>)
    requires
        bytes@.len() <= isize::MAX,
    ensures
        slot_item(bytes@, *old(offset) as int) is None ==> r is None,
        slot_item(bytes@, *old(offset) as int) matches Some((found, o)) ==> r is Some
            && items_view(final(out)@) == items_view(old(out)@) + found && *final(offset) == o,
{
    loop
        invariant
            bytes@.len() <= isize::MAX,
            out@ == old(out)@,
            slot_item(bytes@, *old(offset) as int) == slot_item(bytes@, *offset as int),
        decreases remaining(bytes@, *offset as int),
    {
        let ghost off0 = *offset;
        proof {
            lemma_fstring_offset(bytes@, off0 as int);
        }
        let name = match try_read_string_at(bytes, offset) {
            None => return None,
            Some(n) => n,
        };
        if name.as_str().is_empty() || text_eq(name.as_str(), "None") {
            assert(items_view(out@) + Seq::empty() =~= items_view(out@));
            return Some(());
        }
        let ghost o = *offset;
        proof {
            lemma_fstring_offset(bytes@, o as int);
        }
        let pt = match try_read_string_at(bytes, offset) {
            None => return None,
            Some(p) => p,
        };
        if *offset + 8 > bytes.len() {
            return None;
        }
        let size = read_u64_le(bytes, *offset) as usize;
        *offset = *offset + 8;
        if text_eq(name.as_str(), "RawData") {
            match try_raw_slot(bytes, offset, size) {
                None => return None,
                Some(None) => {
                    assert(items_view(out@) + Seq::empty() =~= items_view(out@));
                },
                Some(Some(it)) => {
                    let ghost before = out@;
                    out.push(it);
                    assert(items_view(out@) =~= items_view(before) + seq![item_view(it)]);
                },
            }
            return Some(());
        }
        proof {
            lemma_skip_prop_advances(bytes@, *offset as int, pt@, size as int);
        }
        if try_skip_property_at(bytes, offset, pt.as_str(), size).is_none() {
            return None;
        }
    }
}

/// Past the end of the buffer every further slot element reads as empty.
proof fn lemma_slots_past_end(s: Seq<u8>, off: int, n: nat)
    requires
        off >= s.len(),
        off + 4 <= usize::MAX,
    ensures
        container_slots(s, off, n) == Some(Seq::<(nat, Seq<char>, nat)>::empty()),
    decreases n,
{
    if n > 0 {
        lemma_slots_past_end(s, off, (n - 1) as nat);
        assert(Seq::<(nat, Seq<char>, nat)>::empty() + Seq::empty() =~= Seq::empty());
    }
}

fn container_pos(bytes: &[u8], guid: &[u8; 16]) -> (r: Option<usize>)
    requires
        bytes@.len() >= 16,
        bytes@.len() <= isize::MAX,
    ensures
        crate::wire::opt_pos(r) == first_container(bytes@, guid@, 0, bytes@.len() - 16),
{
    let hi = bytes.len() - 16;
    let belong = "BelongInfo".as_bytes();
    let mut i: usize = 0;
    while i < hi
        invariant
            hi == bytes@.len() - 16,
            bytes@.len() <= isize::MAX,
            belong@ == "BelongInfo".spec_bytes(),
            i <= hi,
            first_container(bytes@, guid@, 0, hi as int) == first_container(
                bytes@,
                guid@,
                i as int,
                hi as int,
            ),
        decreases hi - i,
    {
        if bytes_match_at(bytes, i, guid.as_slice()) {
            let end = if i + 40 < bytes.len() {
                i + 40
            } else {
                bytes.len()
            };
            let near = if end + 1 < belong.len() {
                false
            } else {
                find_first(bytes, belong, i + 16, end + 1 - belong.len()).is_some()
            };
            if near {
                return Some(i);
            }
        }
        i = i + 1;
    }
    None
}

fn try_container_slots(bytes: &[u8], start: usize, count: u32) -> (r: Option<Vec<InventoryItem>>)
    requires
        bytes@.len() <= isize::MAX,
    ensures
        container_slots(bytes@, start as int, count as nat) is None ==> r is None,
        container_slots(bytes@, start as int, count as nat) matches Some(k) ==> r is Some
            && items_view(r->0@) == k,
{
    let mut items: Vec<InventoryItem> = Vec::new();
    let ghost total = container_slots(bytes@, start as int, count as nat);
    let mut offset = start;
    let mut left = count;
    assert(items_view(items@) + container_slots(bytes@, offset as int, left as nat)->0
        =~= container_slots(bytes@, offset as int, left as nat)->0);
    while left > 0
        invariant
            bytes@.len() <= isize::MAX,
            total == container_slots(bytes@, start as int, count as nat),
            container_slots(bytes@, offset as int, left as nat) matches Some(rest) ==> total
                == Some(items_view(items@) + rest),
            container_slots(bytes@, offset as int, left as nat) is None ==> total is None,
        ensures
            container_slots(bytes@, offset as int, left as nat) == Some(
                Seq::<(nat, Seq<char>, nat)>::empty(),
            ),
        decreases left,
    {
        if offset >= bytes.len() && offset <= usize::MAX - 4 {
            proof {
                lemma_slots_past_end(bytes@, offset as int, left as nat);
            }
            break;
        }
        let ghost before = items@;
        let ghost off0 = offset;
        if try_slot_item(bytes, &mut offset, &mut items).is_none() {
            return None;
        }
        left = left - 1;
        proof {
            let found = match slot_item(bytes@, off0 as int) {
                Some((f, _)) => f,
                None => Seq::empty(),
            };
            match container_slots(bytes@, offset as int, left as nat) {
                Some(rest) => {
                    assert(items_view(before) + (found + rest) =~= items_view(items@) + rest);
                },
                None => {},
            }
        }
    }
    proof {
        assert(items_view(items@) + Seq::empty() =~= items_view(items@));
    }
    Some(items)
}

fn try_slots_header(bytes: &[u8], at: usize) -> (r: Option<Option<(u32, usize)>>)
    requires
        bytes@.len() <= isize::MAX,
        at <= bytes@.len(),
    ensures
        slots_header(bytes@, at as int) is None ==> r is None,
        slots_header(bytes@, at as int) matches Some(None) ==> r matches Some(None),
        slots_header(bytes@, at as int) matches Some(Some((n, o))) ==> r matches Some(
            Some((rn, ro)),
        ) && rn == n && ro == o,
{
    let mut offset = at;
    proof {
        lemma_fstring_offset(bytes@, offset as int);
    }
    if try_read_string_at(bytes, &mut offset).is_none() {
        return None;
    }
    proof {
        lemma_fstring_offset(bytes@, offset as int);
    }
    if try_read_string_at(bytes, &mut offset).is_none() {
        return None;
    }
    offset = offset + 8;
    proof {
        lemma_fstring_offset(bytes@, offset as int);
    }
    if try_read_string_at(bytes, &mut offset).is_none() {
        return None;
    }
    offset = offset + 1;
    if offset + 4 > bytes.len() {
        return Some(None);
    }
    let count = read_u32_le(bytes, offset);
    offset = offset + 4;
    proof {
        lemma_fstring_offset(bytes@, offset as int);
    }
    if try_read_string_at(bytes, &mut offset).is_none() {
        return None;
    }
    proof {
        lemma_fstring_offset(bytes@, offset as int);
    }
    if try_read_string_at(bytes, &mut offset).is_none() {
        return None;
    }
    offset = offset + 8;
    proof {
        lemma_fstring_offset(bytes@, offset as int);
    }
    if try_read_string_at(bytes, &mut offset).is_none() {
        return None;
    }
    Some(Some((count, offset + 17)))
}

/// The items of the container whose GUID bytes are `container_guid_le` (see
/// `container_items`), `None` where the bytes are malformed.
pub fn try_parse_container_items(level_bytes: &[u8], container_guid_le: &[u8; 16]) -> (r: Option<
    Vec<InventoryItem>,
>)
    requires
        level_bytes@.len() <= isize::MAX,
    ensures
        container_items(level_bytes@, container_guid_le@) is None ==> r is None,
        container_items(level_bytes@, container_guid_le@) matches Some(k) ==> r is Some
            && items_view(r->0@) == k,
{
    let mut items: Vec<InventoryItem> = Vec::new();
    assert(items_view(items@) =~= Seq::empty());
    if level_bytes.len() < 16 {
        return None;
    }
    let lc = match container_pos(level_bytes, container_guid_le) {
        None => return Some(items),
        Some(p) => p,
    };
    proof {
        reveal_with_fuel(first_container, 1);
        lemma_first_container_found(level_bytes@, container_guid_le@, 0, level_bytes@.len() - 16);
    }
    let hi = if lc + 15000 < level_bytes.len() {
        lc + 15000
    } else {
        level_bytes.len()
    };
    let i = match find_first(level_bytes, "Slots\0".as_bytes(), lc, hi) {
        None => return Some(items),
        Some(i) => i,
    };
    proof {
        lemma_first_match_found(level_bytes@, "Slots\0".spec_bytes(), lc as int, hi as int);
    }
    if i < 4 {
        return None;
    }
    let (count, start) = match try_slots_header(level_bytes, i - 4) {
        None => return None,
        Some(None) => return Some(items),
        Some(Some(h)) => h,
    };
    try_container_slots(level_bytes, start, count)
}

/// The first container position found really holds the GUID and `BelongInfo` nearby.
pub proof fn lemma_first_container_found(s: Seq<u8>, g: Seq<u8>, lo: int, hi: int)
    ensures
        first_container(s, g, lo, hi) matches Some(i) ==> lo <= i < hi && matches_at(s, i, g)
            && belong_near(s, i),
    decreases hi - lo,
{
    if lo < hi && !(matches_at(s, lo, g) && belong_near(s, lo)) {
        lemma_first_container_found(s, g, lo + 1, hi);
    }
}

/// The occupied slots of a container's `Slots` array, in array order.
pub fn parse_container_items(level_bytes: &[u8], container_guid_le: &[u8; 16]) -> (r: Vec<
    InventoryItem,
>)
    requires
        level_bytes@.len() <= isize::MAX,
        container_items(level_bytes@, container_guid_le@) is Some,
    ensures
        items_view(r@) == container_items(level_bytes@, container_guid_le@)->0,
{
    match try_parse_container_items(level_bytes, container_guid_le) {
        Some(v) => v,
        None => Vec::new(),
    }
}


/// Bit patterns of the three little-endian `f64` components of a vector at `off`;
/// zeros when the vector is cut off.
pub open spec fn vector_bits(s: Seq<u8>, off: int) -> (nat, nat, nat) {
    if off + 24 <= s.len() {
        (le_u64(s, off), le_u64(s, off + 8), le_u64(s, off + 16))
    } else {
        (0, 0, 0)
    }
}

/// Reads a vector of three `f64` components at `*offset` as their bit patterns, moving
/// past it; zeros (offset unchanged) when it is cut off.
pub fn extract_vector_coords(bytes: &[u8], offset: &mut usize) -> (r: (u64, u64, u64))
    requires
        *old(offset) + 24 <= usize::MAX,
    ensures
        (r.0 as nat, r.1 as nat, r.2 as nat) == vector_bits(bytes@, *old(offset) as int),
        *final(offset) == if *old(offset) + 24 <= bytes@.len() {
            *old(offset) + 24
        } else {
            *old(offset) as int
        },
{
    if *offset + 24 <= bytes.len() {
        let x = read_u64_le(bytes, *offset);
        let y = read_u64_le(bytes, *offset + 8);
        let z = read_u64_le(bytes, *offset + 16);
        *offset = *offset + 24;
        (x, y, z)
    } else {
        (0, 0, 0)
    }
}

/// The label of a chest: the `MapObjectId` string (a `StrProperty` or `NameProperty`)
/// found in `ss..abs`, else `Chest/Storage`. `None` where it cannot be read.
pub open spec fn chest_label(s: Seq<u8>, ss: int, abs: int) -> Option<Seq<char>> {
    let mo = "MapObjectId\0".spec_bytes();
    match first_match(s, mo, ss, abs - mo.len() + 1) {
        None => Some("Chest/Storage"@),
        Some(m) => match fstring_at(s, m + mo.len()) {
            None => None,
            Some((t, p)) => if t == "StrProperty"@ || t == "NameProperty"@ {
                match fstring_at(s, p + 9) {
                    None => None,
                    Some((ct, _)) => Some(ct),
                }
            } else {
                Some("Chest/Storage"@)
            },
        },
    }
}

/// The location of a chest: the `translation` vector found in `ss..abs + 1000` as bit
/// patterns, zeros when missing or not a `Vector` struct. `None` where the bytes are
/// malformed (the window runs past the buffer, or a read fails).
pub open spec fn chest_coords(s: Seq<u8>, ss: int, abs: int) -> Option<(nat, nat, nat)> {
    let tr = "translation\0".spec_bytes();
    if abs + 1000 > s.len() {
        None
    } else {
        match first_match(s, tr, ss, abs + 1000 - tr.len() + 1) {
            None => Some((0, 0, 0)),
            Some(m) => match fstring_at(s, m + tr.len()) {
                None => None,
                Some((t, p)) => if t == "StructProperty"@ {
                    match fstring_at(s, p + 8) {
                        None => None,
                        Some((st, q)) => if st == "Vector"@ {
                            Some(vector_bits(s, q + 17))
                        } else {
                            Some((0, 0, 0))
                        },
                    }
                } else {
                    Some((0, 0, 0))
                },
            },
        }
    }
}

/// A chest record at an item-container module marker found at `abs`: its `RawData` byte
/// array (within 250 bytes) carries the container GUID after a 4-byte count; the label
/// and location are searched up to 2000 bytes before. Inner `None`: no record here;
/// outer `None`: the bytes are malformed.
pub open spec fn chest_at(s: Seq<u8>, abs: int) -> Option<Option<(Seq<u8>, Seq<char>, (nat, nat, nat))>> {
    let rd = "RawData\0".spec_bytes();
    let end = if abs + 250 < s.len() {
        abs + 250
    } else {
        s.len() as int
    };
    match first_match(s, rd, abs, end - rd.len() + 1) {
        None => Some(None),
        Some(r) => match fstring_at(s, r + rd.len()) {
            None => None,
            Some((t, o)) => if t != "ArrayProperty"@ {
                Some(None)
            } else {
                match fstring_at(s, o + 8) {
                    None => None,
                    Some((et, o2)) => {
                        let o3 = o2 + 1;
                        if et != "ByteProperty"@ || o3 + 20 > s.len() {
                            Some(None)
                        } else {
                            let ss = if abs >= 2000 {
                                abs - 2000
                            } else {
                                0
                            };
                            match chest_label(s, ss, abs) {
                                None => None,
                                Some(ct) => match chest_coords(s, ss, abs) {
                                    None => None,
                                    Some(c) => Some(Some((s.subrange(o3 + 4, o3 + 20), ct, c))),
                                },
                            }
                        }
                    },
                }
            },
        },
    }
}

/// The item-container module marker is not empty.
pub proof fn lemma_container_marker_nonempty()
    ensures
        "EPalMapObjectConcreteModelModuleType::ItemContainer\0".spec_bytes().len() > 0,
{
    reveal_strlit("EPalMapObjectConcreteModelModuleType::ItemContainer\0");
    lemma_nonempty_bytes("EPalMapObjectConcreteModelModuleType::ItemContainer\0");
}

/// Chest records at every item-container module marker from `pos` on, in file order.
pub open spec fn chests_from(s: Seq<u8>, pos: int) -> Option<Seq<(Seq<u8>, Seq<char>, (nat, nat, nat))>>
    decreases s.len() - pos,
{
    let pat = "EPalMapObjectConcreteModelModuleType::ItemContainer\0".spec_bytes();
    match first_match(s, pat, pos, s.len() - pat.len() + 1) {
        None => Some(Seq::empty()),
        Some(abs) => {
            proof {
                lemma_first_match_found(s, pat, pos, s.len() - pat.len() + 1);
                lemma_container_marker_nonempty();
            }
            match chest_at(s, abs) {
                None => None,
                Some(c) => match chests_from(s, abs + pat.len()) {
                    None => None,
                    Some(rest) => Some(
                        match c {
                            Some(x) => seq![x] + rest,
                            None => rest,
                        },
                    ),
                },
            }
        },
    }
}

/// The view of a chest record.
pub open spec fn chest_view(c: ([u8; 16], String, (u64, u64, u64))) -> (Seq<u8>, Seq<char>, (nat, nat, nat)) {
    let (g, t, (x, y, z)) = c;
    (g@, t@, (x as nat, y as nat, z as nat))
}

/// Views of a list of chest records.
pub open spec fn chests_view(v: Seq<([u8; 16], String, (u64, u64, u64))>) -> Seq<(Seq<u8>, Seq<char>, (nat, nat, nat))> {
    v.map_values(|c: ([u8; 16], String, (u64, u64, u64))| chest_view(c))
}

fn try_chest_label(bytes: &[u8], ss: usize, abs: usize) -> (r: Option<String>)
    requires
        bytes@.len() <= isize::MAX,
        ss <= abs <= bytes@.len(),
    ensures
        chest_label(bytes@, ss as int, abs as int) is None ==> r is None,
        chest_label(bytes@, ss as int, abs as int) matches Some(t) ==> r matches Some(rt) && rt@
            == t,
{
    let mo = "MapObjectId\0".as_bytes();
    match find_within(bytes, mo, ss, abs) {
        None => Some("Chest/Storage".to_string()),
        Some(m) => {
            proof {
                lemma_first_match_found(bytes@, mo@, ss as int, abs - mo@.len() + 1);
                lemma_fstring_offset(bytes@, m + mo@.len());
            }
            let mut temp = m + mo.len();
            let t = match try_read_string_at(bytes, &mut temp) {
                None => return None,
                Some(t) => t,
            };
            if text_eq(t.as_str(), "StrProperty") || text_eq(t.as_str(), "NameProperty") {
                temp = temp + 9;
                try_read_string_at(bytes, &mut temp)
            } else {
                Some("Chest/Storage".to_string())
            }
        },
    }
}

fn try_chest_coords(bytes: &[u8], ss: usize, abs: usize) -> (r: Option<(u64, u64, u64)>)
    requires
        bytes@.len() <= isize::MAX,
        ss <= abs <= bytes@.len(),
    ensures
        chest_coords(bytes@, ss as int, abs as int) is None ==> r is None,
        chest_coords(bytes@, ss as int, abs as int) matches Some(c) ==> r matches Some(rc) && (
        rc.0 as nat, rc.1 as nat, rc.2 as nat) == c,
{
    if abs + 1000 > bytes.len() {
        return None;
    }
    let tr = "translation\0".as_bytes();
    match find_within(bytes, tr, ss, abs + 1000) {
        None => Some((0, 0, 0)),
        Some(m) => {
            proof {
                lemma_first_match_found(bytes@, tr@, ss as int, abs + 1000 - tr@.len() + 1);
                lemma_fstring_offset(bytes@, m + tr@.len());
            }
            let mut temp = m + tr.len();
            let t = match try_read_string_at(bytes, &mut temp) {
                None => return None,
                Some(t) => t,
            };
            if !text_eq(t.as_str(), "StructProperty") {
                return Some((0, 0, 0));
            }
            temp = temp + 8;
            proof {
                lemma_fstring_offset(bytes@, temp as int);
            }
            let st = match try_read_string_at(bytes, &mut temp) {
                None => return None,
                Some(t) => t,
            };
            if !text_eq(st.as_str(), "Vector") {
                return Some((0, 0, 0));
            }
            temp = temp + 17;
            Some(extract_vector_coords(bytes, &mut temp))
        },
    }
}

fn try_chest_at(bytes: &[u8], abs: usize) -> (r: Option<Option<([u8; 16], String, (u64, u64, u64))>>)
    requires
        bytes@.len() <= isize::MAX,
        abs <= bytes@.len(),
    ensures
        chest_at(bytes@, abs as int) is None ==> r is None,
        chest_at(bytes@, abs as int) matches Some(None) ==> r matches Some(None),
        chest_at(bytes@, abs as int) matches Some(Some(c)) ==> r matches Some(Some(rc))
            && chest_view(rc) == c,
{
    let rd = "RawData\0".as_bytes();
    let end = if abs + 250 < bytes.len() {
        abs + 250
    } else {
        bytes.len()
    };
    let r = match find_within(bytes, rd, abs, end) {
        None => return Some(None),
        Some(r) => r,
    };
    proof {
        lemma_first_match_found(bytes@, rd@, abs as int, end - rd@.len() + 1);
        lemma_fstring_offset(bytes@, r + rd@.len());
    }
    let mut offset = r + rd.len();
    let t = match try_read_string_at(bytes, &mut offset) {
        None => return None,
        Some(t) => t,
    };
    if !text_eq(t.as_str(), "ArrayProperty") {
        return Some(None);
    }
    offset = offset + 8;
    proof {
        lemma_fstring_offset(bytes@, offset as int);
    }
    let et = match try_read_string_at(bytes, &mut offset) {
        None => return None,
        Some(t) => t,
    };
    offset = offset + 1;
    if !text_eq(et.as_str(), "ByteProperty") || offset + 20 > bytes.len() {
        return Some(None);
    }
    let g = guid_bytes_at(bytes, offset + 4);
    let ss = if abs >= 2000 {
        abs - 2000
    } else {
        0
    };
    let ct = match try_chest_label(bytes, ss, abs) {
        None => return None,
        Some(c) => c,
    };
    let coords = match try_chest_coords(bytes, ss, abs) {
        None => return None,
        Some(c) => c,
    };
    Some(Some((g, ct, coords)))
}

/// Storage chests in file order (see `chests_from`), `None` where the bytes are malformed.
#[verifier::rlimit(40)]
pub fn try_find_chest_containers(level_bytes: &[u8]) -> (r: Option<Vec<([u8; 16], String, (u64, u64, u64))>>)
    requires
        level_bytes@.len() <= isize::MAX,
    ensures
        chests_from(level_bytes@, 0) is None ==> r is None,
        chests_from(level_bytes@, 0) matches Some(k) ==> r is Some && chests_view(r->0@) == k,
{
    let pat = "EPalMapObjectConcreteModelModuleType::ItemContainer\0".as_bytes();
    let mut results: Vec<([u8; 16], String, (u64, u64, u64))> = Vec::new();
    let ghost total = chests_from(level_bytes@, 0);
    let mut pos: usize = 0;
    assert(chests_view(results@) + chests_from(level_bytes@, 0)->0 =~= chests_from(
        level_bytes@,
        0,
    )->0);
    loop
        invariant
            level_bytes@.len() <= isize::MAX,
            pat@ == "EPalMapObjectConcreteModelModuleType::ItemContainer\0".spec_bytes(),
            pos <= level_bytes@.len(),
            total == chests_from(level_bytes@, 0),
            chests_from(level_bytes@, pos as int) matches Some(rest) ==> total == Some(
                chests_view(results@) + rest,
            ),
            chests_from(level_bytes@, pos as int) is None ==> total is None,
        decreases level_bytes@.len() - pos,
    {
        let abs = match find_within(level_bytes, pat, pos, level_bytes.len()) {
            None => {
                assert(chests_view(results@) + Seq::empty() =~= chests_view(results@));
                return Some(results);
            },
            Some(a) => a,
        };
        proof {
            lemma_first_match_found(
                level_bytes@,
                pat@,
                pos as int,
                level_bytes@.len() - pat@.len() + 1,
            );
            lemma_container_marker_nonempty();
        }
        let ghost before = results@;
        let c = match try_chest_at(level_bytes, abs) {
            None => return None,
            Some(c) => c,
        };
        let ghost cv = chest_at(level_bytes@, abs as int)->0;
        match c {
            Some(x) => {
                results.push(x);
            },
            None => {},
        }
        pos = abs + pat.len();
        proof {
            match chests_from(level_bytes@, pos as int) {
                Some(rest) => {
                    match cv {
                        Some(x) => {
                            assert(chests_view(results@) =~= chests_view(before) + seq![x]);
                            assert(chests_view(before) + (seq![x] + rest) =~= chests_view(
                                results@,
                            ) + rest);
                        },
                        None => {
                            assert(chests_view(results@) =~= chests_view(before));
                        },
                    }
                },
                None => {},
            }
        }
    }
}

/// Storage chests in file order: for each item-container module marker whose `RawData`
/// byte array lies within 250 bytes, the container GUID, the chest label and the raw
/// location components.
pub fn find_chest_containers(level_bytes: &[u8]) -> (r: Vec<([u8; 16], String, (u64, u64, u64))>)
    requires
        level_bytes@.len() <= isize::MAX,
        chests_from(level_bytes@, 0) is Some,
    ensures
        chests_view(r@) == chests_from(level_bytes@, 0)->0,
{
    match try_find_chest_containers(level_bytes) {
        Some(v) => v,
        None => Vec::new(),
    }
}


/// `s` with the bytes in `a..b` set to zero.
pub open spec fn zeroed(s: Seq<u8>, a: int, b: int) -> Seq<u8> {
    Seq::new(s.len(), |i: int| if a <= i < b { 0u8 } else { s[i] })
}

/// The `RawData` marker is not empty.
pub proof fn lemma_raw_marker_nonempty()
    ensures
        "RawData\0".spec_bytes().len() > 0,
{
    reveal_strlit("RawData\0");
    lemma_nonempty_bytes("RawData\0");
}

/// A seed stack at the `RawData` marker found at `abs`: a byte array whose slot payload
/// (at least 12 bytes) holds a positive count and a valid UTF-8 id of 1 to 99 bytes
/// (NUL included) whose lowercase form contains `seed`. Gives the id and count, and the
/// buffer with the count, id length and id zeroed. Inner `None`: no seed stack here;
/// outer `None`: the bytes are malformed.
pub open spec fn seed_at(s: Seq<u8>, abs: int) -> Option<Option<((Seq<char>, nat), Seq<u8>)>> {
    let off = abs + "RawData\0".spec_bytes().len();
    if off >= s.len() {
        Some(None)
    } else {
        match fstring_at(s, off) {
            None => None,
            Some((t, o)) => if t != "ArrayProperty"@ {
                Some(None)
            } else {
                match fstring_at(s, o + 8) {
                    None => None,
                    Some((et, o2)) => {
                        let o3 = o2 + 1;
                        if et != "ByteProperty"@ || o3 + 4 > s.len() {
                            Some(None)
                        } else {
                            let count = le_u32(s, o3);
                            let rs = o3 + 4;
                            if rs + count > usize::MAX {
                                None
                            } else if rs + count > s.len() || count < 12 {
                                Some(None)
                            } else {
                                let stack = le_u32(s, rs + 4);
                                let idl = le_u32(s, rs + 8);
                                if idl == 0 || idl >= 100 || rs + 12 + idl > s.len() {
                                    Some(None)
                                } else {
                                    let idb = s.subrange(rs + 12, rs + 12 + idl - 1);
                                    if valid_utf8(idb) && has_sub(
                                        lowercase(decode_utf8(idb)),
                                        "seed"@,
                                    ) && stack > 0 {
                                        Some(
                                            Some(
                                                (
                                                    (decode_utf8(idb), stack),
                                                    zeroed(s, rs + 4, rs + 12 + idl),
                                                ),
                                            ),
                                        )
                                    } else {
                                        Some(None)
                                    }
                                }
                            }
                        }
                    },
                }
            },
        }
    }
}

/// Clearing a seed stack keeps the buffer's length.
pub proof fn lemma_seed_keeps_len(s: Seq<u8>, abs: int)
    ensures
        seed_at(s, abs) matches Some(Some((_, s2))) ==> s2.len() == s.len(),
{
}

/// Seed stacks cleared by scanning every `RawData` marker from `pos` on, each search
/// running over the buffer as already cleared. Gives the cleared stacks in order and the
/// final buffer.
pub open spec fn seeds_from(s: Seq<u8>, pos: int) -> Option<(Seq<(Seq<char>, nat)>, Seq<u8>)>
    decreases s.len() - pos,
{
    let rd = "RawData\0".spec_bytes();
    match first_match(s, rd, pos, s.len() - rd.len() + 1) {
        None => Some((Seq::empty(), s)),
        Some(abs) => {
            proof {
                lemma_first_match_found(s, rd, pos, s.len() - rd.len() + 1);
                lemma_raw_marker_nonempty();
            }
            match seed_at(s, abs) {
                None => None,
                Some(None) => match seeds_from(s, abs + rd.len()) {
                    None => None,
                    Some((rest, fin)) => Some((rest, fin)),
                },
                Some(Some((e, s2))) => {
                    proof {
                        lemma_seed_keeps_len(s, abs);
                    }
                    match seeds_from(s2, abs + rd.len()) {
                        None => None,
                        Some((rest, fin)) => Some((seq![e] + rest, fin)),
                    }
                },
            }
        },
    }
}

/// Clearing seed stacks only sets bytes to zero: the buffer keeps its length, every
/// byte stays as it was or becomes zero, and a scan that clears nothing leaves the
/// buffer as it was.
pub proof fn lemma_seeds_only_clear(s: Seq<u8>, pos: int)
    ensures
        seeds_from(s, pos) matches Some((cleared, fin)) ==> {
            &&& fin.len() == s.len()
            &&& forall|i: int| 0 <= i < s.len() ==> fin[i] == s[i] || fin[i] == 0
            &&& cleared.len() == 0 ==> fin == s
        },
    decreases s.len() - pos,
{
    let rd = "RawData\0".spec_bytes();
    match first_match(s, rd, pos, s.len() - rd.len() + 1) {
        None => {},
        Some(abs) => {
            lemma_first_match_found(s, rd, pos, s.len() - rd.len() + 1);
            lemma_raw_marker_nonempty();
            match seed_at(s, abs) {
                None => {},
                Some(None) => {
                    lemma_seeds_only_clear(s, abs + rd.len());
                },
                Some(Some((e, s2))) => {
                    lemma_seed_keeps_len(s, abs);
                    lemma_seeds_only_clear(s2, abs + rd.len());
                    match seeds_from(s2, abs + rd.len()) {
                        None => {},
                        Some((rest, fin)) => {
                            assert forall|i: int| 0 <= i < s.len() implies fin[i] == s[i] || fin[i]
                                == 0 by {
                                assert(s2[i] == s[i] || s2[i] == 0);
                            }
                        },
                    }
                },
            }
        },
    }
}

/// A string read sees only the buffer's length and the bytes it reads: a buffer of the
/// same length that agrees with it before `lim` reads the same string where the read
/// ends by `lim`.
proof fn lemma_fstring_same(s: Seq<u8>, t: Seq<u8>, off: int, lim: int)
    requires
        s.len() == t.len(),
        0 <= off,
        lim <= s.len(),
        forall|i: int| 0 <= i < lim ==> s[i] == t[i],
        fstring_at(s, off) matches Some((_, o)) && o <= lim,
    ensures
        fstring_at(t, off) == fstring_at(s, off),
{
    if off + 4 <= s.len() {
        let n = as_i32(le_u32(s, off));
        let o = off + 4;
        assert(le_u32(t, off) == le_u32(s, off)) by {
            assert(s[off] == t[off] && s[off + 1] == t[off + 1] && s[off + 2] == t[off + 2] && s[off
                + 3] == t[off + 3]);
        }
        if n > 0 && o + n <= s.len() {
            assert(s.subrange(o, o + n) =~= t.subrange(o, o + n));
        } else if n < 0 && n != -0x8000_0000 && o + (-n) * 2 <= s.len() {
            assert(s.subrange(o, o + (-n) * 2) =~= t.subrange(o, o + (-n) * 2));
        }
    }
}

/// A seed stack, once cleared, is no longer a seed stack: the record keeps its headers and
/// now holds an empty id.
pub proof fn lemma_cleared_stack_not_seed(s: Seq<u8>, abs: int)
    requires
        0 <= abs,
    ensures
        seed_at(s, abs) matches Some(Some((e, s2))) ==> seed_at(s2, abs) == Some(
            None::<((Seq<char>, nat), Seq<u8>)>,
        ) && has_sub(lowercase(e.0), "seed"@) && e.1 > 0,
{
    if let Some(Some((e, s2))) = seed_at(s, abs) {
        let off = abs + "RawData\0".spec_bytes().len();
        let (t, o) = fstring_at(s, off)->0;
        let (et, o2) = fstring_at(s, o + 8)->0;
        let o3 = o2 + 1;
        let rs = o3 + 4;
        let idl = le_u32(s, rs + 8);
        lemma_fstring_offset(s, off);
        lemma_fstring_offset(s, o + 8);
        assert(forall|i: int| 0 <= i < rs + 4 ==> s[i] == s2[i]);
        lemma_fstring_same(s, s2, off, rs + 4);
        lemma_fstring_same(s, s2, o + 8, rs + 4);
        assert(le_u32(s2, o3) == le_u32(s, o3)) by {
            assert(s[o3] == s2[o3] && s[o3 + 1] == s2[o3 + 1] && s[o3 + 2] == s2[o3 + 2] && s[o3
                + 3] == s2[o3 + 3]);
        }
        assert(le_u32(s2, rs + 8) == 0) by {
            assert(s2[rs + 8] == 0 && s2[rs + 9] == 0 && s2[rs + 10] == 0 && s2[rs + 11] == 0);
        }
    }
}

/// Every stack a scan clears is a seed stack: its lowercase id contains `seed` and its
/// count is positive.
pub proof fn lemma_cleared_are_seeds(s: Seq<u8>, pos: int)
    ensures
        seeds_from(s, pos) matches Some((cleared, _)) ==> forall|k: int|
            0 <= k < cleared.len() ==> has_sub(lowercase(#[trigger] cleared[k].0), "seed"@)
                && cleared[k].1 > 0,
    decreases s.len() - pos,
{
    let rd = "RawData\0".spec_bytes();
    match first_match(s, rd, pos, s.len() - rd.len() + 1) {
        None => {},
        Some(abs) => {
            lemma_first_match_found(s, rd, pos, s.len() - rd.len() + 1);
            lemma_raw_marker_nonempty();
            match seed_at(s, abs) {
                None => {},
                Some(None) => {
                    lemma_seeds_only_clear(s, abs + rd.len());
                    lemma_cleared_are_seeds(s, abs + rd.len());
                },
                Some(Some((e, s2))) => {
                    lemma_seed_keeps_len(s, abs);
                    lemma_cleared_stack_not_seed(s, abs);
                    lemma_cleared_are_seeds(s2, abs + rd.len());
                    match seeds_from(s2, abs + rd.len()) {
                        None => {},
                        Some((rest, fin)) => {
                            let c = seq![e] + rest;
                            assert forall|k: int| 0 <= k < c.len() implies has_sub(
                                lowercase(#[trigger] c[k].0),
                                "seed"@,
                            ) && c[k].1 > 0 by {
                                if k > 0 {
                                    assert(c[k] == rest[k - 1]);
                                }
                            }
                        },
                    }
                },
            }
        },
    }
}

/// Where the search for the next `RawData` marker from `pos` stops mattering: the end of
/// the first marker found from `pos` on, or the end of the buffer when there is none.
pub open spec fn marker_bound(s: Seq<u8>, pos: int) -> int {
    let rd = "RawData\0".spec_bytes();
    match first_match(s, rd, pos, s.len() - rd.len() + 1) {
        Some(m) => m + rd.len(),
        None => s.len() as int,
    }
}

/// The end of the bytes that `seed_at` reads for the marker at `abs`: the record's
/// property name and type, its element type, its byte count, its slot header and its id,
/// as far as the record is read before a decision is made.
pub open spec fn record_end(s: Seq<u8>, abs: int) -> int {
    let off = abs + "RawData\0".spec_bytes().len();
    if off >= s.len() {
        off
    } else {
        match fstring_at(s, off) {
            None => off,
            Some((t, o)) => if t != "ArrayProperty"@ {
                o
            } else {
                match fstring_at(s, o + 8) {
                    None => o + 8,
                    Some((et, o2)) => {
                        let o3 = o2 + 1;
                        if et != "ByteProperty"@ || o3 + 4 > s.len() {
                            o2
                        } else {
                            let count = le_u32(s, o3);
                            let rs = o3 + 4;
                            if rs + count > s.len() || count < 12 {
                                rs
                            } else {
                                let idl = le_u32(s, rs + 8);
                                if idl == 0 || idl >= 100 || rs + 12 + idl > s.len() {
                                    rs + 12
                                } else {
                                    rs + 12 + idl
                                }
                            }
                        }
                    },
                }
            },
        }
    }
}

/// Every record that a seed scan from `pos` reads ends at or before the next `RawData`
/// marker that the scan goes on to find (in the buffer as cleared so far): no record
/// overlaps the next one.
pub open spec fn separated_from(s: Seq<u8>, pos: int) -> bool
    decreases s.len() - pos,
{
    let rd = "RawData\0".spec_bytes();
    match first_match(s, rd, pos, s.len() - rd.len() + 1) {
        None => true,
        Some(abs) => {
            proof {
                lemma_first_match_found(s, rd, pos, s.len() - rd.len() + 1);
                lemma_raw_marker_nonempty();
            }
            match seed_at(s, abs) {
                None => true,
                Some(None) => record_end(s, abs) <= marker_bound(s, abs + rd.len())
                    && separated_from(s, abs + rd.len()),
                Some(Some((e, s2))) => {
                    proof {
                        lemma_seed_keeps_len(s, abs);
                    }
                    record_end(s2, abs) <= marker_bound(s2, abs + rd.len()) && separated_from(
                        s2,
                        abs + rd.len(),
                    )
                },
            }
        },
    }
}

/// Clearing a seed stack leaves the marker and everything before the record untouched.
proof fn lemma_seed_clears_after(s: Seq<u8>, abs: int)
    requires
        0 <= abs,
    ensures
        seed_at(s, abs) matches Some(Some((_, s2))) ==> s2.len() == s.len() && forall|i: int|
            0 <= i < s.len() && i < abs + "RawData\0".spec_bytes().len() ==> s2[i] == s[i],
{
    if let Some(Some((e, s2))) = seed_at(s, abs) {
        let off = abs + "RawData\0".spec_bytes().len();
        let (t, o) = fstring_at(s, off)->0;
        lemma_fstring_offset(s, off);
        lemma_fstring_offset(s, o + 8);
    }
}

/// The first marker found from `lo` is found again in a buffer of the same length that
/// agrees with this one from `lo` to the end of that marker.
proof fn lemma_first_match_same(s: Seq<u8>, t: Seq<u8>, pat: Seq<u8>, lo: int, hi: int)
    requires
        s.len() == t.len(),
        0 <= lo,
        first_match(s, pat, lo, hi) matches Some(m) && forall|i: int|
            lo <= i < m + pat.len() && i < s.len() ==> s[i] == t[i],
    ensures
        first_match(t, pat, lo, hi) == first_match(s, pat, lo, hi),
    decreases hi - lo,
{
    lemma_first_match_found(s, pat, lo, hi);
    let m = first_match(s, pat, lo, hi)->0;
    if lo < m {
        if matches_at(t, lo, pat) {
            assert(matches_at(s, lo, pat)) by {
                assert forall|k: int| 0 <= k < pat.len() implies s[lo + k] == pat[k] by {
                    assert(t[lo + k] == pat[k]);
                }
            }
        }
        lemma_first_match_same(s, t, pat, lo + 1, hi);
    } else {
        assert(matches_at(t, lo, pat)) by {
            assert forall|k: int| 0 <= k < pat.len() implies t[lo + k] == pat[k] by {
                assert(s[lo + k] == pat[k]);
            }
        }
    }
}

/// A scan from `pos` changes nothing before the end of the first marker it finds.
proof fn lemma_seeds_keep_prefix(s: Seq<u8>, pos: int)
    requires
        0 <= pos,
    ensures
        seeds_from(s, pos) matches Some((_, fin)) ==> forall|i: int|
            0 <= i < s.len() && i < marker_bound(s, pos) ==> fin[i] == s[i],
    decreases s.len() - pos,
{
    let rd = "RawData\0".spec_bytes();
    match first_match(s, rd, pos, s.len() - rd.len() + 1) {
        None => {},
        Some(abs) => {
            lemma_first_match_found(s, rd, pos, s.len() - rd.len() + 1);
            lemma_raw_marker_nonempty();
            let p = abs + rd.len();
            match seed_at(s, abs) {
                None => {},
                Some(None) => {
                    lemma_seeds_keep_prefix(s, p);
                    lemma_first_match_found(s, rd, p, s.len() - rd.len() + 1);
                },
                Some(Some((e, s2))) => {
                    lemma_seed_clears_after(s, abs);
                    lemma_seeds_keep_prefix(s2, p);
                    lemma_first_match_found(s2, rd, p, s2.len() - rd.len() + 1);
                },
            }
        },
    }
}

/// `seed_at` sees only the buffer's length and the bytes of the record: where it finds no
/// seed stack, it finds none in a buffer of the same length that agrees with this one
/// up to the record's end.
proof fn lemma_no_seed_frame(s: Seq<u8>, t: Seq<u8>, abs: int)
    requires
        0 <= abs,
        s.len() == t.len(),
        seed_at(s, abs) == Some(None::<((Seq<char>, nat), Seq<u8>)>),
        forall|i: int| 0 <= i < s.len() && i < record_end(s, abs) ==> s[i] == t[i],
    ensures
        seed_at(t, abs) == Some(None::<((Seq<char>, nat), Seq<u8>)>),
{
    let off = abs + "RawData\0".spec_bytes().len();
    let end = record_end(s, abs);
    let lim = if end < s.len() {
        end
    } else {
        s.len() as int
    };
    if off < s.len() {
        lemma_fstring_offset(s, off);
        let (t1, o) = fstring_at(s, off)->0;
        lemma_fstring_same(s, t, off, lim);
        if t1 == "ArrayProperty"@ {
            lemma_fstring_offset(s, o + 8);
            let (et, o2) = fstring_at(s, o + 8)->0;
            if o + 8 + 4 <= s.len() {
                lemma_fstring_same(s, t, o + 8, lim);
            }
            let o3 = o2 + 1;
            if et == "ByteProperty"@ && o3 + 4 <= s.len() {
                assert(le_u32(t, o3) == le_u32(s, o3)) by {
                    assert(s[o3] == t[o3] && s[o3 + 1] == t[o3 + 1] && s[o3 + 2] == t[o3 + 2]
                        && s[o3 + 3] == t[o3 + 3]);
                }
                let count = le_u32(s, o3);
                let rs = o3 + 4;
                if rs + count <= s.len() && count >= 12 {
                    assert(le_u32(t, rs + 4) == le_u32(s, rs + 4)) by {
                        assert(s[rs + 4] == t[rs + 4] && s[rs + 5] == t[rs + 5] && s[rs + 6]
                            == t[rs + 6] && s[rs + 7] == t[rs + 7]);
                    }
                    assert(le_u32(t, rs + 8) == le_u32(s, rs + 8)) by {
                        assert(s[rs + 8] == t[rs + 8] && s[rs + 9] == t[rs + 9] && s[rs + 10]
                            == t[rs + 10] && s[rs + 11] == t[rs + 11]);
                    }
                    let idl = le_u32(s, rs + 8);
                    if idl != 0 && idl < 100 && rs + 12 + idl <= s.len() {
                        assert(s.subrange(rs + 12, rs + 12 + idl - 1) =~= t.subrange(
                            rs + 12,
                            rs + 12 + idl - 1,
                        ));
                    }
                }
            }
        }
    }
}

/// One step of a second scan: the marker at `abs` is the first one found from `pos` in
/// both `s` and `fin`, and the record there holds no seed stack in `fin`, so the scan of
/// `fin` from `pos` comes down to its scan from past that marker.
proof fn lemma_second_scan_step(s: Seq<u8>, cur: Seq<u8>, fin: Seq<u8>, pos: int, abs: int)
    requires
        0 <= pos,
        cur.len() == s.len(),
        fin.len() == s.len(),
        first_match(s, "RawData\0".spec_bytes(), pos, s.len() - "RawData\0".spec_bytes().len()
            + 1) == Some(abs),
        pos <= abs,
        seed_at(cur, abs) == Some(None::<((Seq<char>, nat), Seq<u8>)>),
        forall|i: int|
            0 <= i < s.len() && i < abs + "RawData\0".spec_bytes().len() ==> cur[i] == s[i],
        record_end(cur, abs) <= marker_bound(cur, abs + "RawData\0".spec_bytes().len()),
        abs + "RawData\0".spec_bytes().len() <= marker_bound(
            cur,
            abs + "RawData\0".spec_bytes().len(),
        ),
        forall|i: int|
            0 <= i < s.len() && i < marker_bound(cur, abs + "RawData\0".spec_bytes().len())
                ==> fin[i] == cur[i],
        seeds_from(fin, abs + "RawData\0".spec_bytes().len()) == Some(
            (Seq::<(Seq<char>, nat)>::empty(), fin),
        ),
    ensures
        seeds_from(fin, pos) == Some((Seq::<(Seq<char>, nat)>::empty(), fin)),
{
    let rd = "RawData\0".spec_bytes();
    lemma_first_match_same(s, fin, rd, pos, s.len() - rd.len() + 1);
    lemma_no_seed_frame(cur, fin, abs);
}

/// Cleaning seeds is idempotent: where no record overlaps the next, a second scan of the
/// cleaned buffer finds no seed stack and leaves the buffer as it is.
pub proof fn lemma_clean_seeds_twice(s: Seq<u8>, pos: int)
    requires
        0 <= pos,
        separated_from(s, pos),
    ensures
        seeds_from(s, pos) matches Some((_, fin)) ==> seeds_from(fin, pos) == Some(
            (Seq::<(Seq<char>, nat)>::empty(), fin),
        ),
    decreases s.len() - pos,
{
    let rd = "RawData\0".spec_bytes();
    match first_match(s, rd, pos, s.len() - rd.len() + 1) {
        None => {},
        Some(abs) => {
            lemma_first_match_found(s, rd, pos, s.len() - rd.len() + 1);
            lemma_raw_marker_nonempty();
            let p = abs + rd.len();
            match seed_at(s, abs) {
                None => {},
                Some(None) => {
                    lemma_clean_seeds_twice(s, p);
                    lemma_seeds_only_clear(s, p);
                    lemma_seeds_keep_prefix(s, p);
                    lemma_first_match_found(s, rd, p, s.len() - rd.len() + 1);
                    if let Some((rest, fin)) = seeds_from(s, p) {
                        lemma_second_scan_step(s, s, fin, pos, abs);
                    }
                },
                Some(Some((e, s2))) => {
                    lemma_seed_keeps_len(s, abs);
                    lemma_seed_clears_after(s, abs);
                    lemma_cleared_stack_not_seed(s, abs);
                    lemma_clean_seeds_twice(s2, p);
                    lemma_seeds_only_clear(s2, p);
                    lemma_seeds_keep_prefix(s2, p);
                    lemma_first_match_found(s2, rd, p, s2.len() - rd.len() + 1);
                    if let Some((rest, fin)) = seeds_from(s2, p) {
                        lemma_second_scan_step(s, s2, fin, pos, abs);
                    }
                },
            }
        },
    }
}

/// Views of `(id, count)` pairs.
pub open spec fn stacks_view(v: Seq<(String, u32)>) -> Seq<(Seq<char>, nat)> {
    v.map_values(|e: (String, u32)| (e.0@, e.1 as nat))
}

fn zero_range(bytes: &mut [u8], a: usize, b: usize)
    requires
        a <= b <= old(bytes)@.len(),
    ensures
        final(bytes)@ == zeroed(old(bytes)@, a as int, b as int),
{
    let mut i = a;
    while i < b
        invariant
            a <= i <= b <= bytes@.len(),
            bytes@.len() == old(bytes)@.len(),
            forall|k: int| 0 <= k < bytes@.len() ==> #[trigger] bytes@[k] == (if a <= k < i {
                0u8
            } else {
                old(bytes)@[k]
            }),
        decreases b - i,
    {
        bytes[i] = 0;
        i = i + 1;
    }
    assert(bytes@ =~= zeroed(old(bytes)@, a as int, b as int));
}

fn try_seed_at(bytes: &mut [u8], abs: usize) -> (r: Option<Option<(String, u32)>>)
    requires
        old(bytes)@.len() <= isize::MAX,
        abs + "RawData\0".spec_bytes().len() <= old(bytes)@.len(),
    ensures
        seed_at(old(bytes)@, abs as int) is None ==> r is None,
        seed_at(old(bytes)@, abs as int) matches Some(None) ==> r matches Some(None) && final(bytes)@ == old(bytes)@,
        seed_at(old(bytes)@, abs as int) matches Some(Some((e, s2))) ==> r matches Some(
            Some(re),
        ) && (re.0@, re.1 as nat) == e && final(bytes)@ == s2,
{
    let mut offset = abs + "RawData\0".as_bytes().len();
    if offset >= bytes.len() {
        return Some(None);
    }
    proof {
        lemma_fstring_offset(bytes@, offset as int);
    }
    let t = match try_read_string_at(bytes, &mut offset) {
        None => return None,
        Some(t) => t,
    };
    if !text_eq(t.as_str(), "ArrayProperty") {
        return Some(None);
    }
    offset = offset + 8;
    proof {
        lemma_fstring_offset(bytes@, offset as int);
    }
    let et = match try_read_string_at(bytes, &mut offset) {
        None => return None,
        Some(t) => t,
    };
    offset = offset + 1;
    if !text_eq(et.as_str(), "ByteProperty") || offset + 4 > bytes.len() {
        return Some(None);
    }
    let count = read_u32_le(bytes, offset) as usize;
    let rs = offset + 4;
    if rs > usize::MAX - count {
        return None;
    }
    if rs + count > bytes.len() || count < 12 {
        return Some(None);
    }
    let stack = read_u32_le(bytes, rs + 4);
    let idl = read_u32_le(bytes, rs + 8) as usize;
    if idl == 0 || idl >= 100 || rs + 12 + idl > bytes.len() {
        return Some(None);
    }
    let item_id = match utf8_text(slice_range(bytes, rs + 12, rs + 12 + idl - 1)) {
        None => return Some(None),
        Some(t) => t,
    };
    let lower = to_lowercase(item_id.as_str());
    if text_contains(lower.as_str(), "seed") && stack > 0 {
        zero_range(bytes, rs + 4, rs + 12 + idl);
        Some(Some((item_id, stack)))
    } else {
        Some(None)
    }
}

/// Clears seed stacks (see `seeds_from`), `None` where the bytes are malformed.
pub fn try_clean_seeds_in_bytes(bytes: &mut [u8]) -> (r: Option<Vec<(String, u32)>>)
    requires
        old(bytes)@.len() <= isize::MAX,
    ensures
        seeds_from(old(bytes)@, 0) is None ==> r is None,
        seeds_from(old(bytes)@, 0) matches Some((k, fin)) ==> r is Some && stacks_view(r->0@)
            == k && final(bytes)@ == fin,
{
    let rd = "RawData\0".as_bytes();
    let mut cleaned: Vec<(String, u32)> = Vec::new();
    let ghost total = seeds_from(bytes@, 0);
    let mut pos: usize = 0;
    assert(stacks_view(cleaned@) =~= Seq::empty());
    loop
        invariant
            bytes@.len() == old(bytes)@.len(),
            old(bytes)@.len() <= isize::MAX,
            rd@ == "RawData\0".spec_bytes(),
            pos <= bytes@.len(),
            total == seeds_from(old(bytes)@, 0),
            seeds_from(bytes@, pos as int) matches Some((rest, fin)) ==> total == Some(
                (stacks_view(cleaned@) + rest, fin),
            ),
            seeds_from(bytes@, pos as int) is None ==> total is None,
        decreases bytes@.len() - pos,
    {
        let abs = match find_within(bytes, rd, pos, bytes.len()) {
            None => {
                assert(stacks_view(cleaned@) + Seq::empty() =~= stacks_view(cleaned@));
                return Some(cleaned);
            },
            Some(a) => a,
        };
        proof {
            lemma_first_match_found(bytes@, rd@, pos as int, bytes@.len() - rd@.len() + 1);
            lemma_raw_marker_nonempty();
        }
        let ghost before = cleaned@;
        let ghost s0 = bytes@;
        match try_seed_at(bytes, abs) {
            None => return None,
            Some(None) => {},
            Some(Some(e)) => {
                cleaned.push(e);
            },
        }
        pos = abs + rd.len();
        proof {
            match seed_at(s0, abs as int) {
                Some(Some((e, s2))) => {
                    match seeds_from(s2, pos as int) {
                        Some((rest, fin)) => {
                            assert(stacks_view(cleaned@) =~= stacks_view(before) + seq![e]);
                            assert(stacks_view(before) + (seq![e] + rest) =~= stacks_view(
                                cleaned@,
                            ) + rest);
                        },
                        None => {},
                    }
                },
                _ => {},
            }
        }
    }
}

/// Clears every seed stack in the buffer: for each `RawData` byte array holding an item
/// whose id contains `seed` (case-insensitively) and a positive count, zeroes its count,
/// id length and id, and reports the id and count in order.
pub fn clean_seeds_in_bytes(bytes: &mut [u8]) -> (r: Vec<(String, u32)>)
    requires
        old(bytes)@.len() <= isize::MAX,
        seeds_from(old(bytes)@, 0) is Some,
    ensures
        seeds_from(old(bytes)@, 0) matches Some((k, fin)) && stacks_view(r@) == k && final(bytes)@ == fin,
{
    match try_clean_seeds_in_bytes(bytes) {
        Some(v) => v,
        None => Vec::new(),
    }
}


/// The text of the all-zero GUID.
pub open spec fn zero_guid() -> Seq<char> {
    "00000000-0000-0000-0000-000000000000"@
}

/// The bytes around a guild marker at `pos`: from 500 bytes before it (or the start) to
/// 4000 bytes after it (or the end).
pub open spec fn guild_window(s: Seq<u8>, pos: int) -> Seq<u8> {
    let ws = if pos >= 500 {
        pos - 500
    } else {
        0
    };
    let we = if pos + 4000 < s.len() {
        pos + 4000
    } else {
        s.len() as int
    };
    s.subrange(ws, we)
}

/// Property names tried, in order, for a guild's name.
pub open spec fn name_pats() -> Seq<Seq<u8>> {
    seq![
        "guild_name\0".spec_bytes(),
        "GuildName\0".spec_bytes(),
        "GroupName\0".spec_bytes(),
        "group_name\0".spec_bytes(),
    ]
}

/// Property names tried, in order, for a guild's administrator.
pub open spec fn admin_pats() -> Seq<Seq<u8>> {
    seq![
        "admin_player_uid\0".spec_bytes(),
        "AdminPlayerUId\0".spec_bytes(),
        "OwnerPlayerUId\0".spec_bytes(),
    ]
}

fn name_pat(k: usize) -> (r: &'static [u8])
    requires
        k < 4,
    ensures
        r@ == name_pats()[k as int],
{
    if k == 0 {
        "guild_name\0".as_bytes()
    } else if k == 1 {
        "GuildName\0".as_bytes()
    } else if k == 2 {
        "GroupName\0".as_bytes()
    } else {
        "group_name\0".as_bytes()
    }
}

fn admin_pat(k: usize) -> (r: &'static [u8])
    requires
        k < 3,
    ensures
        r@ == admin_pats()[k as int],
{
    if k == 0 {
        "admin_player_uid\0".as_bytes()
    } else if k == 1 {
        "AdminPlayerUId\0".as_bytes()
    } else {
        "OwnerPlayerUId\0".as_bytes()
    }
}

/// The guild name: the first non-empty string property among `name_pats()` from `k` on
/// found in the window, else `Default Guild`. `None` where one cannot be read.
pub open spec fn guild_name_from(w: Seq<u8>, k: int) -> Option<Seq<char>>
    decreases 4 - k,
{
    if k < 0 || k >= 4 {
        Some("Default Guild"@)
    } else {
        match pattern_from(w, name_pats()[k], 0) {
            None => guild_name_from(w, k + 1),
            Some(np) => match string_prop(w.skip(np), name_pats()[k]) {
                None => None,
                Some(v) => if v.len() > 0 {
                    Some(v)
                } else {
                    guild_name_from(w, k + 1)
                },
            },
        }
    }
}

/// The administrator: the GUID of the first property among `admin_pats()` from `k` on
/// whose GUID is found in the window, else empty.
pub open spec fn guild_admin_from(w: Seq<u8>, k: int) -> Seq<char>
    decreases 3 - k,
{
    if k < 0 || k >= 3 {
        Seq::empty()
    } else {
        match pattern_from(w, admin_pats()[k], 0) {
            None => guild_admin_from(w, k + 1),
            Some(ap) => match guid_bytes_prop(w.skip(ap), admin_pats()[k]) {
                Some(g) => guid_text(g),
                None => guild_admin_from(w, k + 1),
            },
        }
    }
}

/// The non-zero member GUIDs at each occurrence of `pat` in the window from `sp` on (the
/// search resuming 10 bytes after each occurrence), in order, repeats included.
pub open spec fn members_from(w: Seq<u8>, pat: Seq<u8>, sp: int) -> Seq<Seq<char>>
    decreases w.len() + 10 - sp,
{
    if sp < 0 {
        Seq::empty()
    } else {
        match pattern_from(w, pat, sp) {
            None => Seq::empty(),
            Some(mp) => {
                proof {
                    lemma_first_match_found(w, pat, sp, w.len() - pat.len() + 1);
                }
                let rest = members_from(w, pat, mp + 10);
                match guid_bytes_prop(w.skip(mp), pat) {
                    Some(g) => if guid_text(g) != zero_guid() {
                        seq![guid_text(g)] + rest
                    } else {
                        rest
                    },
                    None => rest,
                }
            },
        }
    }
}

/// Inserts a text into a list kept in byte order without repeats (a `BTreeSet` insert).
pub open spec fn insert_sorted(v: Seq<Seq<char>>, x: Seq<char>) -> Seq<Seq<char>>
    decreases v.len(),
{
    if v.len() == 0 {
        seq![x]
    } else if v[0] == x {
        v
    } else if bytes_le(encode_utf8(x), encode_utf8(v[0])) {
        seq![x] + v
    } else {
        seq![v[0]] + insert_sorted(v.drop_first(), x)
    }
}

/// The texts of a list inserted one by one into an empty ordered set.
pub open spec fn sorted_set(l: Seq<Seq<char>>) -> Seq<Seq<char>>
    decreases l.len(),
{
    if l.len() == 0 {
        Seq::empty()
    } else {
        insert_sorted(sorted_set(l.drop_last()), l.last())
    }
}

/// The guild GUID: the `GroupId` found in the window, else the zero GUID.
pub open spec fn guild_id_in(w: Seq<u8>) -> Seq<char> {
    match pattern_from(w, "GroupId\0".spec_bytes(), 0) {
        None => zero_guid(),
        Some(ip) => match guid_bytes_prop(w.skip(ip), "GroupId\0".spec_bytes()) {
            Some(g) => guid_text(g),
            None => zero_guid(),
        },
    }
}

/// One guild read around a marker: id, name, administrator and members (as an ordered
/// set). `None` where the name cannot be read.
pub open spec fn guild_at(s: Seq<u8>, pos: int) -> Option<(Seq<char>, Seq<char>, Seq<char>, Seq<Seq<char>>)> {
    let w = guild_window(s, pos);
    match guild_name_from(w, 0) {
        None => None,
        Some(name) => Some(
            (
                guild_id_in(w),
                name,
                guild_admin_from(w, 0),
                sorted_set(
                    members_from(w, "PlayerUId\0".spec_bytes(), 0) + members_from(
                        w,
                        "player_uid\0".spec_bytes(),
                        0,
                    ),
                ),
            ),
        ),
    }
}

/// The guild marker is not empty.
pub proof fn lemma_guild_marker_nonempty()
    ensures
        "EPalGroupType::Guild\0".spec_bytes().len() > 0,
{
    reveal_strlit("EPalGroupType::Guild\0");
    lemma_nonempty_bytes("EPalGroupType::Guild\0");
}

proof fn lemma_guild_marker_short()
    ensures
        "EPalGroupType::Guild\0".spec_bytes().len() == 21,
{
    reveal_strlit("EPalGroupType::Guild\0");
    reveal_with_fuel(encode_utf8, 22);
}

/// Guilds at every guild marker from `pos` on, in file order.
pub open spec fn guilds_from(s: Seq<u8>, pos: int) -> Option<Seq<(Seq<char>, Seq<char>, Seq<char>, Seq<Seq<char>>)>>
    decreases s.len() - pos,
{
    let pat = "EPalGroupType::Guild\0".spec_bytes();
    if pos < 0 {
        Some(Seq::empty())
    } else {
        match pattern_from(s, pat, pos) {
            None => Some(Seq::empty()),
            Some(p) => {
                proof {
                    lemma_first_match_found(s, pat, pos, s.len() - pat.len() + 1);
                    lemma_guild_marker_nonempty();
                }
                match guild_at(s, p) {
                    None => None,
                    Some(g) => match guilds_from(s, p + pat.len()) {
                        None => None,
                        Some(rest) => Some(seq![g] + rest),
                    },
                }
            },
        }
    }
}

/// A guild as plain values.
#[derive(Debug, Clone)]
pub struct GuildSummary {
    pub guild_id: String,
    pub guild_name: String,
    pub admin_player_uid: String,
    pub members: Vec<String>,
}

/// Text views of a list of strings.
pub open spec fn strings_view(v: Seq<String>) -> Seq<Seq<char>> {
    v.map_values(|x: String| x@)
}

/// The view of a guild.
pub open spec fn guild_view(g: GuildSummary) -> (Seq<char>, Seq<char>, Seq<char>, Seq<Seq<char>>) {
    (g.guild_id@, g.guild_name@, g.admin_player_uid@, strings_view(g.members@))
}

/// Views of a list of guilds.
pub open spec fn guilds_view(v: Seq<GuildSummary>) -> Seq<(Seq<char>, Seq<char>, Seq<char>, Seq<Seq<char>>)> {
    v.map_values(|g: GuildSummary| guild_view(g))
}


fn try_guild_name(w: &[u8]) -> (r: Option<String>)
    requires
        w@.len() <= isize::MAX,
    ensures
        guild_name_from(w@, 0) is None ==> r is None,
        guild_name_from(w@, 0) matches Some(n) ==> r matches Some(rn) && rn@ == n,
{
    let mut k: usize = 0;
    while k < 4
        invariant
            w@.len() <= isize::MAX,
            k <= 4,
            guild_name_from(w@, 0) == guild_name_from(w@, k as int),
        decreases 4 - k,
    {
        let pat = name_pat(k);
        let _pl = pat.len();
        if let Some(np) = find_pattern(w, pat, 0) {
            proof {
                lemma_first_match_found(w@, pat@, 0, w@.len() - pat@.len() + 1);
            }
            let sub = slice_range(w, np, w.len());
            assert(sub@ =~= w@.skip(np as int));
            match try_extract_string_prop(sub, pat) {
                None => return None,
                Some(v) => {
                    if !v.as_str().is_empty() {
                        return Some(v);
                    }
                },
            }
        }
        k = k + 1;
    }
    Some(owned("Default Guild"))
}

fn guild_admin(w: &[u8]) -> (r: String)
    requires
        w@.len() <= isize::MAX,
    ensures
        r@ == guild_admin_from(w@, 0),
{
    let mut k: usize = 0;
    while k < 3
        invariant
            w@.len() <= isize::MAX,
            k <= 3,
            guild_admin_from(w@, 0) == guild_admin_from(w@, k as int),
        decreases 3 - k,
    {
        let pat = admin_pat(k);
        let _pl = pat.len();
        if let Some(ap) = find_pattern(w, pat, 0) {
            proof {
                lemma_first_match_found(w@, pat@, 0, w@.len() - pat@.len() + 1);
            }
            let sub = slice_range(w, ap, w.len());
            assert(sub@ =~= w@.skip(ap as int));
            if let Some(g) = extract_guid_bytes_prop(sub, pat) {
                return format_guid(&g);
            }
        }
        k = k + 1;
    }
    String::new()
}

fn guild_id(w: &[u8]) -> (r: String)
    requires
        w@.len() <= isize::MAX,
    ensures
        r@ == guild_id_in(w@),
{
    let pat = "GroupId\0".as_bytes();
    let _pl = pat.len();
    if let Some(ip) = find_pattern(w, pat, 0) {
        proof {
            lemma_first_match_found(w@, pat@, 0, w@.len() - pat@.len() + 1);
        }
        let sub = slice_range(w, ip, w.len());
        assert(sub@ =~= w@.skip(ip as int));
        if let Some(g) = extract_guid_bytes_prop(sub, pat) {
            return format_guid(&g);
        }
    }
    owned("00000000-0000-0000-0000-000000000000")
}

proof fn lemma_member_pats_short()
    ensures
        "PlayerUId\0".spec_bytes().len() == 10,
        "player_uid\0".spec_bytes().len() == 11,
{
    reveal_strlit("PlayerUId\0");
    reveal_strlit("player_uid\0");
    reveal_with_fuel(encode_utf8, 12);
}

fn push_members(w: &[u8], pat: &[u8], out: &mut Vec<String>)
    requires
        w@.len() <= isize::MAX,
        pat@.len() <= 64,
    ensures
        strings_view(final(out)@) == strings_view(old(out)@) + members_from(w@, pat@, 0),
{
    let mut sp: usize = 0;
    let ghost total = strings_view(old(out)@) + members_from(w@, pat@, 0);
    assert(strings_view(out@) + members_from(w@, pat@, 0) == total);
    loop
        invariant
            w@.len() <= isize::MAX,
            pat@.len() <= 64,
            sp <= w@.len() + 10,
            total == strings_view(old(out)@) + members_from(w@, pat@, 0),
            total == strings_view(out@) + members_from(w@, pat@, sp as int),
        decreases w@.len() + 10 - sp,
    {
        let mp = match find_pattern(w, pat, sp) {
            None => {
                assert(strings_view(out@) + Seq::<Seq<char>>::empty() =~= strings_view(out@));
                return;
            },
            Some(m) => m,
        };
        proof {
            lemma_first_match_found(w@, pat@, sp as int, w@.len() - pat@.len() + 1);
        }
        let ghost before = out@;
        let ghost rest = members_from(w@, pat@, mp + 10);
        let sub = slice_range(w, mp, w.len());
        assert(sub@ =~= w@.skip(mp as int));
        if let Some(g) = extract_guid_bytes_prop(sub, pat) {
            let text = format_guid(&g);
            if !text_eq(text.as_str(), "00000000-0000-0000-0000-000000000000") {
                out.push(text);
                assert(strings_view(out@) =~= strings_view(before) + seq![guid_text(g@)]);
                assert(strings_view(before) + (seq![guid_text(g@)] + rest) =~= strings_view(
                    out@,
                ) + rest);
            }
        }
        sp = mp + 10;
    }
}

proof fn lemma_insert_prefix(v: Seq<Seq<char>>, x: Seq<char>, k: int)
    requires
        0 <= k <= v.len(),
        forall|j: int|
            0 <= j < k ==> v[j] != x && !bytes_le(encode_utf8(x), encode_utf8(#[trigger] v[j])),
    ensures
        insert_sorted(v, x) == v.take(k) + insert_sorted(v.skip(k), x),
    decreases k,
{
    if k == 0 {
        assert(v.skip(0) =~= v);
        assert(v.take(0) + insert_sorted(v, x) =~= insert_sorted(v, x));
    } else {
        let t = v.drop_first();
        assert forall|j: int|
            0 <= j < k - 1 implies t[j] != x && !bytes_le(encode_utf8(x), encode_utf8(#[trigger] t[j])) by {
            assert(t[j] == v[j + 1]);
        }
        lemma_insert_prefix(t, x, k - 1);
        assert(t.skip(k - 1) =~= v.skip(k));
        assert(seq![v[0]] + (t.take(k - 1) + insert_sorted(v.skip(k), x)) =~= v.take(k)
            + insert_sorted(v.skip(k), x));
    }
}

pub(crate) fn insert_member(v: &mut Vec<String>, x: String)
    ensures
        strings_view(final(v)@) == insert_sorted(strings_view(old(v)@), x@),
{
    let ghost sv = strings_view(v@);
    let mut k: usize = 0;
    while k < v.len() && !text_eq(v[k].as_str(), x.as_str()) && !bytes_le_exec(
        x.as_str().as_bytes(),
        v[k].as_str().as_bytes(),
    )
        invariant
            sv == strings_view(v@),
            k <= v@.len(),
            forall|j: int|
                0 <= j < k ==> sv[j] != x@ && !bytes_le(encode_utf8(x@), encode_utf8(#[trigger] sv[j])),
        decreases v@.len() - k,
    {
        k = k + 1;
    }
    proof {
        lemma_insert_prefix(sv, x@, k as int);
    }
    if k < v.len() && text_eq(v[k].as_str(), x.as_str()) {
        assert(sv.skip(k as int)[0] == x@);
        assert(sv.take(k as int) + sv.skip(k as int) =~= sv);
        return;
    }
    let ghost tail = sv.skip(k as int);
    v.insert(k, x);
    proof {
        if k < sv.len() {
            assert(tail[0] == sv[k as int]);
            assert(insert_sorted(tail, x@) == seq![x@] + tail);
        } else {
            assert(tail =~= Seq::<Seq<char>>::empty());
        }
        assert(strings_view(v@) =~= sv.take(k as int) + insert_sorted(tail, x@));
    }
}

fn try_guild_at(bytes: &[u8], pos: usize) -> (r: Option<GuildSummary>)
    requires
        bytes@.len() <= isize::MAX,
        pos <= bytes@.len(),
    ensures
        guild_at(bytes@, pos as int) is None ==> r is None,
        guild_at(bytes@, pos as int) matches Some(g) ==> r matches Some(rg) && guild_view(rg) == g,
{
    let ws = if pos >= 500 {
        pos - 500
    } else {
        0
    };
    let we = if pos + 4000 < bytes.len() {
        pos + 4000
    } else {
        bytes.len()
    };
    let w = slice_range(bytes, ws, we);
    let name = match try_guild_name(w) {
        None => return None,
        Some(n) => n,
    };
    let admin = guild_admin(w);
    let mut found: Vec<String> = Vec::new();
    assert(strings_view(found@) =~= Seq::empty());
    proof {
        lemma_member_pats_short();
    }
    push_members(w, "PlayerUId\0".as_bytes(), &mut found);
    push_members(w, "player_uid\0".as_bytes(), &mut found);
    let ghost list = strings_view(found@);
    let mut members: Vec<String> = Vec::new();
    let mut i: usize = 0;
    assert(strings_view(members@) =~= sorted_set(list.take(0)));
    while i < found.len()
        invariant
            list == strings_view(found@),
            i <= found@.len(),
            strings_view(members@) == sorted_set(list.take(i as int)),
        decreases found@.len() - i,
    {
        assert(list.take(i + 1).drop_last() =~= list.take(i as int));
        assert(list.take(i + 1).last() == found@[i as int]@);
        insert_member(&mut members, owned(found[i].as_str()));
        i = i + 1;
    }
    assert(list.take(i as int) =~= list);
    let id = guild_id(w);
    Some(GuildSummary { guild_id: id, guild_name: name, admin_player_uid: admin, members })
}

/// The guilds (see `guilds_from`), `None` where the bytes are malformed.
pub fn try_scan_guilds(bytes: &[u8]) -> (r: Option<Vec<GuildSummary>>)
    requires
        bytes@.len() <= isize::MAX,
    ensures
        guilds_from(bytes@, 0) is None ==> r is None,
        guilds_from(bytes@, 0) matches Some(k) ==> r is Some && guilds_view(r->0@) == k,
{
    let pat = "EPalGroupType::Guild\0".as_bytes();
    let mut guilds: Vec<GuildSummary> = Vec::new();
    let ghost total = guilds_from(bytes@, 0);
    let mut last: usize = 0;
    assert(guilds_view(guilds@) + guilds_from(bytes@, 0)->0 =~= guilds_from(bytes@, 0)->0);
    loop
        invariant
            bytes@.len() <= isize::MAX,
            pat@ == "EPalGroupType::Guild\0".spec_bytes(),
            last <= bytes@.len(),
            total == guilds_from(bytes@, 0),
            guilds_from(bytes@, last as int) matches Some(rest) ==> total == Some(
                guilds_view(guilds@) + rest,
            ),
            guilds_from(bytes@, last as int) is None ==> total is None,
        decreases bytes@.len() - last,
    {
        proof {
            lemma_guild_marker_nonempty();
        }
        proof {
            lemma_guild_marker_short();
        }
        let p = match find_pattern(bytes, pat, last) {
            None => {
                assert(guilds_view(guilds@) + Seq::empty() =~= guilds_view(guilds@));
                return Some(guilds);
            },
            Some(p) => p,
        };
        proof {
            lemma_first_match_found(bytes@, pat@, last as int, bytes@.len() - pat@.len() + 1);
        }
        let ghost before = guilds@;
        let g = match try_guild_at(bytes, p) {
            None => return None,
            Some(g) => g,
        };
        let ghost gv = guild_view(g);
        guilds.push(g);
        last = p + pat.len();
        proof {
            match guilds_from(bytes@, last as int) {
                Some(rest) => {
                    assert(guilds_view(guilds@) =~= guilds_view(before) + seq![gv]);
                    assert(guilds_view(before) + (seq![gv] + rest) =~= guilds_view(guilds@)
                        + rest);
                },
                None => {},
            }
        }
    }
}

/// The guilds of a world save in file order: for each guild marker, its id, name
/// (`Default Guild` when none is found), administrator and members (an ordered set of
/// non-zero player GUIDs), all read within the bytes around the marker.
pub fn scan_guilds(bytes: &[u8]) -> (r: Vec<GuildSummary>)
    requires
        bytes@.len() <= isize::MAX,
        guilds_from(bytes@, 0) is Some,
    ensures
        guilds_view(r@) == guilds_from(bytes@, 0)->0,
{
    match try_scan_guilds(bytes) {
        Some(v) => v,
        None => Vec::new(),
    }
}

} // verus!
