//! Typed property readers over decompressed GVAS buffers.
//!
//! A property is written as its NUL-terminated name, then a length-prefixed type name,
//! an 8-byte size, type-specific header bytes and the value. The readers find the first
//! occurrence of a property name and decode the value that follows it.
use vstd::prelude::*;
use vstd::string::StringSliceAdditionalSpecFns;
use crate::progress::{has_key, last_entry, lemma_merged_counts, merge_counts, merged_counts, pairs_view, unique_keys};
use crate::text::{text_eq};
use crate::wire::{
    as_i32, find_first, first_match, fstring_at, le_u32, le_u64, lemma_fstring_offset,
    opt_pos, read_u32_le, read_u64_le, try_read_string_at,
};

verus! {

/// Where the readers look for a property name: the first occurrence starting before
/// `len - name.len()` (an occurrence that ends exactly at the end is not considered).
pub open spec fn prop_pos(s: Seq<u8>, name: Seq<u8>) -> Option<int> {
    first_match(s, name, 0, s.len() - name.len())
}

/// The type name written after the first occurrence of `name`, with the offset past it.
/// Outer `None`: it cannot be read (the buffer is shorter than the name, or the type
/// string cannot be read). Inner `None`: the name does not occur.
pub open spec fn prop_header(s: Seq<u8>, name: Seq<u8>) -> Option<Option<(Seq<char>, int)>> {
    if s.len() < name.len() {
        None
    } else {
        match prop_pos(s, name) {
            None => Some(None),
            Some(pos) => match fstring_at(s, pos + name.len()) {
                None => None,
                Some((t, o)) => Some(Some((t, o))),
            },
        }
    }
}

/// Value of a string or name property (`StrProperty` / `NameProperty`); empty when the
/// property is missing or of another type. `None`: the bytes are malformed.
pub open spec fn string_prop(s: Seq<u8>, name: Seq<u8>) -> Option<Seq<char>> {
    match prop_header(s, name) {
        None => None,
        Some(None) => Some(Seq::empty()),
        Some(Some((t, o))) => if t != "StrProperty"@ && t != "NameProperty"@ {
            Some(Seq::empty())
        } else {
            match fstring_at(s, o + 9) {
                None => None,
                Some((v, _)) => Some(v),
            }
        },
    }
}

/// Value of an `IntProperty`; 0 when missing, of another type or cut off.
pub open spec fn int_prop(s: Seq<u8>, name: Seq<u8>) -> Option<int> {
    match prop_header(s, name) {
        None => None,
        Some(None) => Some(0),
        Some(Some((t, o))) => if t != "IntProperty"@ {
            Some(0)
        } else if o + 9 + 4 <= s.len() {
            Some(as_i32(le_u32(s, o + 9)))
        } else {
            Some(0)
        },
    }
}

/// Value of an `Int64Property` (as an unsigned 64-bit pattern); 0 when missing, of
/// another type or cut off.
pub open spec fn int64_prop(s: Seq<u8>, name: Seq<u8>) -> Option<nat> {
    match prop_header(s, name) {
        None => None,
        Some(None) => Some(0),
        Some(Some((t, o))) => if t != "Int64Property"@ {
            Some(0)
        } else if o + 9 + 8 <= s.len() {
            Some(le_u64(s, o + 9))
        } else {
            Some(0)
        },
    }
}

/// Value of a plain `ByteProperty` (enum type `None`); 0 otherwise.
pub open spec fn byte_prop(s: Seq<u8>, name: Seq<u8>) -> Option<nat> {
    match prop_header(s, name) {
        None => None,
        Some(None) => Some(0),
        Some(Some((t, o))) => if t != "ByteProperty"@ {
            Some(0)
        } else {
            match fstring_at(s, o + 8) {
                None => None,
                Some((e, o2)) => if e == "None"@ && o2 + 1 < s.len() {
                    Some(s[o2 + 1] as nat)
                } else {
                    Some(0)
                },
            }
        },
    }
}

/// Value of a `BoolProperty`; false when missing, of another type or cut off.
pub open spec fn bool_prop(s: Seq<u8>, name: Seq<u8>) -> Option<bool> {
    match prop_header(s, name) {
        None => None,
        Some(None) => Some(false),
        Some(Some((t, o))) => if t != "BoolProperty"@ {
            Some(false)
        } else if o + 8 + 2 <= s.len() {
            Some(s[o + 8] != 0)
        } else {
            Some(false)
        },
    }
}

/// Value of an `EnumProperty` (the enum value's name); empty otherwise.
pub open spec fn enum_prop(s: Seq<u8>, name: Seq<u8>) -> Option<Seq<char>> {
    match prop_header(s, name) {
        None => None,
        Some(None) => Some(Seq::empty()),
        Some(Some((t, o))) => if t != "EnumProperty"@ {
            Some(Seq::empty())
        } else {
            match fstring_at(s, o + 8) {
                None => None,
                Some((_, o2)) => match fstring_at(s, o2 + 1) {
                    None => None,
                    Some((v, _)) => Some(v),
                },
            }
        },
    }
}

/// Reads the type name after the first occurrence of `name`.
pub fn try_prop_header(bytes: &[u8], name: &[u8]) -> (r: Option<Option<(String, usize)>>)
    requires
        bytes@.len() <= isize::MAX,
    ensures
        prop_header(bytes@, name@) is None ==> r is None,
        prop_header(bytes@, name@) matches Some(None) ==> r matches Some(None),
        prop_header(bytes@, name@) matches Some(Some((t, o))) ==> r matches Some(Some((rt, ro)))
            && rt@ == t && ro == o,
        r matches Some(Some((rt, ro))) ==> ro <= bytes@.len(),
{
    if bytes.len() < name.len() {
        return None;
    }
    match find_first(bytes, name, 0, bytes.len() - name.len()) {
        None => Some(None),
        Some(pos) => {
            proof {
                crate::wire::lemma_first_match_found(
                    bytes@,
                    name@,
                    0,
                    bytes@.len() - name@.len(),
                );
                lemma_fstring_offset(bytes@, pos + name@.len());
            }
            let mut offset = pos + name.len();
            match try_read_string_at(bytes, &mut offset) {
                None => None,
                Some(t) => Some(Some((t, offset))),
            }
        },
    }
}

/// Value of a string or name property, `None` where the bytes are malformed.
pub fn try_extract_string_prop(bytes: &[u8], prop_name: &[u8]) -> (r: Option<String>)
    requires
        bytes@.len() <= isize::MAX,
    ensures
        string_prop(bytes@, prop_name@) is None ==> r is None,
        string_prop(bytes@, prop_name@) matches Some(v) ==> r is Some && r->0@ == v,
{
    match try_prop_header(bytes, prop_name) {
        None => None,
        Some(None) => Some(String::new()),
        Some(Some((t, o))) => {
            if !text_eq(t.as_str(), "StrProperty") && !text_eq(t.as_str(), "NameProperty") {
                return Some(String::new());
            }
            let mut offset = o + 9;
            try_read_string_at(bytes, &mut offset)
        },
    }
}

/// Value of a string or name property; empty when missing or of another type.
pub fn extract_string_prop(bytes: &[u8], prop_name: &[u8]) -> (r: String)
    requires
        bytes@.len() <= isize::MAX,
        string_prop(bytes@, prop_name@) is Some,
    ensures
        r@ == string_prop(bytes@, prop_name@)->0,
{
    match try_extract_string_prop(bytes, prop_name) {
        Some(v) => v,
        None => String::new(),
    }
}

/// Value of an `IntProperty`, `None` where the bytes are malformed.
pub fn try_extract_int_prop(bytes: &[u8], prop_name: &[u8]) -> (r: Option<i32>)
    requires
        bytes@.len() <= isize::MAX,
    ensures
        int_prop(bytes@, prop_name@) is None ==> r is None,
        int_prop(bytes@, prop_name@) matches Some(v) ==> r is Some && r->0 == v,
{
    match try_prop_header(bytes, prop_name) {
        None => None,
        Some(None) => Some(0),
        Some(Some((t, o))) => {
            if !text_eq(t.as_str(), "IntProperty") {
                return Some(0);
            }
            let offset = o + 9;
            if offset + 4 <= bytes.len() {
                Some(crate::wire::u32_to_i32(read_u32_le(bytes, offset)))
            } else {
                Some(0)
            }
        },
    }
}

/// Value of an `IntProperty`; 0 when missing, of another type or cut off.
pub fn extract_int_prop(bytes: &[u8], prop_name: &[u8]) -> (r: i32)
    requires
        bytes@.len() <= isize::MAX,
        int_prop(bytes@, prop_name@) is Some,
    ensures
        r == int_prop(bytes@, prop_name@)->0,
{
    match try_extract_int_prop(bytes, prop_name) {
        Some(v) => v,
        None => 0,
    }
}

/// Value of an `Int64Property`, `None` where the bytes are malformed.
pub fn try_extract_int64_prop(bytes: &[u8], prop_name: &[u8]) -> (r: Option<u64>)
    requires
        bytes@.len() <= isize::MAX,
    ensures
        int64_prop(bytes@, prop_name@) is None ==> r is None,
        int64_prop(bytes@, prop_name@) matches Some(v) ==> r is Some && r->0 == v,
{
    match try_prop_header(bytes, prop_name) {
        None => None,
        Some(None) => Some(0),
        Some(Some((t, o))) => {
            if !text_eq(t.as_str(), "Int64Property") {
                return Some(0);
            }
            let offset = o + 9;
            if offset + 8 <= bytes.len() {
                Some(read_u64_le(bytes, offset))
            } else {
                Some(0)
            }
        },
    }
}

/// Value of an `Int64Property`; 0 when missing, of another type or cut off.
pub fn extract_int64_prop(bytes: &[u8], prop_name: &[u8]) -> (r: u64)
    requires
        bytes@.len() <= isize::MAX,
        int64_prop(bytes@, prop_name@) is Some,
    ensures
        r == int64_prop(bytes@, prop_name@)->0,
{
    match try_extract_int64_prop(bytes, prop_name) {
        Some(v) => v,
        None => 0,
    }
}

/// Value of a plain `ByteProperty`, `None` where the bytes are malformed.
pub fn try_extract_byte_prop(bytes: &[u8], prop_name: &[u8]) -> (r: Option<u32>)
    requires
        bytes@.len() <= isize::MAX,
    ensures
        byte_prop(bytes@, prop_name@) is None ==> r is None,
        byte_prop(bytes@, prop_name@) matches Some(v) ==> r is Some && r->0 == v,
{
    match try_prop_header(bytes, prop_name) {
        None => None,
        Some(None) => Some(0),
        Some(Some((t, o))) => {
            if !text_eq(t.as_str(), "ByteProperty") {
                return Some(0);
            }
            let mut offset = o + 8;
            proof {
                lemma_fstring_offset(bytes@, offset as int);
            }
            match try_read_string_at(bytes, &mut offset) {
                None => None,
                Some(enum_type) => {
                    let at = offset + 1;
                    if text_eq(enum_type.as_str(), "None") && at < bytes.len() {
                        Some(bytes[at] as u32)
                    } else {
                        Some(0)
                    }
                },
            }
        },
    }
}

/// Value of a plain `ByteProperty`; 0 otherwise.
pub fn extract_byte_prop(bytes: &[u8], prop_name: &[u8]) -> (r: u32)
    requires
        bytes@.len() <= isize::MAX,
        byte_prop(bytes@, prop_name@) is Some,
    ensures
        r == byte_prop(bytes@, prop_name@)->0,
{
    match try_extract_byte_prop(bytes, prop_name) {
        Some(v) => v,
        None => 0,
    }
}

/// Value of a `BoolProperty`, `None` where the bytes are malformed.
pub fn try_extract_bool_prop(bytes: &[u8], prop_name: &[u8]) -> (r: Option<bool>)
    requires
        bytes@.len() <= isize::MAX,
    ensures
        bool_prop(bytes@, prop_name@) is None ==> r is None,
        bool_prop(bytes@, prop_name@) matches Some(v) ==> r is Some && r->0 == v,
{
    match try_prop_header(bytes, prop_name) {
        None => None,
        Some(None) => Some(false),
        Some(Some((t, o))) => {
            if !text_eq(t.as_str(), "BoolProperty") {
                return Some(false);
            }
            let offset = o + 8;
            if offset + 2 <= bytes.len() {
                Some(bytes[offset] != 0)
            } else {
                Some(false)
            }
        },
    }
}

/// Value of a `BoolProperty`; false when missing, of another type or cut off.
pub fn extract_bool_prop(bytes: &[u8], prop_name: &[u8]) -> (r: bool)
    requires
        bytes@.len() <= isize::MAX,
        bool_prop(bytes@, prop_name@) is Some,
    ensures
        r == bool_prop(bytes@, prop_name@)->0,
{
    match try_extract_bool_prop(bytes, prop_name) {
        Some(v) => v,
        None => false,
    }
}

/// Value of an `EnumProperty`, `None` where the bytes are malformed.
pub fn try_extract_enum_prop(bytes: &[u8], prop_name: &[u8]) -> (r: Option<String>)
    requires
        bytes@.len() <= isize::MAX,
    ensures
        enum_prop(bytes@, prop_name@) is None ==> r is None,
        enum_prop(bytes@, prop_name@) matches Some(v) ==> r is Some && r->0@ == v,
{
    match try_prop_header(bytes, prop_name) {
        None => None,
        Some(None) => Some(String::new()),
        Some(Some((t, o))) => {
            if !text_eq(t.as_str(), "EnumProperty") {
                return Some(String::new());
            }
            let mut offset = o + 8;
            proof {
                lemma_fstring_offset(bytes@, offset as int);
            }
            match try_read_string_at(bytes, &mut offset) {
                None => None,
                Some(_enum_type) => {
                    offset = offset + 1;
                    try_read_string_at(bytes, &mut offset)
                },
            }
        },
    }
}

/// Value of an `EnumProperty`; empty otherwise.
pub fn extract_enum_prop(bytes: &[u8], prop_name: &[u8]) -> (r: String)
    requires
        bytes@.len() <= isize::MAX,
        enum_prop(bytes@, prop_name@) is Some,
    ensures
        r@ == enum_prop(bytes@, prop_name@)->0,
{
    match try_extract_enum_prop(bytes, prop_name) {
        Some(v) => v,
        None => String::new(),
    }
}

/// Whether the property name occurs (at a position the readers consider).
pub fn has_prop(bytes: &[u8], prop_name: &[u8]) -> (r: bool)
    requires
        bytes@.len() >= prop_name@.len(),
    ensures
        r == (prop_pos(bytes@, prop_name@) is Some),
{
    let found = find_first(bytes, prop_name, 0, bytes.len() - prop_name.len());
    found.is_some()
}


/// The 16 bytes of the GUID stored in the first `Guid` struct that starts within 150
/// bytes of the first occurrence of `name`; `None` when either is missing or cut off.
pub open spec fn guid_bytes_prop(s: Seq<u8>, name: Seq<u8>) -> Option<Seq<u8>> {
    match prop_pos(s, name) {
        None => None,
        Some(pos) => {
            let hi = if pos + 150 < s.len() {
                pos + 150
            } else {
                s.len() as int
            };
            match first_match(s, "Guid".spec_bytes(), pos, hi) {
                None => None,
                Some(g) => if g + 38 <= s.len() {
                    Some(s.subrange(g + 22, g + 38))
                } else {
                    None
                },
            }
        },
    }
}

/// The GUID bytes of a `Guid` struct property (see `guid_bytes_prop`).
pub fn extract_guid_bytes_prop(bytes: &[u8], prop_name: &[u8]) -> (r: Option<[u8; 16]>)
    requires
        bytes@.len() >= prop_name@.len(),
        bytes@.len() <= isize::MAX,
    ensures
        guid_bytes_prop(bytes@, prop_name@) is None ==> r is None,
        guid_bytes_prop(bytes@, prop_name@) matches Some(g) ==> r is Some && r->0@ == g,
{
    let pos = match find_first(bytes, prop_name, 0, bytes.len() - prop_name.len()) {
        Some(p) => p,
        None => return None,
    };
    proof {
        crate::wire::lemma_first_match_found(bytes@, prop_name@, 0, bytes@.len() - prop_name@.len());
    }
    let hi = if pos + 150 < bytes.len() {
        pos + 150
    } else {
        bytes.len()
    };
    let g = match find_first(bytes, "Guid".as_bytes(), pos, hi) {
        Some(g) => g,
        None => return None,
    };
    proof {
        crate::wire::lemma_first_match_found(bytes@, "Guid".spec_bytes(), pos as int, hi as int);
    }
    if g + 38 <= bytes.len() {
        Some(crate::guid::guid_bytes_at(bytes, g + 22))
    } else {
        None
    }
}

/// The GUID of a `Guid` struct property in its textual form.
pub fn extract_guid_prop(bytes: &[u8], prop_name: &[u8]) -> (r: Option<String>)
    requires
        bytes@.len() >= prop_name@.len(),
        bytes@.len() <= isize::MAX,
    ensures
        guid_bytes_prop(bytes@, prop_name@) is None ==> r is None,
        guid_bytes_prop(bytes@, prop_name@) matches Some(g) ==> r is Some && r->0@
            == crate::guid::guid_text(g),
{
    match extract_guid_bytes_prop(bytes, prop_name) {
        Some(g) => Some(crate::guid::format_guid(&g)),
        None => None,
    }
}


/// Offset after skipping a property value of type `t` whose header starts at `off` and
/// whose payload is `size` bytes; `None` where the bytes are malformed.
pub open spec fn skip_prop(s: Seq<u8>, off: int, t: Seq<char>, size: int) -> Option<int> {
    if t == "StructProperty"@ {
        match fstring_at(s, off) {
            None => None,
            Some((_, o)) => if o + 17 + size > usize::MAX {
                None
            } else {
                Some(o + 17 + size)
            },
        }
    } else if t == "ArrayProperty"@ || t == "EnumProperty"@ {
        match fstring_at(s, off) {
            None => None,
            Some((_, o)) => if o + 1 + size > usize::MAX {
                None
            } else {
                Some(o + 1 + size)
            },
        }
    } else if t == "MapProperty"@ {
        match fstring_at(s, off) {
            None => None,
            Some((_, o)) => match fstring_at(s, o) {
                None => None,
                Some((_, o2)) => if o2 + 1 + size > usize::MAX {
                    None
                } else {
                    Some(o2 + 1 + size)
                },
            },
        }
    } else if t == "BoolProperty"@ {
        if off + 2 > usize::MAX {
            None
        } else {
            Some(off + 2)
        }
    } else {
        if off + 1 + size > usize::MAX {
            None
        } else {
            Some(off + 1 + size)
        }
    }
}

/// Skips a property value, `None` where the bytes are malformed.
pub fn try_skip_property_at(bytes: &[u8], offset: &mut usize, prop_type: &str, size: usize) -> (r:
    Option<()>)
    ensures
        skip_prop(bytes@, *old(offset) as int, prop_type@, size as int) is None ==> r is None,
        skip_prop(bytes@, *old(offset) as int, prop_type@, size as int) matches Some(o) ==> r
            is Some && *final(offset) == o,
{
    let tail: usize;
    if text_eq(prop_type, "StructProperty") {
        if try_read_string_at(bytes, offset).is_none() {
            return None;
        }
        tail = 17;
    } else if text_eq(prop_type, "ArrayProperty") || text_eq(prop_type, "EnumProperty") {
        if try_read_string_at(bytes, offset).is_none() {
            return None;
        }
        tail = 1;
    } else if text_eq(prop_type, "MapProperty") {
        if try_read_string_at(bytes, offset).is_none() {
            return None;
        }
        if try_read_string_at(bytes, offset).is_none() {
            return None;
        }
        tail = 1;
    } else if text_eq(prop_type, "BoolProperty") {
        if *offset > usize::MAX - 2 {
            return None;
        }
        *offset = *offset + 2;
        return Some(());
    } else {
        tail = 1;
    }
    if *offset > usize::MAX - tail || size > usize::MAX - tail - *offset {
        return None;
    }
    *offset = *offset + tail + size;
    Some(())
}

/// Skips a property value whose type-specific header starts at `*offset`.
pub fn skip_property_at(bytes: &[u8], offset: &mut usize, prop_type: &str, size: usize)
    requires
        skip_prop(bytes@, *old(offset) as int, prop_type@, size as int) is Some,
    ensures
        *final(offset) == skip_prop(bytes@, *old(offset) as int, prop_type@, size as int)->0,
{
    let _ = try_skip_property_at(bytes, offset, prop_type, size);
}

/// First occurrence of `pattern` starting at or after `start`.
pub open spec fn pattern_from(s: Seq<u8>, pattern: Seq<u8>, start: int) -> Option<int> {
    if start + pattern.len() > s.len() {
        None
    } else {
        first_match(s, pattern, start, s.len() - pattern.len() + 1)
    }
}

/// First occurrence of `pattern` starting at or after `start`.
pub fn find_pattern(bytes: &[u8], pattern: &[u8], start: usize) -> (r: Option<usize>)
    requires
        start + pattern@.len() <= usize::MAX,
        bytes@.len() <= isize::MAX,
    ensures
        opt_pos(r) == pattern_from(bytes@, pattern@, start as int),
{
    if start + pattern.len() > bytes.len() {
        return None;
    }
    find_first(bytes, pattern, start, bytes.len() - pattern.len() + 1)
}

/// Keys of a map property, read `n` entries at a time from `off`: reading stops at the
/// end of the buffer or at an empty key. Values are skipped by their value type.
pub open spec fn map_keys_from(s: Seq<u8>, off: int, n: nat, vt: Seq<char>) -> Option<
    Seq<Seq<char>>,
>
    decreases n,
{
    if n == 0 || off >= s.len() {
        Some(Seq::empty())
    } else {
        match fstring_at(s, off) {
            None => None,
            Some((key, o)) => if key.len() == 0 {
                Some(Seq::empty())
            } else {
                let step: int = if vt == "BoolProperty"@ {
                    1
                } else if vt == "StructProperty"@ {
                    16
                } else {
                    4
                };
                match map_keys_from(s, o + step, (n - 1) as nat, vt) {
                    None => None,
                    Some(rest) => Some(seq![key] + rest),
                }
            },
        }
    }
}

/// Where the entries of a map property begin: the value type name, the entry count and
/// the offset of the first entry. Outer `None`: it cannot be read; inner `None`: the map is
/// missing, of another type or its header is cut off.
pub open spec fn map_header(s: Seq<u8>, name: Seq<u8>) -> Option<Option<(Seq<char>, nat, int)>> {
    match prop_header(s, name) {
        None => None,
        Some(None) => Some(None),
        Some(Some((t, o))) => if t != "MapProperty"@ {
            Some(None)
        } else {
            match fstring_at(s, o + 8) {
                None => None,
                Some((_, o2)) => match fstring_at(s, o2) {
                    None => None,
                    Some((vt, o3)) => if o3 + 1 + 8 > s.len() {
                        Some(None)
                    } else {
                        Some(Some((vt, le_u32(s, o3 + 1 + 4), o3 + 1 + 8)))
                    },
                },
            }
        },
    }
}

/// Keys of a map property in file order; empty when the map is missing.
pub open spec fn map_keys(s: Seq<u8>, name: Seq<u8>) -> Option<Seq<Seq<char>>> {
    match map_header(s, name) {
        None => None,
        Some(None) => Some(Seq::empty()),
        Some(Some((vt, n, off))) => map_keys_from(s, off, n, vt),
    }
}

/// Text views of a list of strings.
pub open spec fn texts(v: Seq<String>) -> Seq<Seq<char>> {
    v.map_values(|x: String| x@)
}

pub(crate) fn try_map_header(bytes: &[u8], name: &[u8]) -> (r: Option<Option<(String, u32, usize)>>)
    requires
        bytes@.len() <= isize::MAX,
    ensures
        map_header(bytes@, name@) is None ==> r is None,
        map_header(bytes@, name@) matches Some(None) ==> r matches Some(None),
        map_header(bytes@, name@) matches Some(Some((vt, n, off))) ==> r matches Some(
            Some((rvt, rn, roff)),
        ) && rvt@ == vt && rn == n && roff == off,
        r matches Some(Some((rvt, rn, roff))) ==> roff <= bytes@.len(),
{
    match try_prop_header(bytes, name) {
        None => None,
        Some(None) => Some(None),
        Some(Some((t, o))) => {
            if !text_eq(t.as_str(), "MapProperty") {
                return Some(None);
            }
            let mut offset = o + 8;
            proof {
                lemma_fstring_offset(bytes@, offset as int);
            }
            if try_read_string_at(bytes, &mut offset).is_none() {
                return None;
            }
            proof {
                lemma_fstring_offset(bytes@, offset as int);
            }
            let vt = match try_read_string_at(bytes, &mut offset) {
                None => return None,
                Some(v) => v,
            };
            if offset + 1 + 8 > bytes.len() {
                return Some(None);
            }
            let n = read_u32_le(bytes, offset + 1 + 4);
            Some(Some((vt, n, offset + 1 + 8)))
        },
    }
}

/// Keys of a map property in file order, `None` where the bytes are malformed.
pub fn try_extract_map_keys(bytes: &[u8], map_name: &[u8]) -> (r: Option<Vec<String>>)
    requires
        bytes@.len() <= isize::MAX,
    ensures
        map_keys(bytes@, map_name@) is None ==> r is None,
        map_keys(bytes@, map_name@) matches Some(k) ==> r is Some && texts(r->0@) == k,
{
    let (vt, n, start) = match try_map_header(bytes, map_name) {
        None => return None,
        Some(None) => {
            let e: Vec<String> = Vec::new();
            assert(texts(e@) =~= Seq::empty());
            return Some(e);
        },
        Some(Some(h)) => h,
    };
    let step: usize = if text_eq(vt.as_str(), "BoolProperty") {
        1
    } else if text_eq(vt.as_str(), "StructProperty") {
        16
    } else {
        4
    };
    let ghost total = map_keys_from(bytes@, start as int, n as nat, vt@);
    let mut results: Vec<String> = Vec::new();
    let mut offset = start;
    let mut left = n;
    let mut done = false;
    assert(texts(results@) =~= Seq::<Seq<char>>::empty());
    while left > 0 && !done
        invariant
            bytes@.len() <= isize::MAX,
            offset <= bytes@.len() + 16,
            step as int == (if vt@ == "BoolProperty"@ {
                1int
            } else if vt@ == "StructProperty"@ {
                16int
            } else {
                4int
            }),
            total == map_keys(bytes@, map_name@),
            !done ==> (map_keys_from(bytes@, offset as int, left as nat, vt@) matches Some(rest)
                ==> total == Some(texts(results@) + rest)),
            !done ==> (map_keys_from(bytes@, offset as int, left as nat, vt@) is None ==> total
                is None),
            done ==> total == Some(texts(results@)),
        decreases left, (if done {
            0int
        } else {
            1int
        }),
    {
        if offset >= bytes.len() {
            assert(texts(results@) + Seq::<Seq<char>>::empty() =~= texts(results@));
            done = true;
        } else {
            proof {
                lemma_fstring_offset(bytes@, offset as int);
            }
            let key = match try_read_string_at(bytes, &mut offset) {
                None => return None,
                Some(k) => k,
            };
            if key.as_str().is_empty() {
                assert(texts(results@) + Seq::<Seq<char>>::empty() =~= texts(results@));
                done = true;
            } else {
                let ghost before = results@;
                results.push(key);
                proof {
                    assert(texts(results@) =~= texts(before) + seq![key@]);
                    match map_keys_from(bytes@, offset + step, (left - 1) as nat, vt@) {
                        Some(rest) => {
                            assert(texts(before) + (seq![key@] + rest) =~= texts(results@)
                                + rest);
                        },
                        None => {},
                    }
                }
                offset = offset + step;
                left = left - 1;
            }
        }
    }
    proof {
        if !done {
            assert(texts(results@) + Seq::<Seq<char>>::empty() =~= texts(results@));
        }
    }
    Some(results)
}

/// Keys of a map property in file order; empty when the map is missing.
pub fn extract_map_keys(bytes: &[u8], map_name: &[u8]) -> (r: Vec<String>)
    requires
        bytes@.len() <= isize::MAX,
        map_keys(bytes@, map_name@) is Some,
    ensures
        texts(r@) == map_keys(bytes@, map_name@)->0,
{
    match try_extract_map_keys(bytes, map_name) {
        Some(v) => v,
        None => Vec::new(),
    }
}


/// Entries `(key, value)` of a map property read from `off`, `n` at a time; integer
/// values are read for `IntProperty` maps (0 when cut off), other values are skipped.
pub open spec fn map_entries_from(s: Seq<u8>, off: int, n: nat, vt: Seq<char>) -> Option<
    Seq<(Seq<char>, nat)>,
>
    decreases n,
{
    if n == 0 || off >= s.len() {
        Some(Seq::empty())
    } else {
        match fstring_at(s, off) {
            None => None,
            Some((key, o)) => if key.len() == 0 {
                Some(Seq::empty())
            } else {
                let (val, next): (nat, int) = if vt == "IntProperty"@ {
                    if o + 4 <= s.len() {
                        (le_u32(s, o), o + 4)
                    } else {
                        (0, o)
                    }
                } else {
                    (0, o + 4)
                };
                match map_entries_from(s, next, (n - 1) as nat, vt) {
                    None => None,
                    Some(rest) => Some(seq![(key, val)] + rest),
                }
            },
        }
    }
}

/// Entries of a map property in file order; empty when the map is missing.
pub open spec fn map_counts(s: Seq<u8>, name: Seq<u8>) -> Option<Seq<(Seq<char>, nat)>> {
    match map_header(s, name) {
        None => None,
        Some(None) => Some(Seq::empty()),
        Some(Some((vt, n, off))) => map_entries_from(s, off, n, vt),
    }
}

/// Views of `(text, count)` pairs.
pub open spec fn counted(v: Seq<(String, u32)>) -> Seq<(Seq<char>, nat)> {
    v.map_values(|e: (String, u32)| (e.0@, e.1 as nat))
}

/// The entries of a map property as written, in file order (a key may repeat;
/// `extract_map_counts` collects them into a map), `None` where the bytes are malformed.
pub fn try_extract_map_counts(bytes: &[u8], map_name: &[u8]) -> (r: Option<Vec<(String, u32)>>)
    requires
        bytes@.len() <= isize::MAX,
    ensures
        map_counts(bytes@, map_name@) is None ==> r is None,
        map_counts(bytes@, map_name@) matches Some(k) ==> r is Some && counted(r->0@) == k,
{
    let (vt, n, start) = match try_map_header(bytes, map_name) {
        None => return None,
        Some(None) => {
            let e: Vec<(String, u32)> = Vec::new();
            assert(counted(e@) =~= Seq::empty());
            return Some(e);
        },
        Some(Some(h)) => h,
    };
    let is_int = text_eq(vt.as_str(), "IntProperty");
    let ghost total = map_entries_from(bytes@, start as int, n as nat, vt@);
    let mut results: Vec<(String, u32)> = Vec::new();
    let mut offset = start;
    let mut left = n;
    let mut done = false;
    assert(counted(results@) =~= Seq::<(Seq<char>, nat)>::empty());
    while left > 0 && !done
        invariant
            bytes@.len() <= isize::MAX,
            offset <= bytes@.len() + 4,
            is_int == (vt@ == "IntProperty"@),
            total == map_counts(bytes@, map_name@),
            !done ==> (map_entries_from(bytes@, offset as int, left as nat, vt@) matches Some(rest)
                ==> total == Some(counted(results@) + rest)),
            !done ==> (map_entries_from(bytes@, offset as int, left as nat, vt@) is None ==> total
                is None),
            done ==> total == Some(counted(results@)),
        decreases left, (if done {
            0int
        } else {
            1int
        }),
    {
        if offset >= bytes.len() {
            assert(counted(results@) + Seq::<(Seq<char>, nat)>::empty() =~= counted(results@));
            done = true;
        } else {
            proof {
                lemma_fstring_offset(bytes@, offset as int);
            }
            let key = match try_read_string_at(bytes, &mut offset) {
                None => return None,
                Some(k) => k,
            };
            if key.as_str().is_empty() {
                assert(counted(results@) + Seq::<(Seq<char>, nat)>::empty() =~= counted(results@));
                done = true;
            } else {
                let mut val: u32 = 0;
                if is_int {
                    if offset + 4 <= bytes.len() {
                        val = read_u32_le(bytes, offset);
                        offset = offset + 4;
                    }
                } else {
                    offset = offset + 4;
                }
                let ghost before = results@;
                let ghost kv = key@;
                results.push((key, val));
                proof {
                    assert(counted(results@) =~= counted(before) + seq![(kv, val as nat)]);
                    match map_entries_from(bytes@, offset as int, (left - 1) as nat, vt@) {
                        Some(rest) => {
                            assert(counted(before) + (seq![(kv, val as nat)] + rest)
                                =~= counted(results@) + rest);
                        },
                        None => {},
                    }
                }
                left = left - 1;
            }
        }
    }
    proof {
        if !done {
            assert(counted(results@) + Seq::<(Seq<char>, nat)>::empty() =~= counted(results@));
        }
    }
    Some(results)
}

/// The entries of a map property collected into a map: each key once, in the order of
/// its first entry, with the value of its last entry (see `merged_counts`); empty when
/// the map is missing.
pub fn extract_map_counts(bytes: &[u8], map_name: &[u8]) -> (r: Vec<(String, u32)>)
    requires
        bytes@.len() <= isize::MAX,
        map_counts(bytes@, map_name@) is Some,
    ensures
        counted(r@) == merged_counts(map_counts(bytes@, map_name@)->0),
        unique_keys(counted(r@)),
        forall|k: int|
            0 <= k < map_counts(bytes@, map_name@)->0.len() ==> has_key(
                counted(r@),
                #[trigger] map_counts(bytes@, map_name@)->0[k].0,
            ),
        forall|j: int|
            0 <= j < r@.len() ==> last_entry(
                map_counts(bytes@, map_name@)->0,
                #[trigger] counted(r@)[j],
            ),
{
    let entries = match try_extract_map_counts(bytes, map_name) {
        Some(v) => v,
        None => Vec::new(),
    };
    let r = merge_counts(&entries);
    proof {
        assert(counted(r@) == pairs_view(r@));
        assert(counted(entries@) == pairs_view(entries@));
        lemma_merged_counts(map_counts(bytes@, map_name@)->0);
    }
    r
}

/// Measure for scans that move forward through the buffer.
pub open spec fn remaining(s: Seq<u8>, off: int) -> int {
    if off < s.len() {
        s.len() - off
    } else {
        0
    }
}

/// Offset after skipping the fields of a struct element up to its `None` terminator:
/// a field is a name, a type, an 8-byte size, a type header (`StructProperty`: a type
/// name and 17 bytes, others 1 byte) and `size` payload bytes; an empty name skips one
/// byte. `None` where the bytes are malformed (cut-off size, offset overflow).
pub open spec fn skip_struct_fields(s: Seq<u8>, off: int) -> Option<int>
    decreases remaining(s, off),
{
    if off >= s.len() || off < 0 {
        Some(off)
    } else {
        match fstring_at(s, off) {
            None => None,
            Some((name, o)) => {
                proof {
                    crate::wire::lemma_fstring_offset(s, off);
                }
                if name == "None"@ {
                    Some(o)
                } else if name.len() > 0 {
                    match fstring_at(s, o) {
                        None => None,
                        Some((pt, o2)) => {
                            proof {
                                crate::wire::lemma_fstring_offset(s, o);
                            }
                            if o2 + 8 > s.len() {
                                None
                            } else {
                                let size = (le_u64(s, o2) as usize) as int;
                                let o3 = o2 + 8;
                                let o4: Option<int> = if pt == "StructProperty"@ {
                                    match fstring_at(s, o3) {
                                        None => None,
                                        Some((_, x)) => Some(x + 17),
                                    }
                                } else {
                                    Some(o3 + 1)
                                };
                                match o4 {
                                    None => None,
                                    Some(o4) => {
                                        proof {
                                            crate::wire::lemma_fstring_offset(s, o3);
                                        }
                                        if o4 + size > usize::MAX {
                                            None
                                        } else {
                                            skip_struct_fields(s, o4 + size)
                                        }
                                    },
                                }
                            }
                        },
                    }
                } else {
                    skip_struct_fields(s, o + 1)
                }
            },
        }
    }
}

/// The `QuestName` string found within 150 bytes of a struct element, as a list of at
/// most one non-empty name. `None` where it cannot be read.
pub open spec fn quest_name_near(s: Seq<u8>, off: int) -> Option<Seq<Seq<char>>> {
    let hi = if off + 150 < s.len() {
        off + 150
    } else {
        s.len() as int
    };
    match first_match(s, "QuestName\0".spec_bytes(), off, hi) {
        None => Some(Seq::empty()),
        Some(qp) => match fstring_at(s, qp + 10) {
            None => None,
            Some((_, t1)) => match fstring_at(s, t1 + 9) {
                None => None,
                Some((name, _)) => if name.len() > 0 {
                    Some(seq![name])
                } else {
                    Some(Seq::empty())
                },
            },
        },
    }
}

/// Names collected from `n` struct elements starting at `off`.
pub open spec fn struct_elems(s: Seq<u8>, off: int, n: nat) -> Option<Seq<Seq<char>>>
    decreases n,
{
    if n == 0 || off >= s.len() {
        Some(Seq::empty())
    } else {
        match quest_name_near(s, off) {
            None => None,
            Some(names) => match skip_struct_fields(s, off) {
                None => None,
                Some(next) => match struct_elems(s, next, (n - 1) as nat) {
                    None => None,
                    Some(rest) => Some(names + rest),
                },
            },
        }
    }
}

/// Non-empty strings among `n` string elements starting at `off`.
pub open spec fn plain_elems(s: Seq<u8>, off: int, n: nat) -> Option<Seq<Seq<char>>>
    decreases n,
{
    if n == 0 || off >= s.len() {
        Some(Seq::empty())
    } else {
        match fstring_at(s, off) {
            None => None,
            Some((v, o)) => match plain_elems(s, o, (n - 1) as nat) {
                None => None,
                Some(rest) => Some(if v.len() > 0 {
                    seq![v] + rest
                } else {
                    rest
                }),
            },
        }
    }
}

/// Strings of an array property: the elements of a string array, or the `QuestName` of
/// each element of a struct array; empty when the array is missing. `None` where the
/// bytes are malformed.
pub open spec fn array_strings(s: Seq<u8>, name: Seq<u8>) -> Option<Seq<Seq<char>>> {
    match prop_header(s, name) {
        None => None,
        Some(None) => Some(Seq::empty()),
        Some(Some((t, o))) => if t != "ArrayProperty"@ {
            Some(Seq::empty())
        } else {
            match fstring_at(s, o + 8) {
                None => None,
                Some((et, o2)) => {
                    let o3 = o2 + 1;
                    if o3 + 4 > s.len() {
                        Some(Seq::empty())
                    } else {
                        let n = le_u32(s, o3);
                        let off = o3 + 4;
                        if et == "StructProperty"@ {
                            match fstring_at(s, off) {
                                None => None,
                                Some((_, a)) => match fstring_at(s, a) {
                                    None => None,
                                    Some((_, b)) => match fstring_at(s, b + 8) {
                                        None => None,
                                        Some((_, c)) => struct_elems(s, c + 17, n),
                                    },
                                },
                            }
                        } else {
                            plain_elems(s, off, n)
                        }
                    }
                },
            }
        },
    }
}

fn try_quest_name_near(bytes: &[u8], off: usize, out: &mut Vec<String>) -> (r: Option<()>)
    requires
        bytes@.len() <= isize::MAX,
        off < bytes@.len(),
    ensures
        quest_name_near(bytes@, off as int) is None ==> r is None,
        quest_name_near(bytes@, off as int) matches Some(names) ==> r is Some && texts(
            final(out)@,
        ) == texts(old(out)@) + names,
{
    let hi = if off + 150 < bytes.len() {
        off + 150
    } else {
        bytes.len()
    };
    match find_first(bytes, "QuestName\0".as_bytes(), off, hi) {
        None => {
            assert(texts(out@) + Seq::<Seq<char>>::empty() =~= texts(out@));
            Some(())
        },
        Some(qp) => {
            proof {
                crate::wire::lemma_first_match_found(
                    bytes@,
                    "QuestName\0".spec_bytes(),
                    off as int,
                    hi as int,
                );
                lemma_fstring_offset(bytes@, qp + 10);
            }
            let mut t = qp + 10;
            if try_read_string_at(bytes, &mut t).is_none() {
                return None;
            }
            t = t + 9;
            match try_read_string_at(bytes, &mut t) {
                None => None,
                Some(name) => {
                    if !name.as_str().is_empty() {
                        let ghost before = out@;
                        out.push(name);
                        assert(texts(out@) =~= texts(before) + seq![name@]);
                    } else {
                        assert(texts(out@) + Seq::<Seq<char>>::empty() =~= texts(out@));
                    }
                    Some(())
                },
            }
        },
    }
}

fn try_skip_struct_fields(bytes: &[u8], offset: &mut usize) -> (r: Option<()>)
    requires
        bytes@.len() <= isize::MAX,
    ensures
        skip_struct_fields(bytes@, *old(offset) as int) is None ==> r is None,
        skip_struct_fields(bytes@, *old(offset) as int) matches Some(o) ==> r is Some
            && *final(offset) == o,
{
    while *offset < bytes.len()
        invariant
            bytes@.len() <= isize::MAX,
            skip_struct_fields(bytes@, *old(offset) as int) == skip_struct_fields(
                bytes@,
                *offset as int,
            ),
        decreases remaining(bytes@, *offset as int),
    {
        let ghost off0 = *offset;
        proof {
            lemma_fstring_offset(bytes@, off0 as int);
        }
        let name = match try_read_string_at(bytes, offset) {
            None => return None,
            Some(n) => n,
        };
        if text_eq(name.as_str(), "None") {
            return Some(());
        }
        if !name.as_str().is_empty() {
            let ghost o = *offset;
            proof {
                lemma_fstring_offset(bytes@, o as int);
            }
            let pt = match try_read_string_at(bytes, offset) {
                None => return None,
                Some(p) => p,
            };
            if *offset + 8 > bytes.len() {
                return None;
            }
            let size = read_u64_le(bytes, *offset) as usize;
            *offset = *offset + 8;
            if text_eq(pt.as_str(), "StructProperty") {
                let ghost o3 = *offset;
                proof {
                    lemma_fstring_offset(bytes@, o3 as int);
                }
                if try_read_string_at(bytes, offset).is_none() {
                    return None;
                }
                *offset = *offset + 17;
            } else {
                *offset = *offset + 1;
            }
            if *offset > usize::MAX - size {
                return None;
            }
            *offset = *offset + size;
        } else {
            *offset = *offset + 1;
        }
    }
    Some(())
}

/// Strings of an array property (see `array_strings`), `None` where the
/// bytes are malformed.
pub fn try_extract_array_strings(bytes: &[u8], prop_name: &[u8]) -> (r: Option<Vec<String>>)
    requires
        bytes@.len() <= isize::MAX,
    ensures
        array_strings(bytes@, prop_name@) is None ==> r is None,
        array_strings(bytes@, prop_name@) matches Some(k) ==> r is Some && texts(r->0@) == k,
{
    let mut results: Vec<String> = Vec::new();
    assert(texts(results@) =~= Seq::<Seq<char>>::empty());
    let o = match try_prop_header(bytes, prop_name) {
        None => return None,
        Some(None) => return Some(results),
        Some(Some((t, o))) => {
            if !text_eq(t.as_str(), "ArrayProperty") {
                return Some(results);
            }
            o
        },
    };
    let mut offset = o + 8;
    proof {
        lemma_fstring_offset(bytes@, offset as int);
    }
    let et = match try_read_string_at(bytes, &mut offset) {
        None => return None,
        Some(e) => e,
    };
    offset = offset + 1;
    if offset + 4 > bytes.len() {
        return Some(results);
    }
    let count = read_u32_le(bytes, offset);
    offset = offset + 4;
    let ghost total = array_strings(bytes@, prop_name@);
    let mut left = count;
    if text_eq(et.as_str(), "StructProperty") {
        proof {
            lemma_fstring_offset(bytes@, offset as int);
        }
        if try_read_string_at(bytes, &mut offset).is_none() {
            return None;
        }
        proof {
            lemma_fstring_offset(bytes@, offset as int);
        }
        if try_read_string_at(bytes, &mut offset).is_none() {
            return None;
        }
        offset = offset + 8;
        proof {
            lemma_fstring_offset(bytes@, offset as int);
        }
        if try_read_string_at(bytes, &mut offset).is_none() {
            return None;
        }
        offset = offset + 17;
        assert(texts(results@) + struct_elems(bytes@, offset as int, left as nat)->0 =~=
            struct_elems(bytes@, offset as int, left as nat)->0);
        while left > 0 && offset < bytes.len()
            invariant
                bytes@.len() <= isize::MAX,
                total == array_strings(bytes@, prop_name@),
                struct_elems(bytes@, offset as int, left as nat) matches Some(rest) ==> total
                    == Some(texts(results@) + rest),
                struct_elems(bytes@, offset as int, left as nat) is None ==> total is None,
            decreases left,
        {
            let ghost before = results@;
            let ghost off0 = offset;
            if try_quest_name_near(bytes, offset, &mut results).is_none() {
                return None;
            }
            if try_skip_struct_fields(bytes, &mut offset).is_none() {
                return None;
            }
            left = left - 1;
            proof {
                let names = quest_name_near(bytes@, off0 as int)->0;
                match struct_elems(bytes@, offset as int, left as nat) {
                    Some(rest) => {
                        assert(texts(before) + (names + rest) =~= texts(results@) + rest);
                    },
                    None => {},
                }
            }
        }
    } else {
        assert(texts(results@) + plain_elems(bytes@, offset as int, left as nat)->0 =~=
            plain_elems(bytes@, offset as int, left as nat)->0);
        while left > 0 && offset < bytes.len()
            invariant
                bytes@.len() <= isize::MAX,
                total == array_strings(bytes@, prop_name@),
                plain_elems(bytes@, offset as int, left as nat) matches Some(rest) ==> total
                    == Some(texts(results@) + rest),
                plain_elems(bytes@, offset as int, left as nat) is None ==> total is None,
            decreases left,
        {
            let ghost before = results@;
            let ghost off0 = offset;
            proof {
                lemma_fstring_offset(bytes@, offset as int);
            }
            let v = match try_read_string_at(bytes, &mut offset) {
                None => return None,
                Some(v) => v,
            };
            let ghost vv = v@;
            if !v.as_str().is_empty() {
                results.push(v);
            }
            left = left - 1;
            proof {
                match plain_elems(bytes@, offset as int, left as nat) {
                    Some(rest) => {
                        if vv.len() > 0 {
                            assert(texts(before) + (seq![vv] + rest) =~= texts(results@) + rest);
                        } else {
                            assert(texts(results@) =~= texts(before));
                        }
                    },
                    None => {},
                }
            }
        }
    }
    proof {
        assert(texts(results@) + Seq::<Seq<char>>::empty() =~= texts(results@));
    }
    Some(results)
}

/// Strings of an array property (see `array_strings`).
pub fn extract_array_strings(bytes: &[u8], prop_name: &[u8]) -> (r: Vec<String>)
    requires
        bytes@.len() <= isize::MAX,
        array_strings(bytes@, prop_name@) is Some,
    ensures
        texts(r@) == array_strings(bytes@, prop_name@)->0,
{
    match try_extract_array_strings(bytes, prop_name) {
        Some(v) => v,
        None => Vec::new(),
    }
}

} // verus!
