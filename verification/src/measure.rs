//! Readers of floating-point properties. The library keeps no floating-point values:
//! each reader gives the stored bit pattern (or, for fixed-point values, the stored
//! integer count of thousandths), which the caller turns into a float.
use vstd::prelude::*;
use vstd::string::StringSliceAdditionalSpecFns;
use crate::scanner::{pattern_from, prop_header, prop_pos, try_prop_header, find_pattern};
use crate::text::text_eq;
use crate::wire::{
    find_first, first_match, fstring_at, le_u32, le_u64, lemma_first_match_found,
    lemma_fstring_offset, read_u32_le, read_u64_le, try_read_string_at,
};

verus! {

/// Bit pattern of a `FloatProperty` (an `f32`); 0, the pattern of `0.0`, when the
/// property is missing, of another type or cut off. `None`: the bytes are malformed.
pub open spec fn float_prop(s: Seq<u8>, name: Seq<u8>) -> Option<nat> {
    match prop_header(s, name) {
        None => None,
        Some(None) => Some(0),
        Some(Some((t, o))) => if t != "FloatProperty"@ {
            Some(0)
        } else if o + 9 + 4 <= s.len() {
            Some(le_u32(s, o + 9))
        } else {
            Some(0)
        },
    }
}

/// The `f32` bit pattern of a `FloatProperty` (see `float_prop`), `None` where the
/// bytes are malformed.
pub fn try_extract_float_prop(bytes: &[u8], prop_name: &[u8]) -> (r: Option<u32>)
    requires
        bytes@.len() <= isize::MAX,
    ensures
        float_prop(bytes@, prop_name@) is None ==> r is None,
        float_prop(bytes@, prop_name@) matches Some(v) ==> r == Some(v as u32),
{
    match try_prop_header(bytes, prop_name) {
        None => None,
        Some(None) => Some(0),
        Some(Some((t, o))) => {
            if !text_eq(t.as_str(), "FloatProperty") {
                return Some(0);
            }
            if o + 9 + 4 <= bytes.len() {
                Some(read_u32_le(bytes, o + 9))
            } else {
                Some(0)
            }
        },
    }
}

/// The `f32` bit pattern of a `FloatProperty` (see `float_prop`).
pub fn extract_float_prop(bytes: &[u8], prop_name: &[u8]) -> (r: u32)
    requires
        bytes@.len() <= isize::MAX,
        float_prop(bytes@, prop_name@) is Some,
    ensures
        r == float_prop(bytes@, prop_name@)->0,
{
    match try_extract_float_prop(bytes, prop_name) {
        Some(v) => v,
        None => 0,
    }
}

/// Two's complement reading of a 64-bit pattern.
pub open spec fn as_i64(u: nat) -> int {
    if u < 0x8000_0000_0000_0000 {
        u as int
    } else {
        u - 0x1_0000_0000_0000_0000
    }
}

fn u64_to_i64(u: u64) -> (r: i64)
    ensures
        r == as_i64(u as nat),
{
    if u < 0x8000_0000_0000_0000 {
        u as i64
    } else {
        let d = (u - 0x8000_0000_0000_0000) as i64;
        d - 0x7fff_ffff_ffff_ffff - 1
    }
}

/// A fixed-point property (such as `Hp`) in thousandths: the `Int64Property` named
/// `Value` that starts within 120 bytes of the first occurrence of `name`; 0 when either
/// is missing, of another type or cut off. The value itself is this count divided by
/// 1000. `None`: the bytes are malformed.
pub open spec fn fixed_point_prop(s: Seq<u8>, name: Seq<u8>) -> Option<int> {
    if s.len() < name.len() {
        None
    } else {
        match prop_pos(s, name) {
            None => Some(0),
            Some(pos) => {
                let hi = if pos + 120 < s.len() {
                    pos + 120
                } else {
                    s.len() as int
                };
                match first_match(s, "Value\0".spec_bytes(), pos, hi) {
                    None => Some(0),
                    Some(v) => match fstring_at(s, v + "Value\0".spec_bytes().len()) {
                        None => None,
                        Some((t, o)) => if t != "Int64Property"@ {
                            Some(0)
                        } else if o + 9 + 8 <= s.len() {
                            Some(as_i64(le_u64(s, o + 9)))
                        } else {
                            Some(0)
                        },
                    },
                }
            },
        }
    }
}

/// A fixed-point property in thousandths (see `fixed_point_prop`), `None` where the
/// bytes are malformed.
pub fn try_extract_fixed_point_prop(bytes: &[u8], prop_name: &[u8]) -> (r: Option<i64>)
    requires
        bytes@.len() <= isize::MAX,
    ensures
        fixed_point_prop(bytes@, prop_name@) is None ==> r is None,
        fixed_point_prop(bytes@, prop_name@) matches Some(v) ==> r == Some(v as i64),
{
    if bytes.len() < prop_name.len() {
        return None;
    }
    let pos = match find_first(bytes, prop_name, 0, bytes.len() - prop_name.len()) {
        None => return Some(0),
        Some(p) => p,
    };
    proof {
        lemma_first_match_found(bytes@, prop_name@, 0, bytes@.len() - prop_name@.len());
    }
    let hi = if pos + 120 < bytes.len() {
        pos + 120
    } else {
        bytes.len()
    };
    let pat = "Value\0".as_bytes();
    let v = match find_first(bytes, pat, pos, hi) {
        None => return Some(0),
        Some(v) => v,
    };
    proof {
        lemma_first_match_found(bytes@, pat@, pos as int, hi as int);
        lemma_fstring_offset(bytes@, v + pat@.len());
    }
    let mut offset = v + pat.len();
    let t = match try_read_string_at(bytes, &mut offset) {
        None => return None,
        Some(t) => t,
    };
    if !text_eq(t.as_str(), "Int64Property") {
        return Some(0);
    }
    if offset + 9 + 8 <= bytes.len() {
        Some(u64_to_i64(read_u64_le(bytes, offset + 9)))
    } else {
        Some(0)
    }
}

/// A fixed-point property in thousandths (see `fixed_point_prop`).
pub fn extract_fixed_point_prop(bytes: &[u8], prop_name: &[u8]) -> (r: i64)
    requires
        bytes@.len() <= isize::MAX,
        fixed_point_prop(bytes@, prop_name@) is Some,
    ensures
        r == fixed_point_prop(bytes@, prop_name@)->0,
{
    match try_extract_fixed_point_prop(bytes, prop_name) {
        Some(v) => v,
        None => 0,
    }
}

/// A float of either width, as its bit pattern.
#[derive(Clone, Copy, PartialEq, Eq, Structural, Debug)]
pub enum AnyFloat {
    /// An `f32` (a `FloatProperty`).
    Single(u32),
    /// An `f64` (a `DoubleProperty`); `Double(0)` also stands for a missing value.
    Double(u64),
}

/// A `FloatProperty` or `DoubleProperty` as its bit pattern; `0.0` (`Double(0)`) when the
/// property is missing, of another type or cut off. `None`: the bytes are malformed.
pub open spec fn any_float_prop(s: Seq<u8>, name: Seq<u8>) -> Option<AnyFloat> {
    match prop_header(s, name) {
        None => None,
        Some(None) => Some(AnyFloat::Double(0)),
        Some(Some((t, o))) => if t == "FloatProperty"@ && o + 9 + 4 <= s.len() {
            Some(AnyFloat::Single(le_u32(s, o + 9) as u32))
        } else if t == "DoubleProperty"@ && o + 9 + 8 <= s.len() {
            Some(AnyFloat::Double(le_u64(s, o + 9) as u64))
        } else {
            Some(AnyFloat::Double(0))
        },
    }
}

/// A float property of either width (see `any_float_prop`), `None` where the
/// bytes are malformed.
pub fn try_extract_any_float_prop(bytes: &[u8], prop_name: &[u8]) -> (r: Option<AnyFloat>)
    requires
        bytes@.len() <= isize::MAX,
    ensures
        r == any_float_prop(bytes@, prop_name@),
{
    match try_prop_header(bytes, prop_name) {
        None => None,
        Some(None) => Some(AnyFloat::Double(0)),
        Some(Some((t, o))) => {
            if text_eq(t.as_str(), "FloatProperty") && o + 9 + 4 <= bytes.len() {
                Some(AnyFloat::Single(read_u32_le(bytes, o + 9)))
            } else if text_eq(t.as_str(), "DoubleProperty") && o + 9 + 8 <= bytes.len() {
                Some(AnyFloat::Double(read_u64_le(bytes, o + 9)))
            } else {
                Some(AnyFloat::Double(0))
            }
        },
    }
}

/// A float property of either width (see `any_float_prop`).
pub fn extract_any_float_prop(bytes: &[u8], prop_name: &[u8]) -> (r: AnyFloat)
    requires
        bytes@.len() <= isize::MAX,
        any_float_prop(bytes@, prop_name@) is Some,
    ensures
        r == any_float_prop(bytes@, prop_name@)->0,
{
    match try_extract_any_float_prop(bytes, prop_name) {
        Some(v) => v,
        None => AnyFloat::Double(0),
    }
}

/// One coordinate of a location: the float property `name` read from its first
/// occurrence in the window (`0.0` when it does not occur).
pub open spec fn coord_in(w: Seq<u8>, name: Seq<u8>) -> Option<AnyFloat> {
    match pattern_from(w, name, 0) {
        None => Some(AnyFloat::Double(0)),
        Some(p) => any_float_prop(w.skip(p), name),
    }
}

/// The 500 bytes from `offset` (fewer at the end of the buffer).
pub open spec fn location_window(s: Seq<u8>, offset: int) -> Seq<u8> {
    let we = if offset + 500 < s.len() {
        offset + 500
    } else {
        s.len() as int
    };
    s.subrange(offset, we)
}

/// The `X`, `Y` and `Z` float properties found in the 500 bytes from `offset`; `None`
/// where the bytes are malformed (an offset past the end, or a coordinate that
/// cannot be read).
pub open spec fn vector_floats(s: Seq<u8>, offset: int) -> Option<(AnyFloat, AnyFloat, AnyFloat)> {
    if offset < 0 || offset > s.len() {
        None
    } else {
        let w = location_window(s, offset);
        match (coord_in(w, "X\0".spec_bytes()), coord_in(w, "Y\0".spec_bytes()), coord_in(w, "Z\0".spec_bytes())) {
            (Some(x), Some(y), Some(z)) => Some((x, y, z)),
            _ => None,
        }
    }
}

fn try_coord(w: &[u8], name: &[u8]) -> (r: Option<AnyFloat>)
    requires
        w@.len() <= isize::MAX,
    ensures
        r == coord_in(w@, name@),
{
    let _n = name.len();
    match find_pattern(w, name, 0) {
        None => Some(AnyFloat::Double(0)),
        Some(p) => {
            proof {
                lemma_first_match_found(w@, name@, 0, w@.len() - name@.len() + 1);
            }
            let sub = crate::wire::slice_range(w, p, w.len());
            assert(sub@ =~= w@.skip(p as int));
            try_extract_any_float_prop(sub, name)
        },
    }
}

/// The location floats near `offset` (see `vector_floats`), `None` where the
/// bytes are malformed.
pub fn try_extract_vector_coords_float(bytes: &[u8], offset: usize) -> (r: Option<(AnyFloat, AnyFloat, AnyFloat)>)
    requires
        bytes@.len() <= isize::MAX,
    ensures
        r == vector_floats(bytes@, offset as int),
{
    if offset > bytes.len() {
        return None;
    }
    let we = if offset + 500 < bytes.len() {
        offset + 500
    } else {
        bytes.len()
    };
    let w = crate::wire::slice_range(bytes, offset, we);
    assert(w@ =~= location_window(bytes@, offset as int));
    let x = try_coord(w, "X\0".as_bytes());
    let y = try_coord(w, "Y\0".as_bytes());
    let z = try_coord(w, "Z\0".as_bytes());
    match (x, y, z) {
        (Some(x), Some(y), Some(z)) => Some((x, y, z)),
        _ => None,
    }
}

/// The location floats near `offset` (see `vector_floats`).
pub fn extract_vector_coords_float(bytes: &[u8], offset: usize) -> (r: (AnyFloat, AnyFloat, AnyFloat))
    requires
        bytes@.len() <= isize::MAX,
        vector_floats(bytes@, offset as int) is Some,
    ensures
        r == vector_floats(bytes@, offset as int)->0,
{
    match try_extract_vector_coords_float(bytes, offset) {
        Some(v) => v,
        None => (AnyFloat::Double(0), AnyFloat::Double(0), AnyFloat::Double(0)),
    }
}

} // verus!
