//! Base camps of a world: each `BaseCampSaveData` record's id, owning guild, level and
//! location, read from the bytes that follow its marker.
use vstd::prelude::*;
use vstd::string::StringSliceAdditionalSpecFns;
use vstd::utf8::encode_utf8;
use crate::db::owned;
use crate::guid::{format_guid, guid_text};
use crate::level::zero_guid;
use crate::measure::{vector_floats, try_extract_vector_coords_float, AnyFloat};
use crate::scanner::{
    extract_guid_bytes_prop, find_pattern, guid_bytes_prop, int_prop, pattern_from,
    try_extract_int_prop,
};
use crate::text::lemma_nonempty_bytes;
use crate::wire::{lemma_first_match_found, slice_range};

verus! {

/// The bytes of a camp record read from its marker at `pos`: up to 4000 bytes.
pub open spec fn camp_window(s: Seq<u8>, pos: int) -> Seq<u8> {
    let we = if pos + 4000 < s.len() {
        pos + 4000
    } else {
        s.len() as int
    };
    s.subrange(pos, we)
}

/// `as u32` of a 32-bit signed value.
pub open spec fn wrap_u32(v: int) -> nat {
    if v < 0 {
        (v + 0x1_0000_0000) as nat
    } else {
        v as nat
    }
}

/// The camp level: its `BaseCampLevel` (as `u32`), 1 when missing or 0. `None` where the
/// bytes are malformed.
pub open spec fn camp_level(w: Seq<u8>) -> Option<nat> {
    match pattern_from(w, "BaseCampLevel\0".spec_bytes(), 0) {
        None => Some(1),
        Some(lp) => match int_prop(w.skip(lp), "BaseCampLevel\0".spec_bytes()) {
            None => None,
            Some(v) => if wrap_u32(v) == 0 {
                Some(1)
            } else {
                Some(wrap_u32(v))
            },
        },
    }
}

/// The GUID text of a camp field, read from the field's first occurrence.
pub open spec fn camp_guid(w: Seq<u8>, name: Seq<u8>, at: int) -> Seq<char> {
    match guid_bytes_prop(w.skip(at), name) {
        Some(g) => guid_text(g),
        None => Seq::empty(),
    }
}

/// The owning guild: `GroupIdOfUser` when that field occurs, else `OwnerGroupId`; empty
/// when neither gives a GUID.
pub open spec fn camp_group(w: Seq<u8>) -> Seq<char> {
    match pattern_from(w, "GroupIdOfUser\0".spec_bytes(), 0) {
        Some(gp) => camp_guid(w, "GroupIdOfUser\0".spec_bytes(), gp),
        None => match pattern_from(w, "OwnerGroupId\0".spec_bytes(), 0) {
            Some(op) => camp_guid(w, "OwnerGroupId\0".spec_bytes(), op),
            None => Seq::empty(),
        },
    }
}

/// The camp location: the floats near its `Location` field, zeros without one.
pub open spec fn camp_location(w: Seq<u8>) -> Option<(AnyFloat, AnyFloat, AnyFloat)> {
    match pattern_from(w, "Location\0".spec_bytes(), 0) {
        None => Some((AnyFloat::Double(0), AnyFloat::Double(0), AnyFloat::Double(0))),
        Some(lp) => vector_floats(w, lp),
    }
}

/// A camp as plain values: id, owning guild, level and location.
pub type CampView = (Seq<char>, Seq<char>, nat, (AnyFloat, AnyFloat, AnyFloat));

/// The camp whose marker is at `pos`: its id is the GUID in the 16 bytes before the
/// marker (the zero GUID when there are fewer). `None` where it cannot be read.
pub open spec fn camp_at(s: Seq<u8>, pos: int) -> Option<CampView> {
    let w = camp_window(s, pos);
    match (camp_level(w), camp_location(w)) {
        (Some(level), Some(loc)) => Some(
            (
                if pos >= 16 {
                    guid_text(s.subrange(pos - 16, pos))
                } else {
                    zero_guid()
                },
                camp_group(w),
                level,
                loc,
            ),
        ),
        _ => None,
    }
}

/// The camp marker is not empty.
pub proof fn lemma_camp_marker_nonempty()
    ensures
        "BaseCampSaveData\0".spec_bytes().len() > 0,
{
    reveal_strlit("BaseCampSaveData\0");
    lemma_nonempty_bytes("BaseCampSaveData\0");
}

proof fn lemma_camp_marker_short()
    ensures
        "BaseCampSaveData\0".spec_bytes().len() == 17,
{
    reveal_strlit("BaseCampSaveData\0");
    reveal_with_fuel(encode_utf8, 18);
}

/// The camps at every camp marker from `pos` on, in file order.
pub open spec fn camps_from(s: Seq<u8>, pos: int) -> Option<Seq<CampView>>
    decreases s.len() - pos,
{
    let pat = "BaseCampSaveData\0".spec_bytes();
    if pos < 0 {
        Some(Seq::empty())
    } else {
        match pattern_from(s, pat, pos) {
            None => Some(Seq::empty()),
            Some(p) => {
                proof {
                    lemma_first_match_found(s, pat, pos, s.len() - pat.len() + 1);
                    lemma_camp_marker_nonempty();
                }
                match camp_at(s, p) {
                    None => None,
                    Some(c) => match camps_from(s, p + pat.len()) {
                        None => None,
                        Some(rest) => Some(seq![c] + rest),
                    },
                }
            },
        }
    }
}

/// A base camp as plain values; the location is given as float bit patterns.
#[derive(Debug, Clone)]
pub struct BaseCampSummary {
    pub base_camp_id: String,
    pub group_id: String,
    pub level: u32,
    pub x: AnyFloat,
    pub y: AnyFloat,
    pub z: AnyFloat,
}

/// The view of a camp.
pub open spec fn camp_view(c: BaseCampSummary) -> CampView {
    (c.base_camp_id@, c.group_id@, c.level as nat, (c.x, c.y, c.z))
}

/// Views of a list of camps.
pub open spec fn camps_view(v: Seq<BaseCampSummary>) -> Seq<CampView> {
    v.map_values(|c: BaseCampSummary| camp_view(c))
}

fn try_camp_level(w: &[u8]) -> (r: Option<u32>)
    requires
        w@.len() <= isize::MAX,
    ensures
        camp_level(w@) is None ==> r is None,
        camp_level(w@) matches Some(l) ==> r == Some(l as u32),
{
    let pat = "BaseCampLevel\0".as_bytes();
    let _pl = pat.len();
    match find_pattern(w, pat, 0) {
        None => Some(1),
        Some(lp) => {
            proof {
                lemma_first_match_found(w@, pat@, 0, w@.len() - pat@.len() + 1);
            }
            let sub = slice_range(w, lp, w.len());
            assert(sub@ =~= w@.skip(lp as int));
            match try_extract_int_prop(sub, pat) {
                None => None,
                Some(v) => {
                    let u: u32 = if v < 0 {
                        (v as i64 + 0x1_0000_0000) as u32
                    } else {
                        v as u32
                    };
                    if u == 0 {
                        Some(1)
                    } else {
                        Some(u)
                    }
                },
            }
        },
    }
}

fn try_camp_guid(w: &[u8], name: &[u8], at: usize) -> (r: String)
    requires
        w@.len() <= isize::MAX,
        at + name@.len() <= w@.len(),
    ensures
        r@ == camp_guid(w@, name@, at as int),
{
    let sub = slice_range(w, at, w.len());
    assert(sub@ =~= w@.skip(at as int));
    match extract_guid_bytes_prop(sub, name) {
        Some(g) => format_guid(&g),
        None => String::new(),
    }
}

fn camp_group_of(w: &[u8]) -> (r: String)
    requires
        w@.len() <= isize::MAX,
    ensures
        r@ == camp_group(w@),
{
    let user = "GroupIdOfUser\0".as_bytes();
    let _ul = user.len();
    match find_pattern(w, user, 0) {
        Some(gp) => {
            proof {
                lemma_first_match_found(w@, user@, 0, w@.len() - user@.len() + 1);
            }
            try_camp_guid(w, user, gp)
        },
        None => {
            let owner = "OwnerGroupId\0".as_bytes();
            let _ol = owner.len();
            match find_pattern(w, owner, 0) {
                Some(op) => {
                    proof {
                        lemma_first_match_found(w@, owner@, 0, w@.len() - owner@.len() + 1);
                    }
                    try_camp_guid(w, owner, op)
                },
                None => String::new(),
            }
        },
    }
}

fn try_camp_location(w: &[u8]) -> (r: Option<(AnyFloat, AnyFloat, AnyFloat)>)
    requires
        w@.len() <= isize::MAX,
    ensures
        r == camp_location(w@),
{
    let pat = "Location\0".as_bytes();
    let _pl = pat.len();
    match find_pattern(w, pat, 0) {
        None => Some((AnyFloat::Double(0), AnyFloat::Double(0), AnyFloat::Double(0))),
        Some(lp) => try_extract_vector_coords_float(w, lp),
    }
}

fn try_camp_at(bytes: &[u8], pos: usize) -> (r: Option<BaseCampSummary>)
    requires
        bytes@.len() <= isize::MAX,
        pos <= bytes@.len(),
    ensures
        camp_at(bytes@, pos as int) is None ==> r is None,
        camp_at(bytes@, pos as int) matches Some(c) ==> r matches Some(rc) && camp_view(rc) == c,
{
    let we = if pos + 4000 < bytes.len() {
        pos + 4000
    } else {
        bytes.len()
    };
    let w = slice_range(bytes, pos, we);
    assert(w@ =~= camp_window(bytes@, pos as int));
    let level = try_camp_level(w);
    let loc = try_camp_location(w);
    match (level, loc) {
        (Some(level), Some((x, y, z))) => {
            let id = if pos >= 16 {
                let g = crate::guid::guid_bytes_at(bytes, pos - 16);
                assert(g@ =~= bytes@.subrange(pos - 16, pos as int));
                format_guid(&g)
            } else {
                owned("00000000-0000-0000-0000-000000000000")
            };
            let group = camp_group_of(w);
            Some(BaseCampSummary { base_camp_id: id, group_id: group, level, x, y, z })
        },
        _ => None,
    }
}

/// The camps (see `camps_from`), `None` where the bytes are malformed.
pub fn try_scan_base_camps(bytes: &[u8]) -> (r: Option<Vec<BaseCampSummary>>)
    requires
        bytes@.len() <= isize::MAX,
    ensures
        camps_from(bytes@, 0) is None ==> r is None,
        camps_from(bytes@, 0) matches Some(k) ==> r matches Some(v) && camps_view(v@) == k,
{
    let pat = "BaseCampSaveData\0".as_bytes();
    let mut camps: Vec<BaseCampSummary> = Vec::new();
    let ghost total = camps_from(bytes@, 0);
    let mut last: usize = 0;
    assert(camps_view(camps@) + camps_from(bytes@, 0)->0 =~= camps_from(bytes@, 0)->0);
    loop
        invariant
            bytes@.len() <= isize::MAX,
            pat@ == "BaseCampSaveData\0".spec_bytes(),
            last <= bytes@.len(),
            total == camps_from(bytes@, 0),
            camps_from(bytes@, last as int) matches Some(rest) ==> total == Some(
                camps_view(camps@) + rest,
            ),
            camps_from(bytes@, last as int) is None ==> total is None,
        decreases bytes@.len() - last,
    {
        proof {
            lemma_camp_marker_nonempty();
            lemma_camp_marker_short();
        }
        let p = match find_pattern(bytes, pat, last) {
            None => {
                assert(camps_view(camps@) + Seq::empty() =~= camps_view(camps@));
                return Some(camps);
            },
            Some(p) => p,
        };
        proof {
            lemma_first_match_found(bytes@, pat@, last as int, bytes@.len() - pat@.len() + 1);
        }
        let ghost before = camps@;
        let c = match try_camp_at(bytes, p) {
            None => return None,
            Some(c) => c,
        };
        let ghost cv = camp_view(c);
        camps.push(c);
        last = p + pat.len();
        proof {
            match camps_from(bytes@, last as int) {
                Some(rest) => {
                    assert(camps_view(camps@) =~= camps_view(before) + seq![cv]);
                    assert(camps_view(before) + (seq![cv] + rest) =~= camps_view(camps@) + rest);
                },
                None => {},
            }
        }
    }
}

/// The base camps of a world save in file order: for each `BaseCampSaveData` marker,
/// the camp id (the 16 bytes before the marker), the owning guild, the level and the
/// location, read from the 4000 bytes that follow the marker.
pub fn scan_base_camps(bytes: &[u8]) -> (r: Vec<BaseCampSummary>)
    requires
        bytes@.len() <= isize::MAX,
        camps_from(bytes@, 0) is Some,
    ensures
        camps_view(r@) == camps_from(bytes@, 0)->0,
{
    match try_scan_base_camps(bytes) {
        Some(v) => v,
        None => Vec::new(),
    }
}

} // verus!
