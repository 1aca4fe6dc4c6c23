//! The pals of a player for the full report: each pal record's summary, which of the
//! player's containers it sits in (the party or the pal box), and both lists in slot
//! order.
use vstd::prelude::*;
use vstd::string::StringSliceAdditionalSpecFns;
use crate::analysis::owner_of;
use crate::camps::wrap_u32;
use crate::db::owned;
use crate::guid::guid_text;
use crate::level::CharacterEntry;
use crate::measure::{fixed_point_prop, float_prop, try_extract_fixed_point_prop, try_extract_float_prop};
use crate::scanner::{
    array_strings, byte_prop, extract_guid_bytes_prop, guid_bytes_prop, has_prop, int64_prop,
    int_prop, prop_pos, string_prop, texts, try_extract_array_strings, try_extract_byte_prop,
    try_extract_int64_prop, try_extract_int_prop, try_extract_string_prop,
};
use crate::text::text_eq;

verus! {

broadcast use vstd::string::group_string_axioms;

/// The talents a pal record may hold: the label used in reports and the property name.
pub open spec fn talent_fields() -> Seq<(Seq<char>, Seq<u8>)> {
    seq![
        ("HP"@, "Talent_HP\0".spec_bytes()),
        ("Shot"@, "Talent_Shot\0".spec_bytes()),
        ("Defense"@, "Talent_Defense\0".spec_bytes()),
    ]
}

/// The talents among the first `n` fields that the record has, labelled, with their
/// values as `u32`. `None` where the bytes are malformed.
pub open spec fn talents_of(raw: Seq<u8>, n: nat) -> Option<Seq<(Seq<char>, nat)>>
    decreases n,
{
    if n == 0 {
        Some(Seq::empty())
    } else {
        let k = (n - 1) as nat;
        let (label, name) = talent_fields()[k as int];
        match talents_of(raw, k) {
            None => None,
            Some(rest) => if raw.len() < name.len() {
                None
            } else if prop_pos(raw, name) is Some {
                match int_prop(raw, name) {
                    None => None,
                    Some(v) => Some(rest.push((label, wrap_u32(v)))),
                }
            } else {
                Some(rest)
            },
        }
    }
}

/// A pal of the full report: id, gender, level, experience, health and maximum health
/// (in thousandths), fullness (an `f32` bit pattern), physical health, friendship,
/// talents, passive skills and slot.
pub type PalView = (
    Seq<char>,
    Seq<char>,
    nat,
    nat,
    int,
    int,
    nat,
    Seq<char>,
    nat,
    Seq<(Seq<char>, nat)>,
    Seq<Seq<char>>,
    nat,
);

/// Text, or a default when it is empty.
pub open spec fn or_default(t: Seq<char>, d: Seq<char>) -> Seq<char> {
    if t.len() == 0 {
        d
    } else {
        t
    }
}

/// The summary of a pal record: `Unknown` for a missing id, a male gender and normal
/// physical health when those are missing, level at least 1. `None` where the
/// bytes are malformed.
pub open spec fn pal_summary(raw: Seq<u8>) -> Option<PalView> {
    match (
        string_prop(raw, "CharacterID\0".spec_bytes()),
        string_prop(raw, "Gender\0".spec_bytes()),
        byte_prop(raw, "Level\0".spec_bytes()),
        int64_prop(raw, "Exp\0".spec_bytes()),
        fixed_point_prop(raw, "Hp\0".spec_bytes()),
        fixed_point_prop(raw, "MaxHp\0".spec_bytes()),
        float_prop(raw, "FullStomach\0".spec_bytes()),
        string_prop(raw, "PhysicalHealth\0".spec_bytes()),
    ) {
        (Some(cid), Some(g), Some(l), Some(x), Some(h), Some(mh), Some(f), Some(ph)) => match (
            int_prop(raw, "FriendshipPoint\0".spec_bytes()),
            int_prop(raw, "SlotIndex\0".spec_bytes()),
            talents_of(raw, 3),
            array_strings(raw, "PassiveSkillList\0".spec_bytes()),
        ) {
            (Some(fr), Some(sl), Some(ts), Some(ps)) => Some(
                (
                    or_default(cid, "Unknown"@),
                    or_default(g, "EPalGenderType::Male"@),
                    if l == 0 {
                        1
                    } else {
                        l
                    },
                    x,
                    h,
                    mh,
                    f,
                    or_default(ph, "EPalStatusPhysicalHealthType::Normal"@),
                    wrap_u32(fr),
                    ts,
                    ps,
                    wrap_u32(sl),
                ),
            ),
            _ => None,
        },
        _ => None,
    }
}

/// A pal of the full report; `hp` and `max_hp` are counts of thousandths and
/// `satiety_bits` is the bit pattern of an `f32`.
#[derive(Debug, Clone)]
pub struct PalSummary {
    pub character_id: String,
    pub gender: String,
    pub level: u32,
    pub exp: u64,
    pub hp: i64,
    pub max_hp: i64,
    pub satiety_bits: u32,
    pub physical_health: String,
    pub friendship: u32,
    pub talents: Vec<(String, u32)>,
    pub passive_skills: Vec<String>,
    pub slot_index: u32,
}

/// Views of labelled values.
pub open spec fn labelled_view(v: Seq<(String, u32)>) -> Seq<(Seq<char>, nat)> {
    v.map_values(|e: (String, u32)| (e.0@, e.1 as nat))
}

/// The view of a pal summary.
pub open spec fn pal_view(p: PalSummary) -> PalView {
    (
        p.character_id@,
        p.gender@,
        p.level as nat,
        p.exp as nat,
        p.hp as int,
        p.max_hp as int,
        p.satiety_bits as nat,
        p.physical_health@,
        p.friendship as nat,
        labelled_view(p.talents@),
        texts(p.passive_skills@),
        p.slot_index as nat,
    )
}

fn to_u32(v: i32) -> (r: u32)
    ensures
        r == wrap_u32(v as int),
{
    if v < 0 {
        (v as i64 + 0x1_0000_0000) as u32
    } else {
        v as u32
    }
}

fn or_default_text(t: String, d: &str) -> (r: String)
    ensures
        r@ == or_default(t@, d@),
{
    if t.as_str().is_empty() {
        owned(d)
    } else {
        t
    }
}

fn talent_field(k: usize) -> (r: (&'static str, &'static [u8]))
    requires
        k < 3,
    ensures
        r.0@ == talent_fields()[k as int].0,
        r.1@ == talent_fields()[k as int].1,
{
    if k == 0 {
        ("HP", "Talent_HP\0".as_bytes())
    } else if k == 1 {
        ("Shot", "Talent_Shot\0".as_bytes())
    } else {
        ("Defense", "Talent_Defense\0".as_bytes())
    }
}

proof fn lemma_talents_none_stays(raw: Seq<u8>, k: nat, n: nat)
    requires
        k <= n,
        talents_of(raw, k) is None,
    ensures
        talents_of(raw, n) is None,
    decreases n - k,
{
    if k < n {
        lemma_talents_none_stays(raw, k, (n - 1) as nat);
    }
}

fn try_talents(raw: &[u8]) -> (r: Option<Vec<(String, u32)>>)
    requires
        raw@.len() <= isize::MAX,
    ensures
        talents_of(raw@, 3) is None ==> r is None,
        talents_of(raw@, 3) matches Some(t) ==> r matches Some(v) && labelled_view(v@) == t,
{
    let mut out: Vec<(String, u32)> = Vec::new();
    let mut k: usize = 0;
    assert(labelled_view(out@) =~= Seq::<(Seq<char>, nat)>::empty());
    while k < 3
        invariant
            k <= 3,
            raw@.len() <= isize::MAX,
            talents_of(raw@, k as nat) == Some(labelled_view(out@)),
        decreases 3 - k,
    {
        let (label, name) = talent_field(k);
        if raw.len() < name.len() {
            proof {
                lemma_talents_none_stays(raw@, (k + 1) as nat, 3);
            }
            return None;
        }
        if has_prop(raw, name) {
            match try_extract_int_prop(raw, name) {
                None => {
                    proof {
                        lemma_talents_none_stays(raw@, (k + 1) as nat, 3);
                    }
                    return None;
                },
                Some(v) => {
                    let ghost before = out@;
                    let entry = (owned(label), to_u32(v));
                    out.push(entry);
                    proof {
                        assert(labelled_view(out@) =~= labelled_view(before).push(
                            (label@, wrap_u32(v as int)),
                        ));
                    }
                },
            }
        }
        k = k + 1;
    }
    Some(out)
}

/// The summary of a pal record (see `pal_summary`), `None` where the bytes are
/// malformed.
pub fn summarize_pal(raw: &[u8]) -> (r: Option<PalSummary>)
    requires
        raw@.len() <= isize::MAX,
    ensures
        pal_summary(raw@) is None ==> r is None,
        pal_summary(raw@) matches Some(v) ==> r matches Some(p) && pal_view(p) == v,
{
    let cid = try_extract_string_prop(raw, "CharacterID\0".as_bytes());
    let gender = try_extract_string_prop(raw, "Gender\0".as_bytes());
    let level = try_extract_byte_prop(raw, "Level\0".as_bytes());
    let exp = try_extract_int64_prop(raw, "Exp\0".as_bytes());
    let hp = try_extract_fixed_point_prop(raw, "Hp\0".as_bytes());
    let max_hp = try_extract_fixed_point_prop(raw, "MaxHp\0".as_bytes());
    let satiety = try_extract_float_prop(raw, "FullStomach\0".as_bytes());
    let ph = try_extract_string_prop(raw, "PhysicalHealth\0".as_bytes());
    let (cid, gender, level, exp, hp, max_hp, satiety, ph) = match (
        cid,
        gender,
        level,
        exp,
        hp,
        max_hp,
        satiety,
        ph,
    ) {
        (Some(a), Some(b), Some(c), Some(d), Some(e), Some(f), Some(g), Some(h)) => (
            a,
            b,
            c,
            d,
            e,
            f,
            g,
            h,
        ),
        _ => return None,
    };
    let friendship = try_extract_int_prop(raw, "FriendshipPoint\0".as_bytes());
    let slot = try_extract_int_prop(raw, "SlotIndex\0".as_bytes());
    let talents = try_talents(raw);
    let passives = try_extract_array_strings(raw, "PassiveSkillList\0".as_bytes());
    match (friendship, slot, talents, passives) {
        (Some(fr), Some(sl), Some(ts), Some(ps)) => {
            let level = if level == 0 {
                1
            } else {
                level
            };
            Some(
                PalSummary {
                    character_id: or_default_text(cid, "Unknown"),
                    gender: or_default_text(gender, "EPalGenderType::Male"),
                    level,
                    exp,
                    hp,
                    max_hp,
                    satiety_bits: satiety,
                    physical_health: or_default_text(ph, "EPalStatusPhysicalHealthType::Normal"),
                    friendship: to_u32(fr),
                    talents: ts,
                    passive_skills: ps,
                    slot_index: to_u32(sl),
                },
            )
        },
        _ => None,
    }
}

/// Where a pal of `player` sits: `Some(Some(true))` in the party container `otomo`,
/// `Some(Some(false))` in the pal box `palbox` (an empty id matches nothing), `Some(None)`
/// for a record of another owner or another container. `None` where the
/// record cannot be read.
pub open spec fn pal_place(raw: Seq<u8>, player: Seq<char>, otomo: Seq<char>, palbox: Seq<char>) -> Option<Option<bool>> {
    if raw.len() < "OwnerPlayerUId\0".spec_bytes().len() {
        None
    } else if owner_of(raw) != player {
        Some(None)
    } else {
        let container = match guid_bytes_prop(raw, "ContainerId\0".spec_bytes()) {
            Some(g) => guid_text(g),
            None => Seq::empty(),
        };
        if otomo.len() > 0 && container == otomo {
            Some(Some(true))
        } else if palbox.len() > 0 && container == palbox {
            Some(Some(false))
        } else {
            Some(None)
        }
    }
}

proof fn lemma_owner_longer()
    ensures
        "OwnerPlayerUId\0".spec_bytes().len() == 15,
        "ContainerId\0".spec_bytes().len() == 12,
{
    reveal_strlit("OwnerPlayerUId\0");
    reveal_strlit("ContainerId\0");
    reveal_with_fuel(vstd::utf8::encode_utf8, 16);
}

fn try_pal_place(raw: &[u8], player: &str, otomo: &str, palbox: &str) -> (r: Option<Option<bool>>)
    requires
        raw@.len() <= isize::MAX,
    ensures
        r == pal_place(raw@, player@, otomo@, palbox@),
{
    let owner_pat = "OwnerPlayerUId\0".as_bytes();
    if raw.len() < owner_pat.len() {
        return None;
    }
    let owner = match extract_guid_bytes_prop(raw, owner_pat) {
        Some(g) => crate::guid::format_guid(&g),
        None => String::new(),
    };
    if !text_eq(owner.as_str(), player) {
        return Some(None);
    }
    let cpat = "ContainerId\0".as_bytes();
    proof {
        lemma_owner_longer();
    }
    let container = match extract_guid_bytes_prop(raw, cpat) {
        Some(g) => crate::guid::format_guid(&g),
        None => String::new(),
    };
    if !otomo.is_empty() && text_eq(container.as_str(), otomo) {
        Some(Some(true))
    } else if !palbox.is_empty() && text_eq(container.as_str(), palbox) {
        Some(Some(false))
    } else {
        Some(None)
    }
}

/// The party and pal-box pals of a player among the first `n` records, in record order.
/// Only records other than the player's own character count, and none do when the
/// player's character was not found (`instance` empty). `None` where a record
/// cannot be read.
#[verifier::opaque]
pub open spec fn player_pals(
    chars: Seq<CharacterEntry>,
    player: Seq<char>,
    instance: Seq<char>,
    otomo: Seq<char>,
    palbox: Seq<char>,
    n: nat,
) -> Option<(Seq<PalView>, Seq<PalView>)>
    decreases n,
{
    if n == 0 {
        Some((Seq::empty(), Seq::empty()))
    } else {
        let k = (n - 1) as nat;
        match player_pals(chars, player, instance, otomo, palbox, k) {
            None => None,
            Some((party, boxed)) => {
                let e = chars[k as int];
                if instance.len() == 0 || e.instance_id@ == instance {
                    Some((party, boxed))
                } else {
                    match pal_place(e.raw_data@, player, otomo, palbox) {
                        None => None,
                        Some(None) => Some((party, boxed)),
                        Some(Some(in_party)) => match pal_summary(e.raw_data@) {
                            None => None,
                            Some(v) => if in_party {
                                Some((party.push(v), boxed))
                            } else {
                                Some((party, boxed.push(v)))
                            },
                        },
                    }
                }
            },
        }
    }
}

/// Inserts `x` into a list ordered by slot after every pal whose slot is not greater:
/// the step of a stable insertion sort.
pub open spec fn insert_by_slot(v: Seq<PalView>, x: PalView) -> Seq<PalView>
    decreases v.len(),
{
    if v.len() == 0 {
        seq![x]
    } else if v.last().11 <= x.11 {
        v.push(x)
    } else {
        insert_by_slot(v.drop_last(), x).push(v.last())
    }
}

/// A list of pals stably sorted by slot, as `sort_by_key` on the slot leaves it.
pub open spec fn sorted_by_slot(l: Seq<PalView>) -> Seq<PalView>
    decreases l.len(),
{
    if l.len() == 0 {
        Seq::empty()
    } else {
        insert_by_slot(sorted_by_slot(l.drop_last()), l.last())
    }
}

/// The pals of a list that sit in slot `k`, in list order.
pub open spec fn pals_in_slot(l: Seq<PalView>, k: nat) -> Seq<PalView> {
    l.filter(in_slot(k))
}

/// Whether a pal sits in slot `k`.
pub open spec fn in_slot(k: nat) -> spec_fn(PalView) -> bool {
    |x: PalView| x.11 == k
}

/// A list of pals is ordered by slot.
pub open spec fn slot_ordered(l: Seq<PalView>) -> bool {
    forall|i: int, j: int| 0 <= i < j < l.len() ==> #[trigger] l[i].11 <= #[trigger] l[j].11
}

proof fn lemma_insert_by_slot(v: Seq<PalView>, x: PalView)
    requires
        slot_ordered(v),
    ensures
        slot_ordered(insert_by_slot(v, x)),
        insert_by_slot(v, x).len() == v.len() + 1,
        forall|i: int|
            0 <= i < insert_by_slot(v, x).len() ==> #[trigger] insert_by_slot(v, x)[i] == x
                || v.contains(insert_by_slot(v, x)[i]),
        forall|k: nat| #[trigger] pals_in_slot(insert_by_slot(v, x), k) == pals_in_slot(v.push(x), k),
    decreases v.len(),
{
    if v.len() == 0 {
        assert(insert_by_slot(v, x) =~= v.push(x));
    } else if v.last().11 <= x.11 {
    } else {
        let w = v.drop_last();
        let last = v.last();
        lemma_insert_by_slot(w, x);
        let m = insert_by_slot(w, x);
        let r = insert_by_slot(v, x);
        assert(r == m.push(last));
        assert forall|i: int| 0 <= i < r.len() implies #[trigger] r[i] == x || v.contains(r[i]) by {
            if i < m.len() {
                assert(r[i] == m[i]);
                if m[i] != x {
                    assert(w.contains(m[i]));
                    let j = choose|j: int| 0 <= j < w.len() && w[j] == m[i];
                    assert(v[j] == w[j]);
                }
            } else {
                assert(v[v.len() - 1] == last);
            }
        }
        assert forall|i: int, j: int| 0 <= i < j < r.len() implies #[trigger] r[i].11
            <= #[trigger] r[j].11 by {
            if j < m.len() {
                assert(r[i] == m[i] && r[j] == m[j]);
            } else {
                assert(r[i] == m[i]);
                if m[i] != x {
                    assert(w.contains(m[i]));
                    let q = choose|q: int| 0 <= q < w.len() && w[q] == m[i];
                    assert(v[q] == w[q]);
                    assert(v[q].11 <= v[v.len() - 1].11);
                }
            }
        }
        assert forall|k: nat| #[trigger] pals_in_slot(r, k) == pals_in_slot(v.push(x), k) by {
            let p = in_slot(k);
            m.lemma_filter_push(last, p);
            w.lemma_filter_push(x, p);
            w.lemma_filter_push(last, p);
            w.push(last).lemma_filter_push(x, p);
            assert(w.push(last) =~= v);
            assert(pals_in_slot(m, k) == pals_in_slot(w.push(x), k));
            assert(m.push(last).filter(p) == pals_in_slot(r, k));
            assert(v.push(x).filter(p) == pals_in_slot(v.push(x), k));
            if p(x) {
                assert(!p(last));
                assert(m.push(last).filter(p) == w.filter(p).push(x));
                assert(v.push(x).filter(p) == w.filter(p).push(x));
            } else if p(last) {
                assert(m.push(last).filter(p) == w.filter(p).push(last));
                assert(v.push(x).filter(p) == w.filter(p).push(last));
            } else {
                assert(m.push(last).filter(p) == w.filter(p));
                assert(v.push(x).filter(p) == w.filter(p));
            }
        }
    }
}

/// Sorting by slot is stable: the result is ordered by slot, and in every slot it holds
/// exactly the pals of the input in that slot, in their input order (so it is a
/// permutation of the input).
pub proof fn lemma_sorted_by_slot(l: Seq<PalView>)
    ensures
        slot_ordered(sorted_by_slot(l)),
        sorted_by_slot(l).len() == l.len(),
        forall|k: nat| #[trigger] pals_in_slot(sorted_by_slot(l), k) == pals_in_slot(l, k),
    decreases l.len(),
{
    if l.len() == 0 {
        assert(slot_ordered(sorted_by_slot(l)));
    } else {
        let w = l.drop_last();
        let last = l.last();
        lemma_sorted_by_slot(w);
        let sw = sorted_by_slot(w);
        lemma_insert_by_slot(sw, last);
        assert forall|k: nat| #[trigger] pals_in_slot(sorted_by_slot(l), k) == pals_in_slot(l, k) by {
            let p = in_slot(k);
            assert(pals_in_slot(sorted_by_slot(l), k) == pals_in_slot(sw.push(last), k));
            sw.lemma_filter_push(last, p);
            w.lemma_filter_push(last, p);
            assert(w.push(last) =~= l);
            assert(pals_in_slot(sw, k) == pals_in_slot(w, k));
        }
    }
}

/// Views of pal summaries.
pub open spec fn pals_view(v: Seq<PalSummary>) -> Seq<PalView> {
    v.map_values(|p: PalSummary| pal_view(p))
}

fn insert_pal(v: &mut Vec<PalSummary>, x: PalSummary)
    ensures
        pals_view(final(v)@) == insert_by_slot(pals_view(old(v)@), pal_view(x)),
    decreases old(v)@.len(),
{
    if v.len() == 0 {
        let ghost xv = pal_view(x);
        v.push(x);
        assert(pals_view(v@) =~= seq![xv]);
        return;
    }
    let ghost old_view = pals_view(v@);
    assert(old_view.last() == pal_view(v@.last()));
    if v[v.len() - 1].slot_index <= x.slot_index {
        let ghost xv = pal_view(x);
        v.push(x);
        assert(pals_view(v@) =~= old_view.push(xv));
    } else {
        let last = v.pop().unwrap();
        assert(pals_view(v@) =~= old_view.drop_last());
        insert_pal(v, x);
        let ghost mid = pals_view(v@);
        let ghost lv = pal_view(last);
        v.push(last);
        assert(pals_view(v@) =~= mid.push(lv));
    }
}

proof fn lemma_player_pals_none_stays(
    chars: Seq<CharacterEntry>,
    player: Seq<char>,
    instance: Seq<char>,
    otomo: Seq<char>,
    palbox: Seq<char>,
    k: nat,
    n: nat,
)
    requires
        k <= n,
        player_pals(chars, player, instance, otomo, palbox, k) is None,
    ensures
        player_pals(chars, player, instance, otomo, palbox, n) is None,
    decreases n - k,
{
    reveal(player_pals);
    if k < n {
        lemma_player_pals_none_stays(chars, player, instance, otomo, palbox, k, (n - 1) as nat);
    }
}

proof fn lemma_player_pals_step(
    chars: Seq<CharacterEntry>,
    player: Seq<char>,
    instance: Seq<char>,
    otomo: Seq<char>,
    palbox: Seq<char>,
    k: nat,
)
    ensures
        player_pals(chars, player, instance, otomo, palbox, 0) == Some(
            (Seq::<PalView>::empty(), Seq::<PalView>::empty()),
        ),
        player_pals(chars, player, instance, otomo, palbox, k + 1) == match player_pals(
            chars,
            player,
            instance,
            otomo,
            palbox,
            k,
        ) {
            None => None,
            Some((party, boxed)) => {
                let e = chars[k as int];
                if instance.len() == 0 || e.instance_id@ == instance {
                    Some((party, boxed))
                } else {
                    match pal_place(e.raw_data@, player, otomo, palbox) {
                        None => None,
                        Some(None) => Some((party, boxed)),
                        Some(Some(in_party)) => match pal_summary(e.raw_data@) {
                            None => None,
                            Some(v) => if in_party {
                                Some((party.push(v), boxed))
                            } else {
                                Some((party, boxed.push(v)))
                            },
                        },
                    }
                }
            },
        },
{
    reveal(player_pals);
}

/// The party and pal-box pals of a player for the full report (see `player_pals`), each
/// list stably sorted by slot; `None` where a record cannot be read.
pub fn collect_player_pals(
    chars: &Vec<CharacterEntry>,
    player_uid: &str,
    instance_id: &str,
    otomo_id: &str,
    palbox_id: &str,
) -> (r: Option<(Vec<PalSummary>, Vec<PalSummary>)>)
    requires
        forall|k: int| 0 <= k < chars@.len() ==> (#[trigger] chars@[k]).raw_data@.len() <= isize::MAX,
    ensures
        player_pals(chars@, player_uid@, instance_id@, otomo_id@, palbox_id@, chars@.len()) is None
            ==> r is None,
        player_pals(chars@, player_uid@, instance_id@, otomo_id@, palbox_id@, chars@.len()) matches Some(
            (party, boxed),
        ) ==> r matches Some((rp, rb)) && pals_view(rp@) == sorted_by_slot(party) && pals_view(
            rb@,
        ) == sorted_by_slot(boxed),
        r matches Some((rp, rb)) ==> slot_ordered(pals_view(rp@)) && slot_ordered(pals_view(rb@)),
{
    let mut party: Vec<PalSummary> = Vec::new();
    let mut boxed: Vec<PalSummary> = Vec::new();
    let ghost mut pl: Seq<PalView> = Seq::empty();
    let ghost mut bl: Seq<PalView> = Seq::empty();
    assert(pals_view(party@) =~= sorted_by_slot(pl));
    assert(pals_view(boxed@) =~= sorted_by_slot(bl));
    proof {
        lemma_player_pals_step(chars@, player_uid@, instance_id@, otomo_id@, palbox_id@, 0);
    }
    let mut k: usize = 0;
    while k < chars.len()
        invariant
            k <= chars@.len(),
            forall|q: int| 0 <= q < chars@.len() ==> (#[trigger] chars@[q]).raw_data@.len() <= isize::MAX,
            player_pals(chars@, player_uid@, instance_id@, otomo_id@, palbox_id@, k as nat) == Some(
                (pl, bl),
            ),
            pals_view(party@) == sorted_by_slot(pl),
            pals_view(boxed@) == sorted_by_slot(bl),
        decreases chars@.len() - k,
    {
        proof {
            lemma_player_pals_step(
                chars@,
                player_uid@,
                instance_id@,
                otomo_id@,
                palbox_id@,
                k as nat,
            );
        }
        let e = &chars[k];
        if instance_id.is_empty() || text_eq(e.instance_id.as_str(), instance_id) {
            k = k + 1;
            continue;
        }
        let raw = e.raw_data.as_slice();
        let place = match try_pal_place(raw, player_uid, otomo_id, palbox_id) {
            None => {
                proof {
                    lemma_player_pals_none_stays(
                        chars@,
                        player_uid@,
                        instance_id@,
                        otomo_id@,
                        palbox_id@,
                        (k + 1) as nat,
                        chars@.len(),
                    );
                }
                return None;
            },
            Some(p) => p,
        };
        match place {
            None => {},
            Some(in_party) => {
                let p = match summarize_pal(raw) {
                    None => {
                        proof {
                            lemma_player_pals_none_stays(
                                chars@,
                                player_uid@,
                                instance_id@,
                                otomo_id@,
                                palbox_id@,
                                (k + 1) as nat,
                                chars@.len(),
                            );
                        }
                        return None;
                    },
                    Some(p) => p,
                };
                let ghost pv = pal_view(p);
                if in_party {
                    proof {
                        assert(pl.push(pv).drop_last() =~= pl);
                        pl = pl.push(pv);
                    }
                    insert_pal(&mut party, p);
                } else {
                    proof {
                        assert(bl.push(pv).drop_last() =~= bl);
                        bl = bl.push(pv);
                    }
                    insert_pal(&mut boxed, p);
                }
            },
        }
        k = k + 1;
    }
    proof {
        lemma_sorted_by_slot(pl);
        lemma_sorted_by_slot(bl);
    }
    Some((party, boxed))
}

} // verus!
