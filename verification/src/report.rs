//! What the reports compute from save data: the in-game clock, capture bonus progress,
//! chest search matching and the breeding pairs of a player's team.
use vstd::prelude::*;
use vstd::string::StringSliceAdditionalSpecFns;
use vstd::utf8::{decode_utf8, encode_utf8};
use crate::db::{bytes_le, bytes_le_exec, child_of, exception_for, breed_power_of_name, valid_pal, owned, PalDb};
use crate::i18n::{translation, I18n, Language};
use crate::level::{insert_sorted, sorted_set, CharacterEntry};
use crate::guid::guid_text;
use crate::scanner::{
    bool_prop, extract_guid_bytes_prop, guid_bytes_prop, string_prop, try_extract_bool_prop,
    try_extract_string_prop,
};
use crate::text::{decimal, has_sub, lowercase, push_char, text_contains, to_lowercase};

verus! {

broadcast use vstd::string::group_string_axioms;

/// The in-game calendar and clock.
#[derive(Debug, Clone)]
pub struct GameClock {
    pub day: u64,
    pub hour: u64,
    pub minute: u64,
    pub is_day: bool,
}

/// Game ticks per day, hour and minute (ten million ticks per second).
pub open spec fn ticks_per_day() -> nat {
    864_000_000_000
}

pub open spec fn ticks_per_hour() -> nat {
    36_000_000_000
}

pub open spec fn ticks_per_minute() -> nat {
    600_000_000
}

/// The clock for a tick count: day number (from 1), hour and minute of the day, and
/// whether it is daytime (06:00 to 19:59).
pub open spec fn clock_of(ticks: nat) -> (nat, nat, nat, bool) {
    let day = ticks / ticks_per_day() + 1;
    let rest = ticks % ticks_per_day();
    let hour = rest / ticks_per_hour();
    let minute = (rest % ticks_per_hour()) / ticks_per_minute();
    (day, hour, minute, 6 <= hour && hour < 20)
}

/// The in-game clock for the world's `GameDateTimeTicks` (see `clock_of`).
pub fn game_clock(ticks: u64) -> (r: GameClock)
    ensures
        (r.day as nat, r.hour as nat, r.minute as nat, r.is_day) == clock_of(ticks as nat),
        r.hour < 24,
        r.minute < 60,
        r.is_day == (6 <= r.hour && r.hour < 20),
{
    let ticks_per_day: u64 = 864_000_000_000;
    let ticks_per_hour: u64 = 36_000_000_000;
    let ticks_per_minute: u64 = 600_000_000;
    let day = ticks / ticks_per_day + 1;
    let rest = ticks % ticks_per_day;
    let hour = rest / ticks_per_hour;
    let minute = (rest % ticks_per_hour) / ticks_per_minute;
    assert(hour < 24) by (nonlinear_arith)
        requires
            rest < 864_000_000_000,
            hour == rest / 36_000_000_000,
    ;
    assert(minute < 60) by (nonlinear_arith)
        requires
            minute == (rest % 36_000_000_000) / 600_000_000,
    ;
    GameClock { day, hour, minute, is_day: 6 <= hour && hour < 20 }
}

/// The clock read straight off the tick count: the day is the number of whole days
/// elapsed plus one, the hour is the number of whole hours elapsed modulo 24, the minute
/// is the number of whole minutes elapsed modulo 60, and it is daytime exactly from 06:00
/// up to (not including) 20:00.
pub proof fn lemma_clock_fields(t: nat)
    ensures
        clock_of(t).0 == t / 864_000_000_000 + 1,
        clock_of(t).1 == (t / 36_000_000_000) % 24,
        clock_of(t).2 == (t / 600_000_000) % 60,
        clock_of(t).3 <==> (6 <= (t / 36_000_000_000) % 24 && (t / 36_000_000_000) % 24 < 20),
{
    let x = t as int;
    vstd::arithmetic::div_mod::lemma_mod_breakdown(x, 36_000_000_000, 24);
    assert(36_000_000_000int * 24 == 864_000_000_000int);
    let rest = x % 864_000_000_000;
    let q = (x / 36_000_000_000) % 24;
    let r = x % 36_000_000_000;
    assert(0 <= q < 24);
    vstd::arithmetic::div_mod::lemma_fundamental_div_mod_converse(rest, 36_000_000_000, q, r);
    vstd::arithmetic::div_mod::lemma_mod_breakdown(x, 600_000_000, 60);
    assert(600_000_000int * 60 == 36_000_000_000int);
    let q2 = (x / 600_000_000) % 60;
    let r2 = x % 600_000_000;
    vstd::arithmetic::div_mod::lemma_fundamental_div_mod_converse(r, 600_000_000, q2, r2);
}

/// A number in decimal, padded with a leading zero to at least two digits (`{:02}`).
pub open spec fn two_digits(n: nat) -> Seq<char> {
    if n < 10 {
        seq!['0'] + decimal(n)
    } else {
        decimal(n)
    }
}

/// The clock as `HH:MM`, each part at least two digits.
pub fn clock_text(hour: u64, minute: u64) -> (r: String)
    ensures
        r@ == two_digits(hour as nat) + seq![':'] + two_digits(minute as nat),
{
    let mut out = String::new();
    if hour < 10 {
        push_char(&mut out, '0');
    }
    let h = crate::text::u64_text(hour);
    crate::db::append_text(&mut out, h.as_str());
    push_char(&mut out, ':');
    if minute < 10 {
        push_char(&mut out, '0');
    }
    let m = crate::text::u64_text(minute);
    crate::db::append_text(&mut out, m.as_str());
    assert(out@ =~= two_digits(hour as nat) + seq![':'] + two_digits(minute as nat));
    out
}

/// Captures of one species needed for its capture bonus.
pub open spec fn bonus_target() -> nat {
    10
}

/// Whether the capture bonus is complete, and how many captures it still needs.
pub fn capture_bonus(count: u32) -> (r: (bool, u32))
    ensures
        r.0 == (count >= bonus_target()),
        r.1 == (if count >= bonus_target() {
            0
        } else {
            bonus_target() - count
        }),
{
    if count >= 10 {
        (true, 0)
    } else {
        (false, 10 - count)
    }
}

/// A chest search hit: the lowercased query occurs in the lowercased item id or in the
/// lowercased display name.
pub open spec fn item_matches(item_id: Seq<char>, item_name: Seq<char>, query_lower: Seq<char>) -> bool {
    has_sub(lowercase(item_id), query_lower) || has_sub(lowercase(item_name), query_lower)
}

/// Whether an item is a hit for a (lowercased) chest search query.
pub fn item_matches_query(item_id: &str, item_name: &str, query_lower: &str) -> (r: bool)
    ensures
        r == item_matches(item_id@, item_name@, query_lower@),
{
    let id_lower = to_lowercase(item_id);
    if text_contains(id_lower.as_str(), query_lower) {
        return true;
    }
    let name_lower = to_lowercase(item_name);
    text_contains(name_lower.as_str(), query_lower)
}


/// How one character record counts for a player's breeding team: `Some((is_male,
/// name))` for a non-player, valid pal owned by the player with a male or female gender,
/// named by its translation; inner `None` for any other record; outer `None` where the
/// bytes are malformed on its bytes.
#[verifier::opaque]
pub open spec fn team_member(db: PalDb, i: I18n, raw: Seq<u8>, player: Seq<char>) -> Option<Option<(bool, Seq<char>)>> {
    match bool_prop(raw, "IsPlayer\0".spec_bytes()) {
        None => None,
        Some(true) => Some(None),
        Some(false) => if raw.len() < "OwnerPlayerUId\0".spec_bytes().len() {
            None
        } else {
            let owner = match guid_bytes_prop(raw, "OwnerPlayerUId\0".spec_bytes()) {
                Some(g) => guid_text(g),
                None => Seq::empty(),
            };
            if owner != player {
                Some(None)
            } else {
                match string_prop(raw, "CharacterID\0".spec_bytes()) {
                    None => None,
                    Some(cid) => if cid.len() == 0 || !valid_pal(db.pals@, cid) {
                        Some(None)
                    } else {
                        let name = translation(db, i.current, i.es@, i.en@, cid);
                        match string_prop(raw, "Gender\0".spec_bytes()) {
                            None => None,
                            Some(g) => if has_sub(g, "Male"@) {
                                Some(Some((true, name)))
                            } else if has_sub(g, "Female"@) {
                                Some(Some((false, name)))
                            } else {
                                Some(None)
                            },
                        }
                    },
                }
            }
        },
    }
}

/// The male and female names (in record order, repeats included) among the first `n`
/// records; `None` where one cannot be read.
pub open spec fn team_lists(db: PalDb, i: I18n, chars: Seq<CharacterEntry>, player: Seq<char>, n: nat) -> Option<(Seq<Seq<char>>, Seq<Seq<char>>)>
    decreases n,
{
    if n == 0 {
        Some((Seq::empty(), Seq::empty()))
    } else {
        let k = (n - 1) as nat;
        match team_lists(db, i, chars, player, k) {
            None => None,
            Some((m, f)) => match team_member(db, i, chars[k as int].raw_data@, player) {
                None => None,
                Some(None) => Some((m, f)),
                Some(Some((true, name))) => Some((m.push(name), f)),
                Some(Some((false, name))) => Some((m, f.push(name))),
            },
        }
    }
}

proof fn lemma_team_none_stays(db: PalDb, i: I18n, chars: Seq<CharacterEntry>, player: Seq<char>, k: nat, n: nat)
    requires
        k <= n,
        team_lists(db, i, chars, player, k) is None,
    ensures
        team_lists(db, i, chars, player, n) is None,
    decreases n - k,
{
    if k < n {
        lemma_team_none_stays(db, i, chars, player, k, (n - 1) as nat);
    }
}

/// A player's breeding team: the male and female pal names as ordered sets.
pub open spec fn breeding_team(db: PalDb, i: I18n, chars: Seq<CharacterEntry>, player: Seq<char>) -> Option<(Seq<Seq<char>>, Seq<Seq<char>>)> {
    match team_lists(db, i, chars, player, chars.len()) {
        None => None,
        Some((m, f)) => Some((sorted_set(m), sorted_set(f))),
    }
}

/// The GUID text of a record's `OwnerPlayerUId`, empty when it has none.
pub open spec fn record_owner(raw: Seq<u8>) -> Seq<char> {
    match guid_bytes_prop(raw, "OwnerPlayerUId\0".spec_bytes()) {
        Some(g) => guid_text(g),
        None => Seq::empty(),
    }
}

/// A record contributes `name` to the player's male (`male`) or female team: it is not a
/// player character, its owner is the player, `name` is the translation of its
/// `CharacterID`, and its gender names that sex.
pub open spec fn team_pal(db: PalDb, i: I18n, raw: Seq<u8>, player: Seq<char>, male: bool, name: Seq<char>) -> bool {
    &&& bool_prop(raw, "IsPlayer\0".spec_bytes()) == Some(false)
    &&& record_owner(raw) == player
    &&& string_prop(raw, "CharacterID\0".spec_bytes()) matches Some(cid) && name == translation(
        db,
        i.current,
        i.es@,
        i.en@,
        cid,
    )
    &&& string_prop(raw, "Gender\0".spec_bytes()) matches Some(g) && (if male {
        has_sub(g, "Male"@)
    } else {
        has_sub(g, "Female"@)
    })
}

proof fn lemma_team_lists_owned(db: PalDb, i: I18n, chars: Seq<CharacterEntry>, player: Seq<char>, n: nat)
    requires
        n <= chars.len(),
    ensures
        team_lists(db, i, chars, player, n) matches Some((m, f)) ==> {
            &&& forall|x: Seq<char>| #[trigger] m.contains(x) ==> exists|k: int|
                0 <= k < n && team_pal(db, i, #[trigger] chars[k].raw_data@, player, true, x)
            &&& forall|x: Seq<char>| #[trigger] f.contains(x) ==> exists|k: int|
                0 <= k < n && team_pal(db, i, #[trigger] chars[k].raw_data@, player, false, x)
        },
    decreases n,
{
    if n > 0 {
        let k = (n - 1) as nat;
        lemma_team_lists_owned(db, i, chars, player, k);
        reveal(team_member);
        if let Some((m0, f0)) = team_lists(db, i, chars, player, k) {
            let raw = chars[k as int].raw_data@;
            match team_member(db, i, raw, player) {
                Some(Some((male, name))) => {
                    assert(team_pal(db, i, raw, player, male, name));
                    let (m, f) = team_lists(db, i, chars, player, n)->0;
                    assert forall|x: Seq<char>| #[trigger] m.contains(x) implies exists|j: int|
                        0 <= j < n && team_pal(db, i, #[trigger] chars[j].raw_data@, player, true, x) by {
                        if male && x == name {
                            assert(team_pal(db, i, chars[k as int].raw_data@, player, true, x));
                        } else {
                            if male {
                                let q = choose|q: int| 0 <= q < m.len() && m[q] == x;
                                assert(m0[q] == x);
                                assert(m0.contains(x));
                            }
                        }
                    }
                    assert forall|x: Seq<char>| #[trigger] f.contains(x) implies exists|j: int|
                        0 <= j < n && team_pal(db, i, #[trigger] chars[j].raw_data@, player, false, x) by {
                        if !male && x == name {
                            assert(team_pal(db, i, chars[k as int].raw_data@, player, false, x));
                        } else {
                            if !male {
                                let q = choose|q: int| 0 <= q < f.len() && f[q] == x;
                                assert(f0[q] == x);
                                assert(f0.contains(x));
                            }
                        }
                    }
                },
                _ => {},
            }
        }
    }
}

/// A record that the player's team must list: one that contributes `name` (see
/// `team_pal`) with a non-empty `CharacterID` naming a known pal, and, for the female
/// team, a gender that does not also name the male sex.
pub open spec fn team_candidate(db: PalDb, i: I18n, raw: Seq<u8>, player: Seq<char>, male: bool, name: Seq<char>) -> bool {
    &&& team_pal(db, i, raw, player, male, name)
    &&& string_prop(raw, "CharacterID\0".spec_bytes()) matches Some(cid) && cid.len() > 0
        && valid_pal(db.pals@, cid)
    &&& string_prop(raw, "Gender\0".spec_bytes()) matches Some(g) && (male || !has_sub(g, "Male"@))
}

proof fn lemma_team_lists_complete(db: PalDb, i: I18n, chars: Seq<CharacterEntry>, player: Seq<char>, n: nat)
    requires
        n <= chars.len(),
    ensures
        team_lists(db, i, chars, player, n) matches Some((m, f)) ==> forall|k: int, male: bool, x: Seq<char>|
            0 <= k < n && #[trigger] team_candidate(db, i, chars[k].raw_data@, player, male, x) ==> (
            if male {
                m.contains(x)
            } else {
                f.contains(x)
            }),
    decreases n,
{
    if n > 0 {
        let k = (n - 1) as nat;
        lemma_team_lists_complete(db, i, chars, player, k);
        reveal(team_member);
        if let Some((m, f)) = team_lists(db, i, chars, player, n) {
            let (m0, f0) = team_lists(db, i, chars, player, k)->0;
            let rawk = chars[k as int].raw_data@;
            assert(m0.is_prefix_of(m) && f0.is_prefix_of(f));
            assert forall|j: int, male: bool, x: Seq<char>|
                0 <= j < n && #[trigger] team_candidate(db, i, chars[j].raw_data@, player, male, x) implies (
                if male {
                    m.contains(x)
                } else {
                    f.contains(x)
                }) by {
                if j < k {
                    if male {
                        assert(m0.contains(x));
                        let q = choose|q: int| 0 <= q < m0.len() && m0[q] == x;
                        assert(m[q] == x);
                    } else {
                        assert(f0.contains(x));
                        let q = choose|q: int| 0 <= q < f0.len() && f0[q] == x;
                        assert(f[q] == x);
                    }
                } else {
                    assert(team_member(db, i, rawk, player) == Some(Some((male, x))));
                    if male {
                        assert(m[m.len() - 1] == x);
                    } else {
                        assert(f[f.len() - 1] == x);
                    }
                }
            }
        }
    }
}

/// Byte order is antisymmetric: two byte strings each not greater than the other are equal.
pub proof fn lemma_bytes_le_antisym(a: Seq<u8>, b: Seq<u8>)
    requires
        bytes_le(a, b),
        bytes_le(b, a),
    ensures
        a == b,
    decreases a.len(),
{
    if a.len() > 0 && b.len() > 0 {
        lemma_bytes_le_antisym(a.drop_first(), b.drop_first());
        assert(a =~= seq![a[0]] + a.drop_first());
        assert(b =~= seq![b[0]] + b.drop_first());
    } else {
        assert(a =~= b);
    }
}

/// A list of texts strictly increasing in byte order: ordered, without repeats.
pub open spec fn strictly_ordered(v: Seq<Seq<char>>) -> bool {
    forall|a: int, b: int|
        0 <= a < b < v.len() ==> #[trigger] v[a] != #[trigger] v[b] && bytes_le(
            encode_utf8(v[a]),
            encode_utf8(v[b]),
        )
}

proof fn lemma_insert_sorted_strict(v: Seq<Seq<char>>, x: Seq<char>)
    requires
        strictly_ordered(v),
    ensures
        strictly_ordered(insert_sorted(v, x)),
        forall|y: Seq<char>| #[trigger] insert_sorted(v, x).contains(y) <==> (y == x || v.contains(y)),
    decreases v.len(),
{
    broadcast use vstd::utf8::encode_utf8_decode_utf8;

    let r = insert_sorted(v, x);
    if v.len() == 0 {
        assert forall|y: Seq<char>| #[trigger] r.contains(y) <==> (y == x || v.contains(y)) by {
            if y == x {
                assert(r[0] == x);
            }
        }
    } else if v[0] == x {
        assert forall|y: Seq<char>| #[trigger] r.contains(y) <==> (y == x || v.contains(y)) by {
            if y == x {
                assert(v[0] == x);
            }
        }
    } else if bytes_le(encode_utf8(x), encode_utf8(v[0])) {
        assert(r == seq![x] + v);
        assert forall|a: int, b: int| 0 <= a < b < r.len() implies #[trigger] r[a] != #[trigger] r[b]
            && bytes_le(encode_utf8(r[a]), encode_utf8(r[b])) by {
            if a == 0 {
                assert(r[0] == x && r[b] == v[b - 1]);
                if b > 1 {
                    assert(v[0] != v[b - 1] && bytes_le(encode_utf8(v[0]), encode_utf8(v[b - 1])));
                    crate::db::lemma_bytes_le_trans(encode_utf8(x), encode_utf8(v[0]), encode_utf8(v[b - 1]));
                    if x == v[b - 1] {
                        lemma_bytes_le_antisym(encode_utf8(x), encode_utf8(v[0]));
                        assert(decode_utf8(encode_utf8(x)) == x);
                        assert(decode_utf8(encode_utf8(v[0])) == v[0]);
                    }
                }
            } else {
                assert(r[a] == v[a - 1] && r[b] == v[b - 1]);
            }
        }
        assert forall|y: Seq<char>| #[trigger] r.contains(y) <==> (y == x || v.contains(y)) by {
            if r.contains(y) {
                let q = choose|q: int| 0 <= q < r.len() && r[q] == y;
                if q > 0 {
                    assert(v[q - 1] == y);
                }
            }
            if y == x {
                assert(r[0] == y);
            } else if v.contains(y) {
                let q = choose|q: int| 0 <= q < v.len() && v[q] == y;
                assert(r[q + 1] == y);
            }
        }
    } else {
        let t = v.drop_first();
        assert forall|a: int, b: int| 0 <= a < b < t.len() implies #[trigger] t[a] != #[trigger] t[b]
            && bytes_le(encode_utf8(t[a]), encode_utf8(t[b])) by {
            assert(t[a] == v[a + 1] && t[b] == v[b + 1]);
        }
        lemma_insert_sorted_strict(t, x);
        let rt = insert_sorted(t, x);
        assert(r == seq![v[0]] + rt);
        crate::db::lemma_bytes_le_total(encode_utf8(x), encode_utf8(v[0]));
        assert forall|a: int, b: int| 0 <= a < b < r.len() implies #[trigger] r[a] != #[trigger] r[b]
            && bytes_le(encode_utf8(r[a]), encode_utf8(r[b])) by {
            if a == 0 {
                let e = rt[b - 1];
                assert(r[0] == v[0]);
                assert(r[b] == e);
                assert(rt.contains(e));
                if e != x {
                    assert(t.contains(e));
                    let q = choose|q: int| 0 <= q < t.len() && t[q] == e;
                    assert(v[q + 1] == e);
                    assert(v[0] != v[q + 1] && bytes_le(encode_utf8(v[0]), encode_utf8(v[q + 1])));
                } else {
                    assert(bytes_le(encode_utf8(v[0]), encode_utf8(x)));
                }
            } else {
                assert(r[a] == rt[a - 1] && r[b] == rt[b - 1]);
            }
        }
        assert forall|y: Seq<char>| #[trigger] r.contains(y) <==> (y == x || v.contains(y)) by {
            if r.contains(y) {
                let q = choose|q: int| 0 <= q < r.len() && r[q] == y;
                if q == 0 {
                    assert(v[0] == y);
                } else {
                    assert(rt[q - 1] == y);
                    assert(rt.contains(y));
                    if y != x {
                        assert(t.contains(y));
                        let p = choose|p: int| 0 <= p < t.len() && t[p] == y;
                        assert(v[p + 1] == y);
                    }
                }
            }
            if y == x || v.contains(y) {
                if y == x {
                    assert(rt.contains(y));
                } else {
                    let q = choose|q: int| 0 <= q < v.len() && v[q] == y;
                    if q == 0 {
                        assert(r[0] == y);
                    } else {
                        assert(t[q - 1] == y);
                        assert(t.contains(y));
                        assert(rt.contains(y));
                    }
                }
                if rt.contains(y) {
                    let p = choose|p: int| 0 <= p < rt.len() && rt[p] == y;
                    assert(r[p + 1] == y);
                }
            }
        }
    }
}

/// A text set built by `sorted_set` is strictly increasing in byte order and holds
/// exactly the texts of the input list (each once).
pub proof fn lemma_sorted_set_is_set(l: Seq<Seq<char>>)
    ensures
        strictly_ordered(sorted_set(l)),
        forall|y: Seq<char>| #[trigger] sorted_set(l).contains(y) <==> l.contains(y),
    decreases l.len(),
{
    if l.len() > 0 {
        let w = l.drop_last();
        lemma_sorted_set_is_set(w);
        lemma_insert_sorted_strict(sorted_set(w), l.last());
        assert forall|y: Seq<char>| #[trigger] sorted_set(l).contains(y) <==> l.contains(y) by {
            if l.contains(y) {
                let q = choose|q: int| 0 <= q < l.len() && l[q] == y;
                if q < l.len() - 1 {
                    assert(w[q] == y);
                    assert(w.contains(y));
                }
            }
            if w.contains(y) {
                let q = choose|q: int| 0 <= q < w.len() && w[q] == y;
                assert(l[q] == y);
            }
            if y == l.last() {
                assert(l[l.len() - 1] == y);
            }
        }
    }
}

/// A player's breeding team lists every one of the player's own pals: each non-player
/// record owned by the player, naming a known pal with a male (or female) gender, puts
/// its translated name in the male (or female) list.
pub proof fn lemma_team_lists_all_players_pals(db: PalDb, i: I18n, chars: Seq<CharacterEntry>, player: Seq<char>)
    ensures
        breeding_team(db, i, chars, player) matches Some((m, f)) ==> forall|k: int, male: bool, x: Seq<char>|
            0 <= k < chars.len() && #[trigger] team_candidate(db, i, chars[k].raw_data@, player, male, x) ==> (
            if male {
                m.contains(x)
            } else {
                f.contains(x)
            }),
{
    lemma_team_lists_complete(db, i, chars, player, chars.len());
    if let Some((m0, f0)) = team_lists(db, i, chars, player, chars.len()) {
        lemma_sorted_set_is_set(m0);
        lemma_sorted_set_is_set(f0);
    }
}

/// A player's breeding team holds only the player's own pals: every male name comes from
/// a non-player record owned by the player with a male gender, and every female name
/// from one with a female gender (records owned by anyone else contribute nothing). Each
/// list is a set: strictly increasing in byte order.
pub proof fn lemma_team_is_players_own(db: PalDb, i: I18n, chars: Seq<CharacterEntry>, player: Seq<char>)
    ensures
        breeding_team(db, i, chars, player) matches Some((m, f)) ==> {
            &&& strictly_ordered(m)
            &&& strictly_ordered(f)
            &&& forall|x: Seq<char>| #[trigger] m.contains(x) ==> exists|k: int|
                0 <= k < chars.len() && team_pal(db, i, #[trigger] chars[k].raw_data@, player, true, x)
            &&& forall|x: Seq<char>| #[trigger] f.contains(x) ==> exists|k: int|
                0 <= k < chars.len() && team_pal(db, i, #[trigger] chars[k].raw_data@, player, false, x)
        },
{
    lemma_team_lists_owned(db, i, chars, player, chars.len());
    if let Some((m0, f0)) = team_lists(db, i, chars, player, chars.len()) {
        lemma_sorted_set_is_set(m0);
        lemma_sorted_set_is_set(f0);
    }
}

fn try_team_member(db: &PalDb, i: &I18n, raw: &[u8], player: &str) -> (r: Option<Option<(bool, String)>>)
    requires
        raw@.len() <= isize::MAX,
    ensures
        team_member(*db, *i, raw@, player@) is None ==> r is None,
        team_member(*db, *i, raw@, player@) matches Some(None) ==> r matches Some(None),
        team_member(*db, *i, raw@, player@) matches Some(Some((m, name))) ==> r matches Some(
            Some((rm, rn)),
        ) && rm == m && rn@ == name,
{
    reveal(team_member);
    let is_player = match try_extract_bool_prop(raw, "IsPlayer\0".as_bytes()) {
        None => return None,
        Some(b) => b,
    };
    if is_player {
        return Some(None);
    }
    let owner_pat = "OwnerPlayerUId\0".as_bytes();
    if raw.len() < owner_pat.len() {
        return None;
    }
    let owner = match extract_guid_bytes_prop(raw, owner_pat) {
        Some(g) => crate::guid::format_guid(&g),
        None => String::new(),
    };
    if !crate::text::text_eq(owner.as_str(), player) {
        return Some(None);
    }
    let cid = match try_extract_string_prop(raw, "CharacterID\0".as_bytes()) {
        None => return None,
        Some(c) => c,
    };
    if cid.as_str().is_empty() || !db.is_valid_pal(cid.as_str()) {
        return Some(None);
    }
    let name = i.t(db, cid.as_str());
    let gender = match try_extract_string_prop(raw, "Gender\0".as_bytes()) {
        None => return None,
        Some(g) => g,
    };
    if text_contains(gender.as_str(), "Male") {
        Some(Some((true, name)))
    } else if text_contains(gender.as_str(), "Female") {
        Some(Some((false, name)))
    } else {
        Some(None)
    }
}

/// Views of a list of strings.
pub open spec fn names_view(v: Seq<String>) -> Seq<Seq<char>> {
    v.map_values(|x: String| x@)
}

fn insert_name(v: &mut Vec<String>, x: String)
    ensures
        names_view(final(v)@) == insert_sorted(names_view(old(v)@), x@),
{
    crate::level::insert_member(v, x);
}

/// A player's breeding team (see `breeding_team`), `None` where a record cannot be read.
#[verifier::rlimit(60)]
pub fn try_breeding_team(db: &PalDb, i: &I18n, chars: &Vec<CharacterEntry>, player_uid: &str) -> (r: Option<(Vec<String>, Vec<String>)>)
    requires
        forall|k: int| 0 <= k < chars@.len() ==> (#[trigger] chars@[k]).raw_data@.len() <= isize::MAX,
    ensures
        breeding_team(*db, *i, chars@, player_uid@) is None ==> r is None,
        breeding_team(*db, *i, chars@, player_uid@) matches Some((m, f)) ==> r matches Some(
            (rm, rf),
        ) && names_view(rm@) == m && names_view(rf@) == f,
{
    let mut males: Vec<String> = Vec::new();
    let mut females: Vec<String> = Vec::new();
    let ghost mut ml: Seq<Seq<char>> = Seq::empty();
    let ghost mut fl: Seq<Seq<char>> = Seq::empty();
    let mut k: usize = 0;
    assert(names_view(males@) =~= sorted_set(ml));
    assert(names_view(females@) =~= sorted_set(fl));
    while k < chars.len()
        invariant
            k <= chars@.len(),
            forall|q: int| 0 <= q < chars@.len() ==> (#[trigger] chars@[q]).raw_data@.len() <= isize::MAX,
            team_lists(*db, *i, chars@, player_uid@, k as nat) == Some((ml, fl)),
            names_view(males@) == sorted_set(ml),
            names_view(females@) == sorted_set(fl),
        decreases chars@.len() - k,
    {
        let raw = chars[k].raw_data.as_slice();
        let ghost tm = team_member(*db, *i, chars@[k as int].raw_data@, player_uid@);
        assert(team_lists(*db, *i, chars@, player_uid@, (k + 1) as nat) == match tm {
            None => None,
            Some(None) => Some((ml, fl)),
            Some(Some((true, name))) => Some((ml.push(name), fl)),
            Some(Some((false, name))) => Some((ml, fl.push(name))),
        });
        match try_team_member(db, i, raw, player_uid) {
            None => {
                proof {
                    lemma_team_none_stays(*db, *i, chars@, player_uid@, (k + 1) as nat, chars@.len());
                }
                return None;
            },
            Some(None) => {},
            Some(Some((is_male, name))) => {
                if is_male {
                    proof {
                        assert(ml.push(name@).drop_last() =~= ml);
                        ml = ml.push(name@);
                    }
                    insert_name(&mut males, name);
                } else {
                    proof {
                        assert(fl.push(name@).drop_last() =~= fl);
                        fl = fl.push(name@);
                    }
                    insert_name(&mut females, name);
                }
            },
        }
        k = k + 1;
    }
    assert(chars@.len() == k);
    Some((males, females))
}

/// Inserts `x` into a list sorted by `key` (byte order) after every element whose key is
/// not greater: the step of a stable insertion sort.
pub open spec fn stable_insert(v: Seq<(Seq<char>, Seq<char>, Seq<char>, nat)>, x: (Seq<char>, Seq<char>, Seq<char>, nat)) -> Seq<(Seq<char>, Seq<char>, Seq<char>, nat)>
    decreases v.len(),
{
    if v.len() == 0 {
        seq![x]
    } else if bytes_le(encode_utf8(v.last().2), encode_utf8(x.2)) {
        v.push(x)
    } else {
        stable_insert(v.drop_last(), x).push(v.last())
    }
}

/// A list stably sorted by child name (byte order), as `sort_by` on the child leaves it.
pub open spec fn sorted_by_child(l: Seq<(Seq<char>, Seq<char>, Seq<char>, nat)>) -> Seq<(Seq<char>, Seq<char>, Seq<char>, nat)>
    decreases l.len(),
{
    if l.len() == 0 {
        Seq::empty()
    } else {
        stable_insert(sorted_by_child(l.drop_last()), l.last())
    }
}

/// Every father/mother pair, fathers outer and mothers inner, with the child bred and
/// the average power, before sorting.
pub open spec fn pairings(db: PalDb, use_es: bool, males: Seq<Seq<char>>, females: Seq<Seq<char>>, n: nat) -> Seq<(Seq<char>, Seq<char>, Seq<char>, nat)>
    decreases n,
{
    if n == 0 {
        Seq::empty()
    } else {
        let k = (n - 1) as nat;
        let m = males[(k as int) / (females.len() as int)];
        let f = females[(k as int) % (females.len() as int)];
        let (c, p) = child_of(db, m, f, use_es);
        pairings(db, use_es, males, females, k).push((m, f, c, p))
    }
}

/// Breeding power sums of every father/mother pair stay in the `i32` range.
pub open spec fn pair_powers_fit(db: PalDb, males: Seq<Seq<char>>, females: Seq<Seq<char>>) -> bool {
    forall|a: int, b: int|
        0 <= a < males.len() && 0 <= b < females.len() ==> (exception_for(
            db.exceptions@,
            #[trigger] males[a],
            #[trigger] females[b],
        ) is None ==> i32::MIN <= breed_power_of_name(db.pals@, males[a]) + breed_power_of_name(
            db.pals@,
            females[b],
        ) && breed_power_of_name(db.pals@, males[a]) + breed_power_of_name(db.pals@, females[b]) + 1
            <= i32::MAX)
}

/// Combinations ordered by child name (byte order).
pub open spec fn ordered_by_child(v: Seq<(Seq<char>, Seq<char>, Seq<char>, nat)>) -> bool {
    forall|a: int, b: int|
        0 <= a < b < v.len() ==> bytes_le(encode_utf8(#[trigger] v[a].2), encode_utf8(#[trigger] v[b].2))
}

proof fn lemma_stable_insert(v: Seq<(Seq<char>, Seq<char>, Seq<char>, nat)>, x: (Seq<char>, Seq<char>, Seq<char>, nat))
    requires
        ordered_by_child(v),
    ensures
        ordered_by_child(stable_insert(v, x)),
        stable_insert(v, x).to_multiset() =~= v.to_multiset().insert(x),
    decreases v.len(),
{
    broadcast use vstd::seq_lib::group_to_multiset_ensures;

    if v.len() == 0 {
        assert(stable_insert(v, x) =~= v.push(x));
    } else if bytes_le(encode_utf8(v.last().2), encode_utf8(x.2)) {
        let r = v.push(x);
        assert forall|a: int, b: int| 0 <= a < b < r.len() implies bytes_le(
            encode_utf8(#[trigger] r[a].2),
            encode_utf8(#[trigger] r[b].2),
        ) by {
            if b == v.len() {
                if a < v.len() - 1 {
                    assert(bytes_le(encode_utf8(v[a].2), encode_utf8(v[v.len() - 1].2)));
                    crate::db::lemma_bytes_le_trans(
                        encode_utf8(v[a].2),
                        encode_utf8(v.last().2),
                        encode_utf8(x.2),
                    );
                }
            } else {
                assert(r[a] == v[a] && r[b] == v[b]);
            }
        }
    } else {
        let w = v.drop_last();
        let last = v.last();
        assert(w.push(last) =~= v);
        crate::db::lemma_bytes_le_total(encode_utf8(last.2), encode_utf8(x.2));
        assert forall|a: int, b: int| 0 <= a < b < w.len() implies bytes_le(
            encode_utf8(#[trigger] w[a].2),
            encode_utf8(#[trigger] w[b].2),
        ) by {
            assert(w[a] == v[a] && w[b] == v[b]);
        }
        lemma_stable_insert(w, x);
        let m = stable_insert(w, x);
        let r = stable_insert(v, x);
        assert(r == m.push(last));
        assert forall|a: int, b: int| 0 <= a < b < r.len() implies bytes_le(
            encode_utf8(#[trigger] r[a].2),
            encode_utf8(#[trigger] r[b].2),
        ) by {
            if b < m.len() {
                assert(r[a] == m[a] && r[b] == m[b]);
            } else {
                let e = m[a];
                assert(r[a] == e);
                assert(m.contains(e));
                assert(m.to_multiset().count(e) > 0);
                if e != x {
                    assert(w.to_multiset().count(e) > 0);
                    assert(w.contains(e));
                    let q = choose|q: int| 0 <= q < w.len() && w[q] == e;
                    assert(v[q] == e);
                    assert(bytes_le(encode_utf8(v[q].2), encode_utf8(v[v.len() - 1].2)));
                }
            }
        }
        assert(r.to_multiset() =~= m.to_multiset().insert(last));
    }
}

/// Sorting combinations by child gives them ordered by child name, each combination of the
/// input exactly as often as in the input (a permutation).
pub proof fn lemma_sorted_by_child(l: Seq<(Seq<char>, Seq<char>, Seq<char>, nat)>)
    ensures
        ordered_by_child(sorted_by_child(l)),
        sorted_by_child(l).to_multiset() =~= l.to_multiset(),
    decreases l.len(),
{
    broadcast use vstd::seq_lib::group_to_multiset_ensures;

    if l.len() == 0 {
        assert(sorted_by_child(l) =~= l);
    } else {
        let w = l.drop_last();
        lemma_sorted_by_child(w);
        lemma_stable_insert(sorted_by_child(w), l.last());
        assert(w.push(l.last()) =~= l);
    }
}

/// The unsorted combinations are every father/mother pair exactly once, fathers in order
/// and, for each, the mothers in order: the entry for father `a` and mother `b` is at
/// `a * mothers + b` and holds the child that pair breeds.
pub proof fn lemma_pairings_cover(db: PalDb, use_es: bool, males: Seq<Seq<char>>, females: Seq<Seq<char>>, n: nat)
    requires
        n <= males.len() * females.len(),
    ensures
        pairings(db, use_es, males, females, n).len() == n,
        forall|a: int, b: int|
            0 <= a < males.len() && 0 <= b < females.len() && a * females.len() + b < n ==> #[trigger] pairings(
                db,
                use_es,
                males,
                females,
                n,
            )[a * females.len() + b] == (
                males[a],
                females[b],
                child_of(db, males[a], females[b], use_es).0,
                child_of(db, males[a], females[b], use_es).1,
            ),
    decreases n,
{
    if n > 0 {
        let k = (n - 1) as nat;
        lemma_pairings_cover(db, use_es, males, females, k);
        let p = pairings(db, use_es, males, females, n);
        assert forall|a: int, b: int|
            0 <= a < males.len() && 0 <= b < females.len() && a * females.len() + b < n implies #[trigger] p[a
                * females.len() + b] == (
                males[a],
                females[b],
                child_of(db, males[a], females[b], use_es).0,
                child_of(db, males[a], females[b], use_es).1,
            ) by {
            if a * females.len() + b == k {
                assert((k as int) / (females.len() as int) == a && (k as int) % (females.len() as int) == b) by (nonlinear_arith)
                    requires
                        k == a * females.len() + b,
                        0 <= b < females.len(),
                ;
            }
        }
    }
}

/// Views of combinations.
pub open spec fn combos_view(v: Seq<(String, String, String, u32)>) -> Seq<(Seq<char>, Seq<char>, Seq<char>, nat)> {
    v.map_values(|c: (String, String, String, u32)| (c.0@, c.1@, c.2@, c.3 as nat))
}

fn stable_insert_exec(v: &mut Vec<(String, String, String, u32)>, x: (String, String, String, u32))
    ensures
        combos_view(final(v)@) == stable_insert(combos_view(old(v)@), (x.0@, x.1@, x.2@, x.3 as nat)),
    decreases old(v)@.len(),
{
    if v.len() == 0 {
        v.push(x);
        assert(combos_view(v@) =~= seq![(x.0@, x.1@, x.2@, x.3 as nat)]);
        return;
    }
    let last_le = bytes_le_exec(v[v.len() - 1].2.as_str().as_bytes(), x.2.as_str().as_bytes());
    let ghost old_view = combos_view(v@);
    assert(old_view.last() == (v@.last().0@, v@.last().1@, v@.last().2@, v@.last().3 as nat));
    if last_le {
        v.push(x);
        assert(combos_view(v@) =~= old_view.push((x.0@, x.1@, x.2@, x.3 as nat)));
    } else {
        let last = v.pop().unwrap();
        assert(combos_view(v@) =~= old_view.drop_last());
        stable_insert_exec(v, x);
        let ghost mid = combos_view(v@);
        v.push(last);
        assert(combos_view(v@) =~= mid.push((last.0@, last.1@, last.2@, last.3 as nat)));
    }
}

/// When every breeding power on record fits (see `powers_fit`), so does every
/// father/mother pair of any team.
pub proof fn lemma_team_powers_fit(db: PalDb, males: Seq<Seq<char>>, females: Seq<Seq<char>>)
    requires
        crate::breeding::powers_fit(db.pals@),
    ensures
        pair_powers_fit(db, males, females),
{
    assert forall|a: int, b: int| 0 <= a < males.len() && 0 <= b < females.len() implies (
    exception_for(db.exceptions@, #[trigger] males[a], #[trigger] females[b]) is None ==> i32::MIN
        <= breed_power_of_name(db.pals@, males[a]) + breed_power_of_name(db.pals@, females[b])
        && breed_power_of_name(db.pals@, males[a]) + breed_power_of_name(db.pals@, females[b]) + 1
        <= i32::MAX) by {
        let pm = crate::db::pal_by_name(db.pals@, males[a]);
        let pf = crate::db::pal_by_name(db.pals@, females[b]);
        crate::db::lemma_pal_by_name_found(db.pals@, males[a]);
        crate::db::lemma_pal_by_name_found(db.pals@, females[b]);
        match (pm, pf) {
            (Some(i), Some(j)) => {
                assert(crate::breeding::sum_fits(
                    db.pals@[i].breed_power as int,
                    db.pals@[j].breed_power as int,
                ));
            },
            (Some(i), None) => {
                assert(crate::breeding::sum_fits(db.pals@[i].breed_power as int, 1500));
            },
            (None, Some(j)) => {
                assert(crate::breeding::sum_fits(db.pals@[j].breed_power as int, 1500));
            },
            (None, None) => {},
        }
    }
}

/// The breeding combinations of a team: every father/mother pair with the child (in
/// the chosen language) and the average power, stably sorted by child name.
pub fn breeding_combinations(db: &PalDb, males: &Vec<String>, females: &Vec<String>, use_es: bool) -> (r: Vec<(String, String, String, u32)>)
    requires
        pair_powers_fit(*db, names_view(males@), names_view(females@)),
        males@.len() * females@.len() <= usize::MAX,
    ensures
        combos_view(r@) == sorted_by_child(
            pairings(
                *db,
                use_es,
                names_view(males@),
                names_view(females@),
                (males@.len() * females@.len()) as nat,
            ),
        ),
{
    let mut out: Vec<(String, String, String, u32)> = Vec::new();
    let ghost mv = names_view(males@);
    let ghost fv = names_view(females@);
    let mut a: usize = 0;
    assert(combos_view(out@) =~= sorted_by_child(pairings(*db, use_es, mv, fv, 0)));
    while a < males.len()
        invariant
            mv == names_view(males@),
            fv == names_view(females@),
            pair_powers_fit(*db, mv, fv),
            males@.len() * females@.len() <= usize::MAX,
            a <= males@.len(),
            combos_view(out@) == sorted_by_child(
                pairings(*db, use_es, mv, fv, (a * females@.len()) as nat),
            ),
        decreases males@.len() - a,
    {
        let mut b: usize = 0;
        while b < females.len()
            invariant
                mv == names_view(males@),
                fv == names_view(females@),
                pair_powers_fit(*db, mv, fv),
                males@.len() * females@.len() <= usize::MAX,
                a < males@.len(),
                b <= females@.len(),
                combos_view(out@) == sorted_by_child(
                    pairings(*db, use_es, mv, fv, (a * females@.len() + b) as nat),
                ),
            decreases females@.len() - b,
        {
            let ghost n = (a * females@.len() + b) as nat;
            assert((n as int) / (females@.len() as int) == a && (n as int) % (females@.len() as int) == b) by (nonlinear_arith)
                requires
                    n == a * females@.len() + b,
                    b < females@.len(),
            ;
            assert(mv[a as int] == males@[a as int]@);
            assert(fv[b as int] == females@[b as int]@);
            let (child, avg) = db.find_child_pal(males[a].as_str(), females[b].as_str(), use_es);
            let ghost before = combos_view(out@);
            stable_insert_exec(&mut out, (owned(males[a].as_str()), owned(females[b].as_str()), child, avg));
            assert(pairings(*db, use_es, mv, fv, n + 1).drop_last() =~= pairings(*db, use_es, mv, fv, n));
            b = b + 1;
        }
        assert((a + 1) * females@.len() == a * females@.len() + females@.len()) by (nonlinear_arith);
        a = a + 1;
    }
    out
}

} // verus!
