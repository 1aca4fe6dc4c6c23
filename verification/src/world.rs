//! Facts about a world folder: its display name, its game mode from the player saves
//! present, and the local player's GUID from a Steam account folder.
use vstd::prelude::*;
use vstd::string::StringSliceAdditionalSpecFns;
use crate::db::{append_text, owned};
use crate::scanner::{extract_string_prop, string_prop};
use crate::text::{chars_of, push_char, text_eq};
use vstd::utf8::encode_utf8;

verus! {

broadcast use vstd::string::group_string_axioms;

/// The display name of a world: the `WorldName` of its decompressed `LevelMeta.sav` when
/// that is present and non-empty, else the folder name, else the `unknown` text.
pub open spec fn world_name(meta: Option<Seq<u8>>, folder: Option<Seq<char>>, unknown: Seq<char>) -> Seq<char> {
    let from_meta = match meta {
        Some(b) => string_prop(b, "WorldName\0".spec_bytes())->0,
        None => Seq::empty(),
    };
    if from_meta.len() > 0 {
        from_meta
    } else {
        match folder {
            Some(f) => f,
            None => unknown,
        }
    }
}

/// The display name of a world (see `world_name`).
pub fn get_world_name(meta: Option<&[u8]>, folder_name: Option<&str>, unknown: &str) -> (r: String)
    requires
        meta matches Some(b) ==> b@.len() <= isize::MAX && string_prop(
            b@,
            "WorldName\0".spec_bytes(),
        ) is Some,
    ensures
        r@ == world_name(
            match meta {
                Some(b) => Some(b@),
                None => None,
            },
            match folder_name {
                Some(f) => Some(f@),
                None => None,
            },
            unknown@,
        ),
{
    if let Some(bytes) = meta {
        let name = extract_string_prop(bytes, "WorldName\0".as_bytes());
        if !name.as_str().is_empty() {
            return name;
        }
    }
    match folder_name {
        Some(f) => owned(f),
        None => owned(unknown),
    }
}

/// The file name (without extension) of the host's player save.
pub open spec fn host_stem() -> Seq<char> {
    "00000000000000000000000000000001"@
}

/// Whether some player save belongs to the host.
pub open spec fn has_host(stems: Seq<String>) -> bool {
    exists|i: int| 0 <= i < stems.len() && stems[i]@ == host_stem()
}

/// Whether some other player save has a 32-byte name.
pub open spec fn has_other(stems: Seq<String>) -> bool {
    exists|i: int|
        0 <= i < stems.len() && stems[i]@ != host_stem() && encode_utf8(stems[i]@).len() == 32
}

/// The locale key of a world's game mode from the names of its player saves (`None`
/// when there is no `Players` folder): host and others is co-op, others alone is a
/// dedicated server, anything else is single player.
pub open spec fn game_mode(stems: Option<Seq<String>>) -> Seq<char> {
    match stems {
        None => "game_mode_singleplayer"@,
        Some(s) => if has_host(s) && has_other(s) {
            "game_mode_coop"@
        } else if has_host(s) {
            "game_mode_singleplayer"@
        } else if has_other(s) {
            "game_mode_dedicated"@
        } else {
            "game_mode_singleplayer"@
        },
    }
}

/// The game mode of a world (see `game_mode`).
pub fn detect_game_mode(stems: Option<&Vec<String>>) -> (r: String)
    ensures
        r@ == game_mode(
            match stems {
                Some(s) => Some(s@),
                None => None,
            },
        ),
{
    let s = match stems {
        None => return owned("game_mode_singleplayer"),
        Some(s) => s,
    };
    let mut host = false;
    let mut others = false;
    let mut i: usize = 0;
    while i < s.len()
        invariant
            i <= s@.len(),
            host == exists|k: int| 0 <= k < i && s@[k]@ == host_stem(),
            others == exists|k: int|
                0 <= k < i && s@[k]@ != host_stem() && encode_utf8(s@[k]@).len() == 32,
        decreases s@.len() - i,
    {
        let stem = s[i].as_str();
        let ghost k0 = i as int;
        if text_eq(stem, "00000000000000000000000000000001") {
            host = true;
        } else if stem.as_bytes().len() == 32 {
            assert(s@[k0]@ != host_stem() && encode_utf8(s@[k0]@).len() == 32);
            others = true;
        }
        i = i + 1;
        proof {
            assert(others == exists|k: int|
                0 <= k < i && s@[k]@ != host_stem() && encode_utf8(s@[k]@).len() == 32) by {
                if others {
                    if !(exists|k: int| 0 <= k < k0 && s@[k]@ != host_stem() && encode_utf8(s@[k]@).len() == 32) {
                        assert(s@[k0]@ != host_stem() && encode_utf8(s@[k0]@).len() == 32);
                    }
                }
            }
        }
    }
    if host && others {
        owned("game_mode_coop")
    } else if host {
        owned("game_mode_singleplayer")
    } else if others {
        owned("game_mode_dedicated")
    } else {
        owned("game_mode_singleplayer")
    }
}

/// The first 64-bit Steam id; account numbers are counted from it.
pub open spec fn steam_base() -> nat {
    76561197960265728
}

/// The value of a run of decimal digits.
pub open spec fn decimal_value(d: Seq<char>) -> nat
    decreases d.len(),
{
    if d.len() == 0 {
        0
    } else {
        decimal_value(d.drop_last()) * 10 + ((d.last() as nat) - 48) as nat
    }
}

/// The Steam id named by a save folder: a name of exactly 17 ASCII digits whose value is
/// at least the first Steam id.
pub open spec fn steam_folder_id(name: Seq<char>) -> Option<nat> {
    if name.len() == 17 && (forall|i: int| 0 <= i < 17 ==> '0' <= #[trigger] name[i] <= '9')
        && decimal_value(name) >= steam_base() {
        Some(decimal_value(name))
    } else {
        None
    }
}

/// Ten to the power `n`.
pub open spec fn pow10(n: nat) -> nat
    decreases n,
{
    if n == 0 {
        1
    } else {
        10 * pow10((n - 1) as nat)
    }
}

proof fn lemma_pow10_grows(i: nat, j: nat)
    requires
        i <= j,
    ensures
        pow10(i) <= pow10(j),
    decreases j - i,
{
    if i < j {
        lemma_pow10_grows(i, (j - 1) as nat);
    }
}

/// The Steam id named by a save folder (see `steam_folder_id`).
pub fn steam_id_of_folder(name: &str) -> (r: Option<u64>)
    ensures
        steam_folder_id(name@) is None ==> r is None,
        steam_folder_id(name@) matches Some(v) ==> r == Some(v as u64),
{
    let cs = chars_of(name);
    if cs.len() != 17 {
        return None;
    }
    let mut v: u64 = 0;
    let mut i: usize = 0;
    while i < 17
        invariant
            cs@ == name@,
            cs@.len() == 17,
            i <= 17,
            forall|k: int| 0 <= k < i ==> '0' <= #[trigger] cs@[k] <= '9',
            v == decimal_value(cs@.take(i as int)),
            v < pow10(i as nat),
        decreases 17 - i,
    {
        let c = cs[i];
        if !('0' <= c && c <= '9') {
            return None;
        }
        proof {
            assert(cs@.take(i + 1).drop_last() =~= cs@.take(i as int));
            lemma_pow10_grows((i + 1) as nat, 17);
            reveal_with_fuel(pow10, 18);
            let p = pow10(i as nat);
            assert(v * 10 + 9 < p * 10) by (nonlinear_arith)
                requires
                    v < p,
            ;
        }
        v = v * 10 + (c as u64 - 48);
        i = i + 1;
    }
    assert(cs@.take(17) =~= cs@);
    if v >= 76561197960265728 {
        Some(v)
    } else {
        None
    }
}

/// Uppercase hexadecimal digit of a value below 16.
pub open spec fn hex_upper_digit(d: nat) -> char {
    if d < 10 {
        ((d + 48) as u8) as char
    } else {
        ((d + 55) as u8) as char
    }
}

/// The uppercase hexadecimal digits of `n` (no leading zeros; `0` for zero).
pub open spec fn hex_upper(n: nat) -> Seq<char>
    decreases n,
{
    if n < 16 {
        seq![hex_upper_digit(n)]
    } else {
        hex_upper(n / 16).push(hex_upper_digit(n % 16))
    }
}

/// `{:08X}`: the uppercase hexadecimal digits of `n`, zero-padded to at least 8.
pub open spec fn hex8(n: nat) -> Seq<char> {
    let h = hex_upper(n);
    if h.len() < 8 {
        Seq::new((8 - h.len()) as nat, |i: int| '0') + h
    } else {
        h
    }
}

/// The player GUID of a Steam account: its account number (the Steam id minus the first
/// Steam id) as `{:08X}`, followed by `-0000-0000-0000-000000000000`.
pub open spec fn steam_guid(steam_id: nat) -> Seq<char> {
    hex8((steam_id - steam_base()) as nat) + "-0000-0000-0000-000000000000"@
}

fn hex_digits(n: u64) -> (r: Vec<char>)
    ensures
        r@ == hex_upper(n as nat),
    decreases n,
{
    let d = (n % 16) as u8;
    let c = if d < 10 {
        (d + 48) as char
    } else {
        (d + 55) as char
    };
    if n < 16 {
        let mut v: Vec<char> = Vec::new();
        v.push(c);
        assert(v@ =~= seq![hex_upper_digit(n as nat)]);
        v
    } else {
        let mut v = hex_digits(n / 16);
        v.push(c);
        v
    }
}

/// The local player's GUID and Steam id for the Steam id of the chosen save folder.
pub fn local_player_uid(steam_id: u64) -> (r: (String, u64))
    requires
        steam_id >= steam_base(),
    ensures
        r.0@ == steam_guid(steam_id as nat),
        r.1 == steam_id,
{
    let account = steam_id - 76561197960265728;
    let digits = hex_digits(account);
    let mut out = String::new();
    let mut pad: usize = 0;
    let need: usize = if digits.len() < 8 {
        8 - digits.len()
    } else {
        0
    };
    while pad < need
        invariant
            pad <= need,
            out@ =~= Seq::new(pad as nat, |i: int| '0'),
        decreases need - pad,
    {
        push_char(&mut out, '0');
        pad = pad + 1;
    }
    let mut i: usize = 0;
    while i < digits.len()
        invariant
            i <= digits@.len(),
            out@ =~= Seq::new(need as nat, |k: int| '0') + digits@.take(i as int),
        decreases digits@.len() - i,
    {
        push_char(&mut out, digits[i]);
        i = i + 1;
    }
    assert(digits@.take(i as int) =~= digits@);
    assert(out@ =~= hex8(account as nat));
    append_text(&mut out, "-0000-0000-0000-000000000000");
    (out, steam_id)
}

} // verus!
