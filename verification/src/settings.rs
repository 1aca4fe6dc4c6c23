//! The world settings stored in `WorldOption.sav`.
use vstd::prelude::*;
use vstd::string::StringSliceAdditionalSpecFns;
use crate::measure::{float_prop, try_extract_float_prop};
use crate::scanner::{
    bool_prop, enum_prop, int_prop, try_extract_bool_prop, try_extract_enum_prop,
    try_extract_int_prop,
};

verus! {

/// The rate settings, in the order the settings report lists them.
pub open spec fn rate_names() -> Seq<Seq<u8>> {
    seq![
        "ExpRate\0".spec_bytes(),
        "PalCaptureRate\0".spec_bytes(),
        "PalSpawnNumRate\0".spec_bytes(),
        "PalDamageRateAttack\0".spec_bytes(),
        "PalDamageRateDefense\0".spec_bytes(),
        "PlayerDamageRateAttack\0".spec_bytes(),
        "PlayerDamageRateDefense\0".spec_bytes(),
        "PlayerStaminaDecreaceRate\0".spec_bytes(),
        "PlayerStomachDecreaceRate\0".spec_bytes(),
        "PlayerAutoHPRegeneRate\0".spec_bytes(),
        "PalEggDefaultHatchingTime\0".spec_bytes(),
    ]
}

/// The switches, in the order the settings report lists them.
pub open spec fn switch_names() -> Seq<Seq<u8>> {
    seq![
        "bIsMultiplay\0".spec_bytes(),
        "bIsPvP\0".spec_bytes(),
        "bEnableFastTravel\0".spec_bytes(),
        "bBuildAreaLimit\0".spec_bytes(),
    ]
}

/// The limits, in the order the settings report lists them.
pub open spec fn limit_names() -> Seq<Seq<u8>> {
    seq!["GuildPlayerMaxNum\0".spec_bytes(), "BaseCampMaxNumInGuild\0".spec_bytes()]
}

/// Whether every setting can be read from well-formed bytes.
pub open spec fn settings_readable(s: Seq<u8>) -> bool {
    &&& enum_prop(s, "Difficulty\0".spec_bytes()) is Some
    &&& enum_prop(s, "DeathPenalty\0".spec_bytes()) is Some
    &&& forall|k: int| 0 <= k < 11 ==> float_prop(s, #[trigger] rate_names()[k]) is Some
    &&& forall|k: int| 0 <= k < 4 ==> bool_prop(s, #[trigger] switch_names()[k]) is Some
    &&& forall|k: int| 0 <= k < 2 ==> int_prop(s, #[trigger] limit_names()[k]) is Some
}

/// The world settings: difficulty and death penalty (enum value names), the rates (as
/// `f32` bit patterns, in the order of `rate_names`), the switches (in the order of
/// `switch_names`) and the limits (in the order of `limit_names`).
#[derive(Debug, Clone)]
pub struct WorldSettings {
    pub difficulty: String,
    pub death_penalty: String,
    pub rates: Vec<u32>,
    pub switches: Vec<bool>,
    pub limits: Vec<i32>,
}

fn rate_name(k: usize) -> (r: &'static [u8])
    requires
        k < 11,
    ensures
        r@ == rate_names()[k as int],
{
    if k == 0 {
        "ExpRate\0".as_bytes()
    } else if k == 1 {
        "PalCaptureRate\0".as_bytes()
    } else if k == 2 {
        "PalSpawnNumRate\0".as_bytes()
    } else if k == 3 {
        "PalDamageRateAttack\0".as_bytes()
    } else if k == 4 {
        "PalDamageRateDefense\0".as_bytes()
    } else if k == 5 {
        "PlayerDamageRateAttack\0".as_bytes()
    } else if k == 6 {
        "PlayerDamageRateDefense\0".as_bytes()
    } else if k == 7 {
        "PlayerStaminaDecreaceRate\0".as_bytes()
    } else if k == 8 {
        "PlayerStomachDecreaceRate\0".as_bytes()
    } else if k == 9 {
        "PlayerAutoHPRegeneRate\0".as_bytes()
    } else {
        "PalEggDefaultHatchingTime\0".as_bytes()
    }
}

fn switch_name(k: usize) -> (r: &'static [u8])
    requires
        k < 4,
    ensures
        r@ == switch_names()[k as int],
{
    if k == 0 {
        "bIsMultiplay\0".as_bytes()
    } else if k == 1 {
        "bIsPvP\0".as_bytes()
    } else if k == 2 {
        "bEnableFastTravel\0".as_bytes()
    } else {
        "bBuildAreaLimit\0".as_bytes()
    }
}

fn limit_name(k: usize) -> (r: &'static [u8])
    requires
        k < 2,
    ensures
        r@ == limit_names()[k as int],
{
    if k == 0 {
        "GuildPlayerMaxNum\0".as_bytes()
    } else {
        "BaseCampMaxNumInGuild\0".as_bytes()
    }
}

/// The world settings of a `WorldOption.sav` buffer; `None` exactly where the
/// bytes are malformed on one of them.
pub fn read_world_settings(bytes: &[u8]) -> (r: Option<WorldSettings>)
    requires
        bytes@.len() <= isize::MAX,
    ensures
        r is Some <==> settings_readable(bytes@),
        r matches Some(w) ==> {
            &&& w.difficulty@ == enum_prop(bytes@, "Difficulty\0".spec_bytes())->0
            &&& w.death_penalty@ == enum_prop(bytes@, "DeathPenalty\0".spec_bytes())->0
            &&& w.rates@.len() == 11
            &&& forall|k: int| 0 <= k < 11 ==> w.rates@[k] == float_prop(bytes@, #[trigger] rate_names()[k])->0
            &&& w.switches@.len() == 4
            &&& forall|k: int| 0 <= k < 4 ==> w.switches@[k] == bool_prop(bytes@, #[trigger] switch_names()[k])->0
            &&& w.limits@.len() == 2
            &&& forall|k: int| 0 <= k < 2 ==> w.limits@[k] == int_prop(bytes@, #[trigger] limit_names()[k])->0
        },
{
    let difficulty = try_extract_enum_prop(bytes, "Difficulty\0".as_bytes());
    let mut rates: Vec<u32> = Vec::new();
    let mut ok = true;
    let mut k: usize = 0;
    while k < 11
        invariant
            k <= 11,
            bytes@.len() <= isize::MAX,
            ok ==> rates@.len() == k,
            ok ==> forall|j: int| 0 <= j < k ==> rates@[j] == float_prop(bytes@, #[trigger] rate_names()[j])->0,
            ok ==> forall|j: int| 0 <= j < k ==> float_prop(bytes@, #[trigger] rate_names()[j]) is Some,
            !ok ==> exists|j: int| 0 <= j < 11 && float_prop(bytes@, #[trigger] rate_names()[j]) is None,
        decreases 11 - k,
    {
        let name = rate_name(k);
        match try_extract_float_prop(bytes, name) {
            Some(v) => {
                if ok {
                    rates.push(v);
                }
            },
            None => {
                assert(float_prop(bytes@, rate_names()[k as int]) is None);
                ok = false;
            },
        }
        k = k + 1;
    }
    let death = try_extract_enum_prop(bytes, "DeathPenalty\0".as_bytes());
    let mut switches: Vec<bool> = Vec::new();
    let mut k: usize = 0;
    while k < 4
        invariant
            k <= 4,
            bytes@.len() <= isize::MAX,
            ok ==> switches@.len() == k,
            ok ==> forall|j: int| 0 <= j < k ==> switches@[j] == bool_prop(bytes@, #[trigger] switch_names()[j])->0,
            ok ==> forall|j: int| 0 <= j < k ==> bool_prop(bytes@, #[trigger] switch_names()[j]) is Some,
            ok ==> forall|j: int| 0 <= j < 11 ==> float_prop(bytes@, #[trigger] rate_names()[j]) is Some,
            ok ==> rates@.len() == 11,
            ok ==> forall|j: int| 0 <= j < 11 ==> rates@[j] == float_prop(bytes@, #[trigger] rate_names()[j])->0,
            !ok ==> (exists|j: int| 0 <= j < 11 && float_prop(bytes@, #[trigger] rate_names()[j]) is None)
                || (exists|j: int| 0 <= j < 4 && bool_prop(bytes@, #[trigger] switch_names()[j]) is None),
        decreases 4 - k,
    {
        let name = switch_name(k);
        match try_extract_bool_prop(bytes, name) {
            Some(v) => {
                if ok {
                    switches.push(v);
                }
            },
            None => {
                assert(bool_prop(bytes@, switch_names()[k as int]) is None);
                ok = false;
            },
        }
        k = k + 1;
    }
    let mut limits: Vec<i32> = Vec::new();
    let mut k: usize = 0;
    while k < 2
        invariant
            k <= 2,
            bytes@.len() <= isize::MAX,
            ok ==> limits@.len() == k,
            ok ==> forall|j: int| 0 <= j < k ==> limits@[j] == int_prop(bytes@, #[trigger] limit_names()[j])->0,
            ok ==> forall|j: int| 0 <= j < k ==> int_prop(bytes@, #[trigger] limit_names()[j]) is Some,
            ok ==> forall|j: int| 0 <= j < 11 ==> float_prop(bytes@, #[trigger] rate_names()[j]) is Some,
            ok ==> rates@.len() == 11,
            ok ==> forall|j: int| 0 <= j < 11 ==> rates@[j] == float_prop(bytes@, #[trigger] rate_names()[j])->0,
            ok ==> forall|j: int| 0 <= j < 4 ==> bool_prop(bytes@, #[trigger] switch_names()[j]) is Some,
            ok ==> switches@.len() == 4,
            ok ==> forall|j: int| 0 <= j < 4 ==> switches@[j] == bool_prop(bytes@, #[trigger] switch_names()[j])->0,
            !ok ==> (exists|j: int| 0 <= j < 11 && float_prop(bytes@, #[trigger] rate_names()[j]) is None)
                || (exists|j: int| 0 <= j < 4 && bool_prop(bytes@, #[trigger] switch_names()[j]) is None)
                || (exists|j: int| 0 <= j < 2 && int_prop(bytes@, #[trigger] limit_names()[j]) is None),
        decreases 2 - k,
    {
        let name = limit_name(k);
        match try_extract_int_prop(bytes, name) {
            Some(v) => {
                if ok {
                    limits.push(v);
                }
            },
            None => {
                assert(int_prop(bytes@, limit_names()[k as int]) is None);
                ok = false;
            },
        }
        k = k + 1;
    }
    match (difficulty, death) {
        (Some(d), Some(p)) => {
            if ok {
                Some(WorldSettings { difficulty: d, death_penalty: p, rates, switches, limits })
            } else {
                None
            }
        },
        _ => None,
    }
}

} // verus!
