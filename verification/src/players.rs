//! A player of the full report: the vitals from the player's character record, and the
//! progress, look and container ids from the player's own save.
use vstd::prelude::*;
use vstd::string::StringSliceAdditionalSpecFns;
use vstd::utf8::{decode_utf8, valid_utf8};
use crate::camps::wrap_u32;
use crate::db::{append_text, owned};
use crate::measure::{fixed_point_prop, float_prop, try_extract_fixed_point_prop, try_extract_float_prop};
use crate::pals::or_default;
use crate::progress::{merge_counts, merged_counts, pairs_view};
use crate::scanner::{
    array_strings, byte_prop, counted, guid_bytes_prop, extract_guid_bytes_prop, int64_prop,
    int_prop, map_counts, map_keys, string_prop, texts, try_extract_array_strings,
    try_extract_byte_prop, try_extract_int64_prop, try_extract_int_prop,
    try_extract_map_counts, try_extract_map_keys, try_extract_string_prop,
};
use crate::text::{text_eq, utf8_text};
use crate::wire::slice_range;

verus! {

broadcast use vstd::string::group_string_axioms;

/// The file name (without extension) of the host's player save.
pub open spec fn host_file() -> Seq<char> {
    "00000000000000000000000000000001"@
}

/// The name shown for a player without a nickname: `Host Player` for the host's save,
/// else `Player_` and the first eight bytes of the save's file name. `None` where the
/// bytes are malformed (a name whose first eight bytes are not whole characters).
pub open spec fn default_nickname(stem: &str) -> Option<Seq<char>> {
    if stem@ == host_file() {
        Some("Host Player"@)
    } else if stem.spec_bytes().len() >= 8 && valid_utf8(stem.spec_bytes().take(8)) {
        Some("Player_"@ + decode_utf8(stem.spec_bytes().take(8)))
    } else {
        None
    }
}

/// A player's vitals: nickname, level, experience, health and maximum health (in
/// thousandths), fullness (an `f32` bit pattern) and physical health.
pub type VitalsView = (Seq<char>, nat, nat, int, int, nat, Seq<char>);

/// The vitals of a player from its character record (defaults without one: level 1,
/// nothing else, normal health); `None` where the bytes are malformed.
pub open spec fn player_vitals(raw: Option<Seq<u8>>, stem: &str) -> Option<VitalsView> {
    match default_nickname(stem) {
        None => None,
        Some(dflt) => match raw {
            None => Some((dflt, 1, 0, 0, 0, 0, "EPalStatusPhysicalHealthType::Normal"@)),
            Some(r) => match (
                string_prop(r, "NickName\0".spec_bytes()),
                byte_prop(r, "Level\0".spec_bytes()),
                int64_prop(r, "Exp\0".spec_bytes()),
                fixed_point_prop(r, "Hp\0".spec_bytes()),
                fixed_point_prop(r, "MaxHp\0".spec_bytes()),
                float_prop(r, "FullStomach\0".spec_bytes()),
                string_prop(r, "PhysicalHealth\0".spec_bytes()),
            ) {
                (Some(n), Some(l), Some(x), Some(h), Some(mh), Some(f), Some(ph)) => Some(
                    (
                        or_default(n, dflt),
                        if l == 0 {
                            1
                        } else {
                            l
                        },
                        x,
                        h,
                        mh,
                        f,
                        or_default(ph, "EPalStatusPhysicalHealthType::Normal"@),
                    ),
                ),
                _ => None,
            },
        },
    }
}

/// A player's vitals.
#[derive(Debug, Clone)]
pub struct Vitals {
    pub nickname: String,
    pub level: u32,
    pub exp: u64,
    pub hp: i64,
    pub max_hp: i64,
    pub full_stomach_bits: u32,
    pub physical_health: String,
}

/// The view of a player's vitals.
pub open spec fn vitals_view(v: Vitals) -> VitalsView {
    (
        v.nickname@,
        v.level as nat,
        v.exp as nat,
        v.hp as int,
        v.max_hp as int,
        v.full_stomach_bits as nat,
        v.physical_health@,
    )
}

/// The name shown for a player without a nickname (see `default_nickname`); `None` where
/// the name cannot be formed (a file name shorter than eight bytes, or cut inside a
/// character).
pub fn default_name(stem: &str) -> (r: Option<String>)
    ensures
        default_nickname(stem) is None ==> r is None,
        default_nickname(stem) matches Some(n) ==> r matches Some(t) && t@ == n,
{
    if text_eq(stem, "00000000000000000000000000000001") {
        return Some(owned("Host Player"));
    }
    let b = stem.as_bytes();
    if b.len() < 8 {
        return None;
    }
    let head = slice_range(b, 0, 8);
    assert(head@ =~= stem.spec_bytes().take(8));
    match utf8_text(head) {
        None => None,
        Some(h) => {
            let mut out = owned("Player_");
            append_text(&mut out, h.as_str());
            Some(out)
        },
    }
}

/// The vitals of a player (see `player_vitals`), `None` where the bytes are malformed.
pub fn read_vitals(raw: Option<&[u8]>, stem: &str) -> (r: Option<Vitals>)
    requires
        raw matches Some(b) ==> b@.len() <= isize::MAX,
    ensures
        player_vitals(
            match raw {
                Some(b) => Some(b@),
                None => None,
            },
            stem,
        ) is None ==> r is None,
        player_vitals(
            match raw {
                Some(b) => Some(b@),
                None => None,
            },
            stem,
        ) matches Some(v) ==> r matches Some(rv) && vitals_view(rv) == v,
{
    let dflt = match default_name(stem) {
        None => return None,
        Some(d) => d,
    };
    let r = match raw {
        None => {
            return Some(
                Vitals {
                    nickname: dflt,
                    level: 1,
                    exp: 0,
                    hp: 0,
                    max_hp: 0,
                    full_stomach_bits: 0,
                    physical_health: owned("EPalStatusPhysicalHealthType::Normal"),
                },
            );
        },
        Some(r) => r,
    };
    let n = try_extract_string_prop(r, "NickName\0".as_bytes());
    let l = try_extract_byte_prop(r, "Level\0".as_bytes());
    let x = try_extract_int64_prop(r, "Exp\0".as_bytes());
    let h = try_extract_fixed_point_prop(r, "Hp\0".as_bytes());
    let mh = try_extract_fixed_point_prop(r, "MaxHp\0".as_bytes());
    let f = try_extract_float_prop(r, "FullStomach\0".as_bytes());
    let ph = try_extract_string_prop(r, "PhysicalHealth\0".as_bytes());
    match (n, l, x, h, mh, f, ph) {
        (Some(n), Some(l), Some(x), Some(h), Some(mh), Some(f), Some(ph)) => {
            let nickname = if n.as_str().is_empty() {
                dflt
            } else {
                n
            };
            let physical_health = if ph.as_str().is_empty() {
                owned("EPalStatusPhysicalHealthType::Normal")
            } else {
                ph
            };
            Some(
                Vitals {
                    nickname,
                    level: if l == 0 {
                        1
                    } else {
                        l
                    },
                    exp: x,
                    hp: h,
                    max_hp: mh,
                    full_stomach_bits: f,
                    physical_health,
                },
            )
        },
        _ => None,
    }
}

/// The GUID bytes of a container id property of a player save; outer `None` where the
/// bytes are malformed (a save shorter than the name).
pub open spec fn container_id(s: Seq<u8>, name: Seq<u8>) -> Option<Option<Seq<u8>>> {
    if s.len() < name.len() {
        None
    } else {
        Some(guid_bytes_prop(s, name))
    }
}

/// The container ids of a player save: party, common inventory, weapons, armor and pal
/// box, in that order. `None` where one cannot be read.
pub open spec fn container_ids(s: Seq<u8>) -> Option<
    (Option<Seq<u8>>, Option<Seq<u8>>, Option<Seq<u8>>, Option<Seq<u8>>, Option<Seq<u8>>),
> {
    match (
        container_id(s, "OtomoCharacterContainerId\0".spec_bytes()),
        container_id(s, "CommonContainerId\0".spec_bytes()),
        container_id(s, "WeaponLoadOutContainerId\0".spec_bytes()),
        container_id(s, "PlayerEquipArmorContainerId\0".spec_bytes()),
        container_id(s, "PalStorageContainerId\0".spec_bytes()),
    ) {
        (Some(a), Some(b), Some(c), Some(d), Some(e)) => Some((a, b, c, d, e)),
        _ => None,
    }
}

/// The container ids of a player save.
#[derive(Debug, Clone)]
pub struct ContainerIds {
    pub otomo: Option<[u8; 16]>,
    pub common: Option<[u8; 16]>,
    pub weapons: Option<[u8; 16]>,
    pub armor: Option<[u8; 16]>,
    pub palbox: Option<[u8; 16]>,
}

/// The view of an optional GUID.
pub open spec fn opt_guid(g: Option<[u8; 16]>) -> Option<Seq<u8>> {
    match g {
        Some(b) => Some(b@),
        None => None,
    }
}

fn try_container_id(s: &[u8], name: &[u8]) -> (r: Option<Option<[u8; 16]>>)
    requires
        s@.len() <= isize::MAX,
    ensures
        container_id(s@, name@) is None ==> r is None,
        container_id(s@, name@) matches Some(g) ==> r matches Some(rg) && opt_guid(rg) == g,
{
    if s.len() < name.len() {
        return None;
    }
    Some(extract_guid_bytes_prop(s, name))
}

/// The container ids of a player save (see `container_ids`).
pub fn read_container_ids(s: &[u8]) -> (r: Option<ContainerIds>)
    requires
        s@.len() <= isize::MAX,
    ensures
        container_ids(s@) is None ==> r is None,
        container_ids(s@) matches Some((a, b, c, d, e)) ==> r matches Some(ids) && opt_guid(ids.otomo)
            == a && opt_guid(ids.common) == b && opt_guid(ids.weapons) == c && opt_guid(ids.armor)
            == d && opt_guid(ids.palbox) == e,
{
    let a = try_container_id(s, "OtomoCharacterContainerId\0".as_bytes());
    let b = try_container_id(s, "CommonContainerId\0".as_bytes());
    let c = try_container_id(s, "WeaponLoadOutContainerId\0".as_bytes());
    let d = try_container_id(s, "PlayerEquipArmorContainerId\0".as_bytes());
    let e = try_container_id(s, "PalStorageContainerId\0".as_bytes());
    match (a, b, c, d, e) {
        (Some(a), Some(b), Some(c), Some(d), Some(e)) => Some(
            ContainerIds { otomo: a, common: b, weapons: c, armor: d, palbox: e },
        ),
        _ => None,
    }
}

/// A look property: the text when it is not empty.
pub open spec fn look_text(s: Seq<u8>, name: Seq<u8>) -> Option<Option<Seq<char>>> {
    match string_prop(s, name) {
        None => None,
        Some(t) => Some(
            if t.len() > 0 {
                Some(t)
            } else {
                None
            },
        ),
    }
}

/// What a player save records of the player's progress and look: technology points (as
/// `u32`), unlocked technologies, the active quest, completed quests, relics found (as
/// `u32`), fast travel points, notes found, talk counts per NPC (one per NPC, the last
/// entry counting), and the body, head and hair meshes and the voice (present when not
/// empty, respectively positive). `None` where the bytes are malformed.
pub open spec fn player_profile(s: Seq<u8>) -> Option<
    (
        nat,
        Seq<Seq<char>>,
        Seq<char>,
        Seq<Seq<char>>,
        nat,
        Seq<Seq<char>>,
        Seq<Seq<char>>,
        Seq<(Seq<char>, nat)>,
        (Option<Seq<char>>, Option<Seq<char>>, Option<Seq<char>>, Option<int>),
    ),
> {
    match (
        int_prop(s, "TechnologyPoint\0".spec_bytes()),
        array_strings(s, "UnlockedRecipeTechnologyNames\0".spec_bytes()),
        string_prop(s, "QuestName\0".spec_bytes()),
        array_strings(s, "CompletedQuestArray\0".spec_bytes()),
        int_prop(s, "RelicPossessNum\0".spec_bytes()),
        map_keys(s, "FastTravelPointUnlockFlag\0".spec_bytes()),
        map_keys(s, "NoteObtainForInstanceFlag\0".spec_bytes()),
        map_counts(s, "NPCTalkCountMap\0".spec_bytes()),
    ) {
        (Some(tp), Some(ut), Some(aq), Some(cq), Some(rl), Some(ft), Some(nt), Some(npc)) => match (
            look_text(s, "BodyMeshName\0".spec_bytes()),
            look_text(s, "HeadMeshName\0".spec_bytes()),
            look_text(s, "HairMeshName\0".spec_bytes()),
            int_prop(s, "VoiceID\0".spec_bytes()),
        ) {
            (Some(bm), Some(hm), Some(hr), Some(v)) => Some(
                (
                    wrap_u32(tp),
                    ut,
                    aq,
                    cq,
                    wrap_u32(rl),
                    ft,
                    nt,
                    merged_counts(npc),
                    (
                        bm,
                        hm,
                        hr,
                        if v > 0 {
                            Some(v)
                        } else {
                            None
                        },
                    ),
                ),
            ),
            _ => None,
        },
        _ => None,
    }
}

/// A player's progress and look as recorded in the player's save.
#[derive(Debug, Clone)]
pub struct PlayerProfile {
    pub technology_points: u32,
    pub unlocked_technologies: Vec<String>,
    pub active_quest: String,
    pub completed_quests: Vec<String>,
    pub relics_found: u32,
    pub fast_travel_points: Vec<String>,
    pub notes_found: Vec<String>,
    pub npc_talk_counts: Vec<(String, u32)>,
    pub body_mesh: Option<String>,
    pub head_mesh: Option<String>,
    pub hair_mesh: Option<String>,
    pub voice_id: Option<i32>,
}

/// The view of an optional text.
pub open spec fn opt_text(t: Option<String>) -> Option<Seq<char>> {
    match t {
        Some(s) => Some(s@),
        None => None,
    }
}

/// The view of a profile, in the shape of `player_profile`.
pub open spec fn profile_view(p: PlayerProfile) -> (
    nat,
    Seq<Seq<char>>,
    Seq<char>,
    Seq<Seq<char>>,
    nat,
    Seq<Seq<char>>,
    Seq<Seq<char>>,
    Seq<(Seq<char>, nat)>,
    (Option<Seq<char>>, Option<Seq<char>>, Option<Seq<char>>, Option<int>),
) {
    (
        p.technology_points as nat,
        texts(p.unlocked_technologies@),
        p.active_quest@,
        texts(p.completed_quests@),
        p.relics_found as nat,
        texts(p.fast_travel_points@),
        texts(p.notes_found@),
        pairs_view(p.npc_talk_counts@),
        (
            opt_text(p.body_mesh),
            opt_text(p.head_mesh),
            opt_text(p.hair_mesh),
            match p.voice_id {
                Some(x) => Some(x as int),
                None => None,
            },
        ),
    )
}

fn try_look(s: &[u8], name: &[u8]) -> (r: Option<Option<String>>)
    requires
        s@.len() <= isize::MAX,
    ensures
        look_text(s@, name@) is None ==> r is None,
        look_text(s@, name@) matches Some(t) ==> r matches Some(rt) && opt_text(rt) == t,
{
    match try_extract_string_prop(s, name) {
        None => None,
        Some(t) => Some(
            if t.as_str().is_empty() {
                None
            } else {
                Some(t)
            },
        ),
    }
}

fn u32_of(v: i32) -> (r: u32)
    ensures
        r == wrap_u32(v as int),
{
    if v < 0 {
        (v as i64 + 0x1_0000_0000) as u32
    } else {
        v as u32
    }
}

/// The progress and look of a player (see `player_profile`), `None` where the
/// bytes are malformed.
pub fn read_profile(s: &[u8]) -> (r: Option<PlayerProfile>)
    requires
        s@.len() <= isize::MAX,
    ensures
        player_profile(s@) is None ==> r is None,
        r matches Some(p) ==> player_profile(s@) == Some(profile_view(p)),
        player_profile(s@) matches Some((tp, ut, aq, cq, rl, ft, nt, npc, (bm, hm, hr, vo))) ==> r matches Some(
            p,
        ) && p.technology_points == tp && texts(p.unlocked_technologies@) == ut && p.active_quest@
            == aq && texts(p.completed_quests@) == cq && p.relics_found == rl && texts(
            p.fast_travel_points@,
        ) == ft && texts(p.notes_found@) == nt && pairs_view(p.npc_talk_counts@) == npc
            && opt_text(p.body_mesh) == bm && opt_text(p.head_mesh) == hm && opt_text(p.hair_mesh)
            == hr && (match p.voice_id {
            Some(x) => Some(x as int),
            None => None,
        }) == vo,
{
    let tp = try_extract_int_prop(s, "TechnologyPoint\0".as_bytes());
    let ut = try_extract_array_strings(s, "UnlockedRecipeTechnologyNames\0".as_bytes());
    let aq = try_extract_string_prop(s, "QuestName\0".as_bytes());
    let cq = try_extract_array_strings(s, "CompletedQuestArray\0".as_bytes());
    let rl = try_extract_int_prop(s, "RelicPossessNum\0".as_bytes());
    let ft = try_extract_map_keys(s, "FastTravelPointUnlockFlag\0".as_bytes());
    let nt = try_extract_map_keys(s, "NoteObtainForInstanceFlag\0".as_bytes());
    let npc = try_extract_map_counts(s, "NPCTalkCountMap\0".as_bytes());
    let (tp, ut, aq, cq, rl, ft, nt, npc) = match (tp, ut, aq, cq, rl, ft, nt, npc) {
        (Some(a), Some(b), Some(c), Some(d), Some(e), Some(f), Some(g), Some(h)) => (
            a,
            b,
            c,
            d,
            e,
            f,
            g,
            h,
        ),
        _ => return None,
    };
    let bm = try_look(s, "BodyMeshName\0".as_bytes());
    let hm = try_look(s, "HeadMeshName\0".as_bytes());
    let hr = try_look(s, "HairMeshName\0".as_bytes());
    let vo = try_extract_int_prop(s, "VoiceID\0".as_bytes());
    match (bm, hm, hr, vo) {
        (Some(bm), Some(hm), Some(hr), Some(vo)) => {
            assert(pairs_view(npc@) =~= counted(npc@));
            Some(
                PlayerProfile {
                    technology_points: u32_of(tp),
                    unlocked_technologies: ut,
                    active_quest: aq,
                    completed_quests: cq,
                    relics_found: u32_of(rl),
                    fast_travel_points: ft,
                    notes_found: nt,
                    npc_talk_counts: merge_counts(&npc),
                    body_mesh: bm,
                    head_mesh: hm,
                    hair_mesh: hr,
                    voice_id: if vo > 0 {
                        Some(vo)
                    } else {
                        None
                    },
                },
            )
        },
        _ => None,
    }
}

} // verus!
