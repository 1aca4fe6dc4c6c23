//! The full report: everything about one player (vitals, progress, inventories and
//! pals), and the report that gathers the players, base camps and guilds of a world.
use vstd::prelude::*;
use crate::camps::BaseCampSummary;
use crate::db::{first_from, lemma_first_from_found};
use crate::guid::{format_guid, guid_text};
use crate::level::{container_items, items_view, try_parse_container_items, CharacterEntry, GuildSummary, InventoryItem};
use crate::pals::{collect_player_pals, pals_view, player_pals, slot_ordered, sorted_by_slot, PalSummary};
use crate::players::{
    container_ids, opt_guid, player_profile, player_vitals, profile_view, read_container_ids, read_profile,
    read_vitals, vitals_view, PlayerProfile, Vitals,
};
use crate::text::text_eq;

verus! {

/// Character records of the player with this GUID text.
pub open spec fn uid_is(uid: Seq<char>) -> spec_fn(CharacterEntry) -> bool {
    |e: CharacterEntry| e.player_uid@ == uid
}

/// The player's own character record: the first one with the player's GUID.
pub open spec fn player_record(chars: Seq<CharacterEntry>, uid: Seq<char>) -> Option<int> {
    first_from(chars, uid_is(uid), 0)
}

/// The items of a container (none when the player save names no such container);
/// `None` where the bytes are malformed.
pub open spec fn inventory(level: Seq<u8>, g: Option<Seq<u8>>) -> Option<Seq<(nat, Seq<char>, nat)>> {
    match g {
        None => Some(Seq::empty()),
        Some(g) => container_items(level, g),
    }
}

/// The GUID text of an optional container id (empty without one).
pub open spec fn id_text(g: Option<Seq<u8>>) -> Seq<char> {
    match g {
        Some(b) => guid_text(b),
        None => Seq::empty(),
    }
}

/// Whether the full report can be built for a player from well-formed
/// bytes: the vitals (from the player's own record, if any), the container ids, the
/// three inventories, the pals and the progress can all be read.
pub open spec fn player_readable(
    level: Seq<u8>,
    chars: Seq<CharacterEntry>,
    save: Seq<u8>,
    stem: &str,
    uid: Seq<char>,
) -> bool {
    let rec = player_record(chars, uid);
    let raw = match rec {
        Some(i) => Some(chars[i].raw_data@),
        None => None,
    };
    let inst = match rec {
        Some(i) => chars[i].instance_id@,
        None => Seq::empty(),
    };
    &&& player_vitals(raw, stem) is Some
    &&& container_ids(save) matches Some((otomo, common, weapons, armor, palbox)) && {
        &&& inventory(level, common) is Some
        &&& inventory(level, weapons) is Some
        &&& inventory(level, armor) is Some
        &&& player_pals(chars, uid, inst, id_text(otomo), id_text(palbox), chars.len()) is Some
    }
    &&& player_profile(save) is Some
}

/// One player of the full report; pal health and fullness are kept as integers (see
/// `PalSummary`).
#[derive(Debug, Clone)]
pub struct PlayerSummary {
    pub player_uid: String,
    pub instance_id: String,
    pub vitals: Vitals,
    pub profile: PlayerProfile,
    pub common_inventory: Vec<InventoryItem>,
    pub weapons: Vec<InventoryItem>,
    pub armor: Vec<InventoryItem>,
    pub active_pals: Vec<PalSummary>,
    pub palbox_pals: Vec<PalSummary>,
}

fn find_player_record(chars: &Vec<CharacterEntry>, uid: &str) -> (r: Option<usize>)
    ensures
        crate::wire::opt_pos(r) == player_record(chars@, uid@),
{
    let mut i: usize = 0;
    while i < chars.len()
        invariant
            i <= chars@.len(),
            player_record(chars@, uid@) == first_from(chars@, uid_is(uid@), i as int),
        decreases chars@.len() - i,
    {
        if text_eq(chars[i].player_uid.as_str(), uid) {
            return Some(i);
        }
        i = i + 1;
    }
    None
}

fn read_inventory(level: &[u8], g: Option<[u8; 16]>) -> (r: Option<Vec<InventoryItem>>)
    requires
        level@.len() <= isize::MAX,
    ensures
        inventory(level@, opt_guid(g)) is None ==> r is None,
        inventory(level@, opt_guid(g)) matches Some(k) ==> r matches Some(v) && items_view(v@) == k,
{
    match g {
        None => {
            let v: Vec<InventoryItem> = Vec::new();
            assert(items_view(v@) =~= Seq::<(nat, Seq<char>, nat)>::empty());
            Some(v)
        },
        Some(b) => try_parse_container_items(level, &b),
    }
}

fn guid_or_empty(g: Option<[u8; 16]>) -> (r: String)
    ensures
        r@ == id_text(opt_guid(g)),
{
    match g {
        Some(b) => format_guid(&b),
        None => String::new(),
    }
}

/// Everything the full report shows of one player: the vitals from the player's own
/// character record (the first with the player's GUID), the container ids and
/// progress from the player's save, the three inventories from the level data, and
/// the party and pal-box pals (each in slot order). `None` exactly where the
/// bytes are malformed.
pub fn summarize_player(
    level_bytes: &[u8],
    chars: &Vec<CharacterEntry>,
    player_bytes: &[u8],
    stem: &str,
    player_uid: &str,
) -> (r: Option<PlayerSummary>)
    requires
        level_bytes@.len() <= isize::MAX,
        player_bytes@.len() <= isize::MAX,
        forall|k: int| 0 <= k < chars@.len() ==> (#[trigger] chars@[k]).raw_data@.len() <= isize::MAX,
    ensures
        r is Some <==> player_readable(level_bytes@, chars@, player_bytes@, stem, player_uid@),
        r matches Some(p) ==> {
            let rec = player_record(chars@, player_uid@);
            let raw = match rec {
                Some(i) => Some(chars@[i].raw_data@),
                None => None,
            };
            let inst = match rec {
                Some(i) => chars@[i].instance_id@,
                None => Seq::empty(),
            };
            let ids = container_ids(player_bytes@)->0;
            let pals = player_pals(
                chars@,
                player_uid@,
                inst,
                id_text(ids.0),
                id_text(ids.4),
                chars@.len(),
            )->0;
            &&& p.player_uid@ == player_uid@
            &&& p.instance_id@ == inst
            &&& vitals_view(p.vitals) == player_vitals(raw, stem)->0
            &&& items_view(p.common_inventory@) == inventory(level_bytes@, ids.1)->0
            &&& items_view(p.weapons@) == inventory(level_bytes@, ids.2)->0
            &&& items_view(p.armor@) == inventory(level_bytes@, ids.3)->0
            &&& pals_view(p.active_pals@) == sorted_by_slot(pals.0)
            &&& pals_view(p.palbox_pals@) == sorted_by_slot(pals.1)
            &&& slot_ordered(pals_view(p.active_pals@)) && slot_ordered(pals_view(p.palbox_pals@))
            &&& player_profile(player_bytes@) == Some(profile_view(p.profile))
        },
{
    let rec = find_player_record(chars, player_uid);
    proof {
        lemma_first_from_found(chars@, uid_is(player_uid@), 0);
    }
    let raw: Option<&[u8]> = match rec {
        Some(i) => Some(chars[i].raw_data.as_slice()),
        None => None,
    };
    let instance = match rec {
        Some(i) => crate::db::owned(chars[i].instance_id.as_str()),
        None => String::new(),
    };
    let vitals = read_vitals(raw, stem);
    let ids = match read_container_ids(player_bytes) {
        None => return None,
        Some(ids) => ids,
    };
    let common = read_inventory(level_bytes, ids.common);
    let weapons = read_inventory(level_bytes, ids.weapons);
    let armor = read_inventory(level_bytes, ids.armor);
    let otomo = guid_or_empty(ids.otomo);
    let palbox = guid_or_empty(ids.palbox);
    let pals = collect_player_pals(chars, player_uid, instance.as_str(), otomo.as_str(), palbox.as_str());
    let profile = read_profile(player_bytes);
    match (vitals, common, weapons, armor, pals, profile) {
        (Some(v), Some(c), Some(w), Some(a), Some((party, boxed)), Some(pr)) => Some(
            PlayerSummary {
                player_uid: crate::db::owned(player_uid),
                instance_id: instance,
                vitals: v,
                profile: pr,
                common_inventory: c,
                weapons: w,
                armor: a,
                active_pals: party,
                palbox_pals: boxed,
            },
        ),
        _ => None,
    }
}

/// The full report of a world: its path and game mode, its players, base camps and
/// guilds.
#[derive(Debug, Clone)]
pub struct OutputJson {
    pub status: String,
    pub world_path: String,
    pub game_mode: String,
    pub players: Vec<PlayerSummary>,
    pub base_camps: Vec<BaseCampSummary>,
    pub guilds: Vec<GuildSummary>,
}

} // verus!
