use palagent_ai::analysis::{
    analyze_pal, analyze_pals, pal_status, read_monitor, search_chests, status_key, GenderKind,
    PalStatus,
};
use palagent_ai::camps::scan_base_camps;
use palagent_ai::db::{ItemRow, PalDb};
use palagent_ai::i18n::{I18n, Language};
use palagent_ai::level::CharacterEntry;
use palagent_ai::measure::{
    extract_any_float_prop, extract_fixed_point_prop, extract_float_prop,
    extract_vector_coords_float, AnyFloat,
};
use palagent_ai::pals::{collect_player_pals, summarize_pal};
use palagent_ai::players::{read_container_ids, read_profile, read_vitals};
use palagent_ai::progress::{capture_table, merge_counts, read_progress};
use palagent_ai::settings::read_world_settings;

fn s(x: &str) -> String {
    x.to_string()
}

fn fstr(x: &str) -> Vec<u8> {
    let mut v = Vec::new();
    v.extend_from_slice(&((x.len() + 1) as i32).to_le_bytes());
    v.extend_from_slice(x.as_bytes());
    v.push(0);
    v
}

fn head(name: &str, typ: &str) -> Vec<u8> {
    let mut b = fstr(name);
    b.extend(fstr(typ));
    b.extend_from_slice(&0u64.to_le_bytes());
    b
}

fn str_p(name: &str, v: &str) -> Vec<u8> {
    let mut b = head(name, "StrProperty");
    b.push(0);
    b.extend(fstr(v));
    b
}

fn int_p(name: &str, v: i32) -> Vec<u8> {
    let mut b = head(name, "IntProperty");
    b.push(0);
    b.extend_from_slice(&v.to_le_bytes());
    b
}

fn int64_p(name: &str, v: u64) -> Vec<u8> {
    let mut b = head(name, "Int64Property");
    b.push(0);
    b.extend_from_slice(&v.to_le_bytes());
    b
}

fn float_p(name: &str, v: f32) -> Vec<u8> {
    let mut b = head(name, "FloatProperty");
    b.push(0);
    b.extend_from_slice(&v.to_le_bytes());
    b
}

fn double_p(name: &str, v: f64) -> Vec<u8> {
    let mut b = head(name, "DoubleProperty");
    b.push(0);
    b.extend_from_slice(&v.to_le_bytes());
    b
}

fn bool_p(name: &str, v: bool) -> Vec<u8> {
    let mut b = head(name, "BoolProperty");
    b.push(v as u8);
    b.push(0);
    b
}

fn byte_p(name: &str, v: u8) -> Vec<u8> {
    let mut b = head(name, "ByteProperty");
    b.extend(fstr("None"));
    b.push(0);
    b.push(v);
    b
}

fn enum_p(name: &str, ty: &str, v: &str) -> Vec<u8> {
    let mut b = head(name, "EnumProperty");
    b.extend(fstr(ty));
    b.push(0);
    b.extend(fstr(v));
    b
}

fn guid_p(name: &str, g: [u8; 16]) -> Vec<u8> {
    let mut b = fstr(name);
    b.extend(fstr("StructProperty"));
    b.extend_from_slice(&16u64.to_le_bytes());
    b.extend(fstr("Guid"));
    b.extend_from_slice(&[0u8; 17]);
    b.extend_from_slice(&g);
    b
}

fn fixed_p(name: &str, milli: i64) -> Vec<u8> {
    let mut b = head(name, "StructProperty");
    b.extend(fstr("FixedPoint64"));
    b.extend_from_slice(&[0u8; 17]);
    b.extend(head("Value", "Int64Property"));
    b.push(0);
    b.extend_from_slice(&milli.to_le_bytes());
    b.extend(fstr("None"));
    b
}

fn names_p(name: &str, items: &[&str]) -> Vec<u8> {
    let mut b = head(name, "ArrayProperty");
    b.extend(fstr("NameProperty"));
    b.push(0);
    b.extend_from_slice(&(items.len() as u32).to_le_bytes());
    for it in items {
        b.extend(fstr(it));
    }
    b
}

fn map_p(name: &str, val_type: &str, entries: &[(&str, u32)]) -> Vec<u8> {
    let mut b = head(name, "MapProperty");
    b.extend(fstr("NameProperty"));
    b.extend(fstr(val_type));
    b.push(0);
    b.extend_from_slice(&0u32.to_le_bytes());
    b.extend_from_slice(&(entries.len() as u32).to_le_bytes());
    for (k, v) in entries {
        b.extend(fstr(k));
        b.extend_from_slice(&v.to_le_bytes());
    }
    b
}

const OWNER: [u8; 16] = [0x11; 16];
const OWNER_TEXT: &str = "11111111-1111-1111-1111-111111111111";

fn pal_record(id: &str, gender: &str, level: u8, owner: [u8; 16], container: [u8; 16], slot: i32) -> Vec<u8> {
    let mut b = bool_p("IsPlayer", false);
    b.extend(guid_p("OwnerPlayerUId", owner));
    b.extend(guid_p("ContainerId", container));
    b.extend(str_p("CharacterID", id));
    b.extend(str_p("Gender", gender));
    b.extend(byte_p("Level", level));
    b.extend(int64_p("Exp", 1234));
    b.extend(fixed_p("Hp", 5500));
    b.extend(fixed_p("MaxHp", 10000));
    b.extend(float_p("FullStomach", 35.5));
    b.extend(int_p("Talent_HP", 70));
    b.extend(int_p("Talent_Defense", 12));
    b.extend(int_p("FriendshipPoint", -1));
    b.extend(int_p("SlotIndex", slot));
    b.extend(names_p("PassiveSkillList", &["Legend", "Swift"]));
    b.extend_from_slice(&[0u8; 8]);
    b
}

#[test]
fn analyzer_entry() {
    let raw = pal_record("SheepBall", "EPalGenderType::Female", 0, OWNER, [0x22; 16], 3);
    let a = analyze_pal(&raw, Some(OWNER_TEXT)).unwrap().unwrap();
    assert_eq!(a.pal_id, "SheepBall");
    assert_eq!(a.level, 1);
    assert_eq!(a.gender, GenderKind::Female);
    assert_eq!((a.iv_hp, a.iv_attack, a.iv_defense), (70, 0, 12));
    assert_eq!(a.passives, vec![s("Legend"), s("Swift")]);
    assert!(analyze_pal(&raw, Some("someone-else")).unwrap().is_none());
    assert!(analyze_pal(&raw, None).unwrap().is_some());
}

#[test]
fn analyzer_skips_players_and_unknown_ids() {
    let mut player = bool_p("IsPlayer", true);
    player.extend_from_slice(&[0u8; 20]);
    assert!(analyze_pal(&player, None).unwrap().is_none());
    let unknown = pal_record("Desconocido", "Male", 5, OWNER, [0x22; 16], 0);
    assert!(analyze_pal(&unknown, None).unwrap().is_none());
    assert!(analyze_pal(&[1u8, 2, 3], None).is_none());
    let chars = vec![
        CharacterEntry { player_uid: s("p"), instance_id: s("a"), raw_data: player },
        CharacterEntry {
            player_uid: s("p"),
            instance_id: s("b"),
            raw_data: pal_record("PinkCat", "EPalGenderType::Male", 9, OWNER, [0x22; 16], 0),
        },
    ];
    let all = analyze_pals(&chars, None).unwrap();
    assert_eq!(all.len(), 1);
    assert_eq!((all[0].pal_id.as_str(), all[0].level, all[0].gender), ("PinkCat", 9, GenderKind::Male));
}

#[test]
fn monitor_reading_and_status() {
    let raw = pal_record("SheepBall", "Male", 3, OWNER, [0x22; 16], 0);
    let m = read_monitor(&raw, None).unwrap().unwrap();
    assert_eq!((m.hp, m.max_hp), (5500, 10000));
    assert_eq!(m.sanity_bits, None);
    assert_eq!(m.satiety_bits, Some(35.5f32.to_bits()));
    assert_eq!(pal_status(false, false, true, true, 55), PalStatus::CriticallyHungry);
    assert_eq!(pal_status(true, true, false, false, 100), PalStatus::VeryStressed);
    assert_eq!(pal_status(false, true, false, false, 100), PalStatus::Stressed);
    assert_eq!(pal_status(false, false, false, true, 100), PalStatus::NeedsFood);
    assert_eq!(pal_status(true, true, true, true, 29), PalStatus::GravelyInjured);
    assert_eq!(pal_status(false, false, false, false, 30), PalStatus::Excellent);
    assert_eq!(status_key(PalStatus::NeedsFood), "status_needs_food");
}

#[test]
fn float_readers_give_bit_patterns() {
    let mut b = float_p("ExpRate", 1.5);
    b.extend(double_p("X", -2.25));
    b.extend(fixed_p("Hp", -750));
    b.extend_from_slice(&[0u8; 8]);
    assert_eq!(extract_float_prop(&b, b"ExpRate\x00"), 1.5f32.to_bits());
    assert_eq!(extract_float_prop(&b, b"Missing\x00"), 0);
    assert_eq!(extract_any_float_prop(&b, b"ExpRate\x00"), AnyFloat::Single(1.5f32.to_bits()));
    assert_eq!(extract_any_float_prop(&b, b"X\x00"), AnyFloat::Double((-2.25f64).to_bits()));
    assert_eq!(extract_any_float_prop(&b, b"Nope\x00"), AnyFloat::Double(0));
    assert_eq!(extract_fixed_point_prop(&b, b"Hp\x00"), -750);
    assert_eq!(extract_fixed_point_prop(&b, b"MaxHp\x00"), 0);
}

#[test]
fn location_floats() {
    let mut b = vec![9u8; 3];
    b.extend(double_p("X", 100.5));
    b.extend(double_p("Y", -20.0));
    b.extend(float_p("Z", 3.0));
    b.extend_from_slice(&[0u8; 8]);
    assert_eq!(
        extract_vector_coords_float(&b, 0),
        (
            AnyFloat::Double(100.5f64.to_bits()),
            AnyFloat::Double((-20.0f64).to_bits()),
            AnyFloat::Single(3.0f32.to_bits())
        )
    );
}

#[test]
fn base_camps() {
    let mut b = vec![0u8; 4];
    b.extend_from_slice(&[0x77; 16]);
    b.extend_from_slice(b"BaseCampSaveData\x00");
    b.extend(int_p("BaseCampLevel", 4));
    b.extend(guid_p("OwnerGroupId", [0x44; 16]));
    b.extend_from_slice(b"Location\x00");
    b.extend(double_p("X", 1.0));
    b.extend(double_p("Y", 2.0));
    b.extend(double_p("Z", 3.0));
    b.extend_from_slice(&[0u8; 8]);
    let camps = scan_base_camps(&b);
    assert_eq!(camps.len(), 1);
    let c = &camps[0];
    assert_eq!(c.base_camp_id, "77777777-7777-7777-7777-777777777777");
    assert_eq!(c.group_id, "44444444-4444-4444-4444-444444444444");
    assert_eq!(c.level, 4);
    assert_eq!(
        (c.x, c.y, c.z),
        (
            AnyFloat::Double(1.0f64.to_bits()),
            AnyFloat::Double(2.0f64.to_bits()),
            AnyFloat::Double(3.0f64.to_bits())
        )
    );
    let mut bare = b"BaseCampSaveData\x00".to_vec();
    bare.extend_from_slice(&[0u8; 4]);
    let camps = scan_base_camps(&bare);
    assert_eq!(camps[0].base_camp_id, "00000000-0000-0000-0000-000000000000");
    assert_eq!(camps[0].level, 1);
    assert_eq!(camps[0].group_id, "");
}

#[test]
fn pal_summary_defaults_and_values() {
    let raw = pal_record("", "", 0, OWNER, [0x22; 16], 2);
    let p = summarize_pal(&raw).unwrap();
    assert_eq!(p.character_id, "Unknown");
    assert_eq!(p.gender, "EPalGenderType::Male");
    assert_eq!(p.level, 1);
    assert_eq!(p.exp, 1234);
    assert_eq!((p.hp, p.max_hp), (5500, 10000));
    assert_eq!(p.satiety_bits, 35.5f32.to_bits());
    assert_eq!(p.physical_health, "EPalStatusPhysicalHealthType::Normal");
    assert_eq!(p.friendship, u32::MAX);
    assert_eq!(p.talents, vec![(s("HP"), 70), (s("Defense"), 12)]);
    assert_eq!(p.passive_skills, vec![s("Legend"), s("Swift")]);
    assert_eq!(p.slot_index, 2);
}

#[test]
fn player_pals_by_container_in_slot_order() {
    let party = [0x31; 16];
    let pbox = [0x32; 16];
    let party_text = "31313131-3131-3131-3131-313131313131";
    let box_text = "32323232-3232-3232-3232-323232323232";
    let entry = |inst: &str, raw: Vec<u8>| CharacterEntry {
        player_uid: s("x"),
        instance_id: s(inst),
        raw_data: raw,
    };
    let chars = vec![
        entry("me", pal_record("Player", "", 1, OWNER, party, 0)),
        entry("a", pal_record("SheepBall", "", 1, OWNER, party, 2)),
        entry("b", pal_record("PinkCat", "", 1, OWNER, pbox, 0)),
        entry("c", pal_record("Anubis", "", 1, OWNER, party, 1)),
        entry("d", pal_record("Lamball", "", 1, [0x99; 16], party, 0)),
        entry("e", pal_record("Other", "", 1, OWNER, [0x55; 16], 0)),
    ];
    let (in_party, in_box) = collect_player_pals(&chars, OWNER_TEXT, "me", party_text, box_text).unwrap();
    let ids: Vec<&str> = in_party.iter().map(|p| p.character_id.as_str()).collect();
    assert_eq!(ids, vec!["Anubis", "SheepBall"]);
    let ids: Vec<&str> = in_box.iter().map(|p| p.character_id.as_str()).collect();
    assert_eq!(ids, vec!["PinkCat"]);
    let (none_a, none_b) = collect_player_pals(&chars, OWNER_TEXT, "", party_text, box_text).unwrap();
    assert!(none_a.is_empty() && none_b.is_empty());
}

#[test]
fn player_vitals_and_defaults() {
    let v = read_vitals(None, "00000000000000000000000000000001").unwrap();
    assert_eq!((v.nickname.as_str(), v.level), ("Host Player", 1));
    let v = read_vitals(None, "ABCDEF0123456789ABCDEF0123456789").unwrap();
    assert_eq!(v.nickname, "Player_ABCDEF01");
    assert!(read_vitals(None, "short").is_none());
    let mut raw = str_p("NickName", "Marina");
    raw.extend(byte_p("Level", 12));
    raw.extend(int64_p("Exp", 999));
    raw.extend(fixed_p("Hp", 250_000));
    raw.extend(str_p("PhysicalHealth", ""));
    raw.extend_from_slice(&[0u8; 8]);
    let v = read_vitals(Some(&raw), "ABCDEF0123456789ABCDEF0123456789").unwrap();
    assert_eq!(v.nickname, "Marina");
    assert_eq!((v.level, v.exp, v.hp, v.max_hp), (12, 999, 250_000, 0));
    assert_eq!(v.physical_health, "EPalStatusPhysicalHealthType::Normal");
}

#[test]
fn player_save_profile_and_containers() {
    let mut b = vec![0u8; 30];
    b.extend(guid_p("OtomoCharacterContainerId", [0x01; 16]));
    b.extend(guid_p("CommonContainerId", [0x02; 16]));
    b.extend(int_p("TechnologyPoint", 7));
    b.extend(names_p("UnlockedRecipeTechnologyNames", &["Workbench", "Campfire"]));
    b.extend(str_p("QuestName", "Main_01"));
    b.extend(int_p("RelicPossessNum", 3));
    b.extend(map_p("FastTravelPointUnlockFlag", "IntProperty", &[("FT1", 1), ("FT2", 1)]));
    b.extend(map_p("NPCTalkCountMap", "IntProperty", &[("Zoe", 1), ("Tina", 2), ("Zoe", 5)]));
    b.extend(str_p("BodyMeshName", "Body_02"));
    b.extend(int_p("VoiceID", 0));
    b.extend_from_slice(&[0u8; 8]);
    let ids = read_container_ids(&b).unwrap();
    assert_eq!(ids.otomo, Some([0x01; 16]));
    assert_eq!(ids.common, Some([0x02; 16]));
    assert_eq!(ids.weapons, None);
    let p = read_profile(&b).unwrap();
    assert_eq!(p.technology_points, 7);
    assert_eq!(p.unlocked_technologies, vec![s("Workbench"), s("Campfire")]);
    assert_eq!(p.active_quest, "Main_01");
    assert!(p.completed_quests.is_empty());
    assert_eq!(p.relics_found, 3);
    assert_eq!(p.fast_travel_points, vec![s("FT1"), s("FT2")]);
    assert!(p.notes_found.is_empty());
    assert_eq!(p.npc_talk_counts, vec![(s("Zoe"), 5), (s("Tina"), 2)]);
    assert_eq!(p.body_mesh, Some(s("Body_02")));
    assert_eq!(p.head_mesh, None);
    assert_eq!(p.voice_id, None);
    assert!(read_container_ids(&[0u8; 5]).is_none());
}

#[test]
fn captures_merged_and_sorted() {
    let merged = merge_counts(&vec![(s("B"), 1), (s("A"), 2), (s("B"), 12)]);
    assert_eq!(merged, vec![(s("B"), 12), (s("A"), 2)]);
    let mut b = map_p("RelicObtainForInstanceFlag", "IntProperty", &[("r1", 1), ("r2", 1)]);
    b.extend(map_p("PalCaptureCount", "IntProperty", &[("SheepBall", 3), ("PinkCat", 12), ("SheepBall", 4)]));
    b.extend_from_slice(&[0u8; 8]);
    let p = read_progress(&b).unwrap();
    assert_eq!((p.relics_found, p.notes_found, p.fast_travels_unlocked, p.areas_discovered), (2, 0, 0, 0));
    assert_eq!(p.captures, vec![(s("SheepBall"), 4), (s("PinkCat"), 12)]);
    let db = PalDb {
        pals: vec![],
        passives: vec![],
        items: vec![],
        exceptions: vec![],
        skills: vec![],
        recipes: vec![],
        drops: vec![],
    };
    let i = I18n::init(Language::En, vec![(s("SheepBall"), s("Lamball"))], vec![(s("PinkCat"), s("Cattiva"))]);
    let rows = capture_table(&db, &i, &p.captures);
    let got: Vec<(&str, &str, u32, bool, u32)> = rows
        .iter()
        .map(|r| (r.pal_id.as_str(), r.pal_name.as_str(), r.count, r.bonus_completed, r.missing_for_bonus))
        .collect();
    assert_eq!(got, vec![("PinkCat", "Cattiva", 12, true, 0), ("SheepBall", "Lamball", 4, false, 6)]);
}

#[test]
fn world_settings() {
    let mut b = enum_p("Difficulty", "EPalOptionWorldDifficulty", "EPalOptionWorldDifficulty::Normal");
    b.extend(float_p("ExpRate", 2.0));
    b.extend(float_p("PalEggDefaultHatchingTime", 72.0));
    b.extend(enum_p("DeathPenalty", "EPalOptionWorldDeathPenalty", "EPalOptionWorldDeathPenalty::All"));
    b.extend(bool_p("bIsPvP", true));
    b.extend(int_p("GuildPlayerMaxNum", 20));
    b.extend_from_slice(&[0u8; 8]);
    let w = read_world_settings(&b).unwrap();
    assert_eq!(w.difficulty, "EPalOptionWorldDifficulty::Normal");
    assert_eq!(w.death_penalty, "EPalOptionWorldDeathPenalty::All");
    assert_eq!(w.rates.len(), 11);
    assert_eq!(w.rates[0], 2.0f32.to_bits());
    assert_eq!(w.rates[1], 0);
    assert_eq!(w.rates[10], 72.0f32.to_bits());
    assert_eq!(w.switches, vec![false, true, false, false]);
    assert_eq!(w.limits, vec![20, 0]);
    assert!(read_world_settings(&[0u8; 3]).is_none());
}

#[test]
fn chest_search_hits() {
    let mut level = vec![0u8; 4];
    level.extend_from_slice(b"MapObjectId\x00");
    level.extend(fstr("NameProperty"));
    level.extend_from_slice(&0u64.to_le_bytes());
    level.push(0);
    level.extend(fstr("ItemChest"));
    level.extend_from_slice(b"EPalMapObjectConcreteModelModuleType::ItemContainer\x00");
    level.extend_from_slice(b"RawData\x00");
    level.extend(fstr("ArrayProperty"));
    level.extend_from_slice(&20u64.to_le_bytes());
    level.extend(fstr("ByteProperty"));
    level.push(0);
    level.extend_from_slice(&16u32.to_le_bytes());
    let guid = [0x6b; 16];
    level.extend_from_slice(&guid);
    level.extend_from_slice(&[0u8; 1100]);
    level.extend_from_slice(&guid);
    level.extend_from_slice(b"BelongInfo");
    level.extend(fstr("Slots"));
    level.extend(fstr("ArrayProperty"));
    level.extend_from_slice(&0u64.to_le_bytes());
    level.extend(fstr("StructProperty"));
    level.push(0);
    level.extend_from_slice(&2u32.to_le_bytes());
    level.extend(fstr("Slots"));
    level.extend(fstr("StructProperty"));
    level.extend_from_slice(&0u64.to_le_bytes());
    level.extend(fstr("PalItemSlotSaveData"));
    level.extend_from_slice(&[0u8; 17]);
    for (slot, count, id) in [(0u32, 5u32, "Wood"), (1, 9, "Stone")] {
        let mut raw = Vec::new();
        raw.extend_from_slice(&slot.to_le_bytes());
        raw.extend_from_slice(&count.to_le_bytes());
        raw.extend_from_slice(&((id.len() + 1) as u32).to_le_bytes());
        raw.extend_from_slice(id.as_bytes());
        raw.push(0);
        level.extend(fstr("RawData"));
        level.extend(fstr("ArrayProperty"));
        level.extend_from_slice(&((raw.len() + 4) as u64).to_le_bytes());
        level.extend(fstr("ByteProperty"));
        level.push(0);
        level.extend_from_slice(&(raw.len() as u32).to_le_bytes());
        level.extend_from_slice(&raw);
    }
    level.extend_from_slice(&[0u8; 8]);
    let db = PalDb {
        pals: vec![],
        passives: vec![],
        items: vec![ItemRow { internal_id: s("Wood"), name_en: s("Wood"), name_es: s("Madera") }],
        exceptions: vec![],
        skills: vec![],
        recipes: vec![],
        drops: vec![],
    };
    let i = I18n::init(Language::Es, vec![], vec![]);
    let hits = search_chests(&db, &i, &level, "MADE").unwrap();
    assert_eq!(hits.len(), 1);
    assert_eq!((hits[0].item_id.as_str(), hits[0].item_name.as_str(), hits[0].count), ("Wood", "Madera", 5));
    assert_eq!(hits[0].container_guid, guid);
    assert_eq!(hits[0].chest_type, "ItemChest");
    assert_eq!((hits[0].x, hits[0].y, hits[0].z), (0, 0, 0));
    assert!(search_chests(&db, &i, &level, "gold").unwrap().is_empty());
}
