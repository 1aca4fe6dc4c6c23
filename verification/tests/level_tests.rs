use palagent_ai::level::{
    clean_seeds_in_bytes, extract_vector_coords, find_chest_containers,
    parse_container_items, scan_character_save_parameters, scan_guilds,
    try_find_chest_containers, try_scan_character_save_parameters,
};

fn fstr(s: &str) -> Vec<u8> {
    let mut v = Vec::new();
    v.extend_from_slice(&((s.len() + 1) as i32).to_le_bytes());
    v.extend_from_slice(s.as_bytes());
    v.push(0);
    v
}

fn guid_field(name: &str, guid: [u8; 16]) -> Vec<u8> {
    let mut b = fstr(name);
    b.extend(fstr("StructProperty"));
    b.extend_from_slice(&16u64.to_le_bytes());
    b.extend(fstr("Guid"));
    b.extend_from_slice(&[0u8; 17]);
    b.extend_from_slice(&guid);
    b
}

fn raw_data_field(raw: &[u8]) -> Vec<u8> {
    let mut b = fstr("RawData");
    b.extend(fstr("ArrayProperty"));
    b.extend_from_slice(&((raw.len() + 4) as u64).to_le_bytes());
    b.extend(fstr("ByteProperty"));
    b.push(0);
    b.extend_from_slice(&(raw.len() as u32).to_le_bytes());
    b.extend_from_slice(raw);
    b
}

fn slot_raw(slot: u32, count: u32, id: &str) -> Vec<u8> {
    let mut b = Vec::new();
    b.extend_from_slice(&slot.to_le_bytes());
    b.extend_from_slice(&count.to_le_bytes());
    b.extend_from_slice(&((id.len() + 1) as u32).to_le_bytes());
    b.extend_from_slice(id.as_bytes());
    b.push(0);
    b
}

fn character_map(records: &[([u8; 16], [u8; 16], Vec<u8>)]) -> Vec<u8> {
    let mut b = vec![7u8; 10];
    b.extend_from_slice(b"CharacterSaveParameterMap\x00");
    b.extend(fstr("MapProperty"));
    b.extend_from_slice(&0u64.to_le_bytes());
    b.extend(fstr("StructProperty"));
    b.extend(fstr("StructProperty"));
    b.push(0);
    b.extend_from_slice(&0u32.to_le_bytes());
    b.extend_from_slice(&(records.len() as u32).to_le_bytes());
    for (player, instance, raw) in records {
        b.extend(guid_field("PlayerUId", *player));
        b.extend(guid_field("InstanceId", *instance));
        b.extend(fstr("None"));
        b.extend(raw_data_field(raw));
        b.extend(fstr("None"));
    }
    b.extend_from_slice(&[0u8; 8]);
    b
}

#[test]
fn character_records_are_listed() {
    let level = character_map(&[
        ([0x11; 16], [0x22; 16], b"pal bytes".to_vec()),
        ([0x33; 16], [0x44; 16], Vec::new()),
    ]);
    let entries = scan_character_save_parameters(&level);
    assert_eq!(entries.len(), 1);
    assert_eq!(entries[0].player_uid, "11111111-1111-1111-1111-111111111111");
    assert_eq!(entries[0].instance_id, "22222222-2222-2222-2222-222222222222");
    assert_eq!(entries[0].raw_data, b"pal bytes".to_vec());
}

#[test]
fn character_scan_without_map() {
    let level = vec![0u8; 64];
    assert!(scan_character_save_parameters(&level).is_empty());
    assert_eq!(try_scan_character_save_parameters(&[0u8; 3]).map(|v| v.len()), None);
}

fn container_level(guid: [u8; 16], slots: &[Vec<u8>]) -> Vec<u8> {
    let mut b = vec![1u8; 5];
    b.extend_from_slice(&guid);
    b.extend_from_slice(b"..BelongInfo..");
    b.extend(fstr("Slots"));
    b.extend(fstr("ArrayProperty"));
    b.extend_from_slice(&0u64.to_le_bytes());
    b.extend(fstr("StructProperty"));
    b.push(0);
    b.extend_from_slice(&(slots.len() as u32).to_le_bytes());
    b.extend(fstr("Slots"));
    b.extend(fstr("StructProperty"));
    b.extend_from_slice(&0u64.to_le_bytes());
    b.extend(fstr("PalItemSlotSaveData"));
    b.extend_from_slice(&[0u8; 17]);
    for raw in slots {
        let mut idx = fstr("SlotIndex");
        idx.extend(fstr("IntProperty"));
        idx.extend_from_slice(&4u64.to_le_bytes());
        idx.push(0);
        idx.extend_from_slice(&0u32.to_le_bytes());
        b.extend(idx);
        b.extend(raw_data_field(raw));
    }
    b.extend_from_slice(&[0u8; 8]);
    b
}

#[test]
fn container_items_with_counts() {
    let guid = [0x5a; 16];
    let level = container_level(
        guid,
        &[slot_raw(0, 3, "Wood"), slot_raw(1, 0, "Stone"), slot_raw(2, 12, "PalSphere")],
    );
    let items = parse_container_items(&level, &guid);
    let got: Vec<(u32, &str, u32)> =
        items.iter().map(|i| (i.slot_index, i.item_id.as_str(), i.count)).collect();
    assert_eq!(got, vec![(0, "Wood", 3), (2, "PalSphere", 12)]);
    assert!(parse_container_items(&level, &[0x01; 16]).is_empty());
}

#[test]
fn vector_coords_bits() {
    let mut b = vec![0u8; 2];
    for v in [1.5f64, -2.0, 3.25] {
        b.extend_from_slice(&v.to_le_bytes());
    }
    let mut off = 2usize;
    assert_eq!(
        extract_vector_coords(&b, &mut off),
        (1.5f64.to_bits(), (-2.0f64).to_bits(), 3.25f64.to_bits())
    );
    assert_eq!(off, 26);
    let mut off = 3usize;
    assert_eq!(extract_vector_coords(&b, &mut off), (0, 0, 0));
    assert_eq!(off, 3);
}

fn chest_level(with_tail: bool) -> Vec<u8> {
    let mut b = vec![0u8; 4];
    b.extend_from_slice(b"MapObjectId\x00");
    b.extend(fstr("NameProperty"));
    b.extend_from_slice(&0u64.to_le_bytes());
    b.push(0);
    b.extend(fstr("ItemChest_02"));
    b.extend_from_slice(b"translation\x00");
    b.extend(fstr("StructProperty"));
    b.extend_from_slice(&24u64.to_le_bytes());
    b.extend(fstr("Vector"));
    b.extend_from_slice(&[0u8; 17]);
    for v in [100.0f64, -50.5, 7.0] {
        b.extend_from_slice(&v.to_le_bytes());
    }
    b.extend_from_slice(b"EPalMapObjectConcreteModelModuleType::ItemContainer\x00");
    b.extend_from_slice(b"RawData\x00");
    b.extend(fstr("ArrayProperty"));
    b.extend_from_slice(&20u64.to_le_bytes());
    b.extend(fstr("ByteProperty"));
    b.push(0);
    b.extend_from_slice(&16u32.to_le_bytes());
    b.extend_from_slice(&[0x9c; 16]);
    if with_tail {
        b.extend_from_slice(&[0u8; 1100]);
    }
    b
}

#[test]
fn chests_with_type_and_position() {
    let level = chest_level(true);
    let chests = find_chest_containers(&level);
    assert_eq!(
        chests,
        vec![(
            [0x9c; 16],
            "ItemChest_02".to_string(),
            (100.0f64.to_bits(), (-50.5f64).to_bits(), 7.0f64.to_bits())
        )]
    );
}

#[test]
fn chest_scan_near_end_is_refused() {
    assert_eq!(try_find_chest_containers(&chest_level(false)), None);
}

#[test]
fn seeds_are_cleared() {
    let mut level = vec![0u8; 3];
    level.extend(raw_data_field(&slot_raw(4, 7, "TomatoSeeds")));
    level.extend(raw_data_field(&slot_raw(5, 2, "Wood")));
    level.extend_from_slice(&[0u8; 4]);
    let before = level.clone();
    let cleaned = clean_seeds_in_bytes(&mut level);
    assert_eq!(cleaned, vec![("TomatoSeeds".to_string(), 7)]);
    assert_eq!(level.len(), before.len());
    let start = before.windows(11).position(|w| w == b"TomatoSeeds").unwrap() - 12;
    for i in 0..before.len() {
        if i >= start + 4 && i < start + 12 + 12 {
            assert_eq!(level[i], 0, "byte {} should be cleared", i);
        } else {
            assert_eq!(level[i], before[i], "byte {} should be kept", i);
        }
    }
}

fn str_field(name: &str, value: &str) -> Vec<u8> {
    let mut b = fstr(name);
    b.extend(fstr("StrProperty"));
    b.extend_from_slice(&0u64.to_le_bytes());
    b.push(0);
    b.extend(fstr(value));
    b
}

#[test]
fn guild_summary() {
    let mut b = vec![0u8; 8];
    b.extend_from_slice(b"EPalGroupType::Guild\x00");
    b.extend(guid_field("GroupId", [0x44; 16]));
    b.extend(str_field("GuildName", "Wolves"));
    b.extend(guid_field("AdminPlayerUId", [0xaa; 16]));
    b.extend(guid_field("PlayerUId", [0x22; 16]));
    b.extend(guid_field("PlayerUId", [0x00; 16]));
    b.extend(guid_field("player_uid", [0x33; 16]));
    b.extend(guid_field("PlayerUId", [0x22; 16]));
    b.extend_from_slice(&[0u8; 40]);
    let guilds = scan_guilds(&b);
    assert_eq!(guilds.len(), 1);
    let g = &guilds[0];
    assert_eq!(g.guild_id, "44444444-4444-4444-4444-444444444444");
    assert_eq!(g.guild_name, "Wolves");
    assert_eq!(g.admin_player_uid, "aaaaaaaa-aaaa-aaaa-aaaa-aaaaaaaaaaaa");
    assert_eq!(
        g.members,
        vec![
            "22222222-2222-2222-2222-222222222222".to_string(),
            "33333333-3333-3333-3333-333333333333".to_string(),
            "aaaaaaaa-aaaa-aaaa-aaaa-aaaaaaaaaaaa".to_string(),
        ]
    );
}

#[test]
fn guild_without_name_is_default() {
    let mut b = vec![0u8; 8];
    b.extend_from_slice(b"EPalGroupType::Guild\x00");
    b.extend_from_slice(&[0u8; 40]);
    let guilds = scan_guilds(&b);
    assert_eq!(guilds.len(), 1);
    assert_eq!(guilds[0].guild_name, "Default Guild");
    assert_eq!(guilds[0].guild_id, "00000000-0000-0000-0000-000000000000");
    assert_eq!(guilds[0].admin_player_uid, "");
    assert!(guilds[0].members.is_empty());
    assert!(scan_guilds(b"no guilds here").is_empty());
}

#[test]
fn clean_seeds_twice_changes_nothing() {
    let mut level = vec![0u8; 6];
    level.extend(raw_data_field(&slot_raw(7, 3, "TomatoSeeds")));
    level.extend(raw_data_field(&slot_raw(5, 2, "Wood")));
    level.extend(raw_data_field(&slot_raw(2, 1, "WheatSeed")));
    level.extend_from_slice(&[0u8; 4]);
    let first = clean_seeds_in_bytes(&mut level);
    assert_eq!(first, vec![("TomatoSeeds".to_string(), 3), ("WheatSeed".to_string(), 1)]);
    let after_first = level.clone();
    let second = clean_seeds_in_bytes(&mut level);
    assert!(second.is_empty());
    assert_eq!(level, after_first);
}
