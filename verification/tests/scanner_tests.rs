use palagent_ai::scanner::{
    extract_array_strings, extract_bool_prop, extract_byte_prop, extract_enum_prop,
    extract_guid_prop, extract_int64_prop, extract_int_prop, extract_map_counts,
    extract_map_keys, extract_string_prop, find_pattern, has_prop, skip_property_at,
    try_extract_int_prop, try_extract_string_prop,
};

fn fstr(s: &str) -> Vec<u8> {
    let mut v = Vec::new();
    v.extend_from_slice(&((s.len() + 1) as i32).to_le_bytes());
    v.extend_from_slice(s.as_bytes());
    v.push(0);
    v
}

/// Name, type and an 8-byte size, as a GVAS property header.
fn header(name: &str, typ: &str, size: u64) -> Vec<u8> {
    let mut v = fstr(name);
    v.extend(fstr(typ));
    v.extend_from_slice(&size.to_le_bytes());
    v
}

fn padded(mut v: Vec<u8>) -> Vec<u8> {
    v.extend_from_slice(&[0xEE; 4]);
    v
}

#[test]
fn int_prop_is_read_after_header() {
    let mut b = header("GuildPlayerMaxNum", "IntProperty", 4);
    b.push(0);
    b.extend_from_slice(&42i32.to_le_bytes());
    let b = padded(b);
    assert_eq!(extract_int_prop(&b, b"GuildPlayerMaxNum\x00"), 42);
    assert_eq!(try_extract_int_prop(&b, b"GuildPlayerMaxNum\x00"), Some(42));
}

#[test]
fn int_prop_negative_value() {
    let mut b = header("Level", "IntProperty", 4);
    b.push(0);
    b.extend_from_slice(&(-7i32).to_le_bytes());
    let b = padded(b);
    assert_eq!(extract_int_prop(&b, b"Level\x00"), -7);
}

#[test]
fn int_prop_wrong_type_or_missing_is_zero() {
    let mut b = header("Level", "FloatProperty", 4);
    b.push(0);
    b.extend_from_slice(&[0, 0, 0x80, 0x3f]);
    let b = padded(b);
    assert_eq!(extract_int_prop(&b, b"Level\x00"), 0);
    assert_eq!(extract_int_prop(&b, b"Exp\x00"), 0);
}

#[test]
fn short_buffer_is_refused_by_try_version() {
    let b = vec![1u8, 2];
    assert_eq!(try_extract_int_prop(&b, b"Level\x00"), None);
    assert_eq!(try_extract_string_prop(&b, b"Level\x00"), None);
}

#[test]
fn int64_prop() {
    let mut b = header("Ticks", "Int64Property", 8);
    b.push(0);
    b.extend_from_slice(&0x0102_0304_0506_0708u64.to_le_bytes());
    let b = padded(b);
    assert_eq!(extract_int64_prop(&b, b"Ticks\x00"), 0x0102_0304_0506_0708);
}

#[test]
fn string_and_name_props() {
    let mut b = header("NickName", "StrProperty", 9);
    b.push(0);
    b.extend(fstr("Roberto"));
    let mut n = header("Region", "NameProperty", 9);
    n.push(0);
    n.extend(fstr("North"));
    b.extend(n);
    let b = padded(b);
    assert_eq!(extract_string_prop(&b, b"NickName\x00"), "Roberto");
    assert_eq!(extract_string_prop(&b, b"Region\x00"), "North");
    assert_eq!(extract_string_prop(&b, b"Other\x00"), "");
}

#[test]
fn bool_prop() {
    let mut b = header("bIsPvP", "BoolProperty", 0);
    b.push(1);
    b.push(0);
    let mut c = header("bIsMultiplay", "BoolProperty", 0);
    c.push(0);
    c.push(0);
    b.extend(c);
    let b = padded(b);
    assert!(extract_bool_prop(&b, b"bIsPvP\x00"));
    assert!(!extract_bool_prop(&b, b"bIsMultiplay\x00"));
    assert!(!extract_bool_prop(&b, b"bNothing\x00"));
}

#[test]
fn byte_prop_reads_only_plain_bytes() {
    let mut b = header("Rank", "ByteProperty", 1);
    b.extend(fstr("None"));
    b.push(0);
    b.push(5);
    let mut e = header("Kind", "ByteProperty", 1);
    e.extend(fstr("EKind"));
    e.push(0);
    e.push(9);
    b.extend(e);
    let b = padded(b);
    assert_eq!(extract_byte_prop(&b, b"Rank\x00"), 5);
    assert_eq!(extract_byte_prop(&b, b"Kind\x00"), 0);
}

#[test]
fn enum_prop() {
    let mut b = header("Difficulty", "EnumProperty", 20);
    b.extend(fstr("EPalOptionWorldDifficulty"));
    b.push(0);
    b.extend(fstr("EPalOptionWorldDifficulty::Hard"));
    let b = padded(b);
    assert_eq!(extract_enum_prop(&b, b"Difficulty\x00"), "EPalOptionWorldDifficulty::Hard");
}

#[test]
fn has_prop_and_find_pattern() {
    let b = b"xxLevel\x00yyLevel\x00zz".to_vec();
    assert!(has_prop(&b, b"Level\x00"));
    assert!(!has_prop(&b, b"Exp\x00"));
    assert_eq!(find_pattern(&b, b"Level", 0), Some(2));
    assert_eq!(find_pattern(&b, b"Level", 3), Some(10));
    assert_eq!(find_pattern(&b, b"Level", 11), None);
    assert_eq!(find_pattern(&b, b"zz", 16), Some(16));
    assert_eq!(find_pattern(&b, b"zzz", 16), None);
}

#[test]
fn guid_prop_reads_sixteen_bytes_after_guid_marker() {
    let mut b = b"..OwnerId\x00".to_vec();
    b.extend(fstr("StructProperty"));
    b.extend_from_slice(&16u64.to_le_bytes());
    let guid_at = b.len();
    b.extend_from_slice(b"Guid");
    while b.len() < guid_at + 22 {
        b.push(0);
    }
    b.extend_from_slice(&[
        0x04, 0x03, 0x02, 0x01, 0x08, 0x07, 0x06, 0x05, 0x0c, 0x0b, 0x0a, 0x09, 0x10, 0x0f,
        0x0e, 0x0d,
    ]);
    b.extend_from_slice(&[0; 4]);
    assert_eq!(
        extract_guid_prop(&b, b"OwnerId\x00"),
        Some("01020304-0506-0708-090a-0b0c0d0e0f10".to_string())
    );
    assert_eq!(extract_guid_prop(&b, b"Missing\x00"), None);
}

fn map_prop(name: &str, val_type: &str, entries: &[(&str, u32)]) -> Vec<u8> {
    let mut b = header(name, "MapProperty", 0);
    b.extend(fstr("NameProperty"));
    b.extend(fstr(val_type));
    b.push(0);
    b.extend_from_slice(&0u32.to_le_bytes());
    b.extend_from_slice(&(entries.len() as u32).to_le_bytes());
    for (k, v) in entries {
        b.extend(fstr(k));
        b.extend_from_slice(&v.to_le_bytes());
    }
    b
}

#[test]
fn map_keys_in_file_order() {
    let b = padded(map_prop("RecordMap", "BoolProperty", &[]));
    assert!(extract_map_keys(&b, b"RecordMap\x00").is_empty());
    let b = padded(map_prop("PalCaptureCount", "IntProperty", &[("SheepBall", 3), ("PinkCat", 12)]));
    assert_eq!(extract_map_keys(&b, b"PalCaptureCount\x00"), vec!["SheepBall", "PinkCat"]);
}

#[test]
fn map_counts_in_file_order() {
    let b = padded(map_prop("PalCaptureCount", "IntProperty", &[("SheepBall", 3), ("PinkCat", 12)]));
    assert_eq!(
        extract_map_counts(&b, b"PalCaptureCount\x00"),
        vec![("SheepBall".to_string(), 3), ("PinkCat".to_string(), 12)]
    );
    assert!(extract_map_counts(&b, b"NoSuchMap\x00").is_empty());
}

#[test]
fn map_counts_keep_last_value_of_repeated_key() {
    let mut b = b"M\x00".to_vec();
    b.extend(fstr("MapProperty"));
    b.extend_from_slice(&[0u8; 12]);
    b.extend(fstr("IntProperty"));
    b.push(0);
    b.extend_from_slice(&[0, 0, 0, 0]);
    b.extend_from_slice(&[2, 0, 0, 0]);
    b.extend(fstr("a"));
    b.extend_from_slice(&[5, 0, 0, 0]);
    b.extend(fstr("a"));
    b.extend_from_slice(&[9, 0, 0, 0]);
    assert_eq!(extract_map_counts(&b, b"M\x00"), vec![("a".to_string(), 9)]);
    let b = padded(map_prop("C", "IntProperty", &[("x", 1), ("y", 2), ("x", 3)]));
    assert_eq!(extract_map_counts(&b, b"C\x00"), vec![("x".to_string(), 3), ("y".to_string(), 2)]);
}

#[test]
fn map_counts_of_non_int_map_are_zero() {
    let b = padded(map_prop("Flags", "StructProperty", &[("A", 7)]));
    assert_eq!(extract_map_counts(&b, b"Flags\x00"), vec![("A".to_string(), 0)]);
}

#[test]
fn array_of_names() {
    let mut b = header("UnlockedRecipes", "ArrayProperty", 0);
    b.extend(fstr("NameProperty"));
    b.push(0);
    b.extend_from_slice(&3u32.to_le_bytes());
    b.extend(fstr("Axe"));
    b.extend(fstr(""));
    b.extend(fstr("Bow"));
    let b = padded(b);
    assert_eq!(extract_array_strings(&b, b"UnlockedRecipes\x00"), vec!["Axe", "Bow"]);
    assert!(extract_array_strings(&b, b"Other\x00").is_empty());
}

#[test]
fn skip_property_by_type() {
    let mut b = fstr("Vector");
    b.extend_from_slice(&[0; 40]);
    let mut off = 0usize;
    skip_property_at(&b, &mut off, "StructProperty", 12);
    assert_eq!(off, 11 + 17 + 12);

    let mut off = 3usize;
    skip_property_at(&b, &mut off, "BoolProperty", 99);
    assert_eq!(off, 5);

    let mut off = 0usize;
    skip_property_at(&b, &mut off, "IntProperty", 4);
    assert_eq!(off, 5);

    let mut off = 0usize;
    skip_property_at(&b, &mut off, "EnumProperty", 4);
    assert_eq!(off, 11 + 1 + 4);
}
