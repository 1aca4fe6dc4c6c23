use palagent_ai::world::{detect_game_mode, get_world_name, local_player_uid, steam_id_of_folder};

fn fstr(s: &str) -> Vec<u8> {
    let mut v = Vec::new();
    v.extend_from_slice(&((s.len() + 1) as i32).to_le_bytes());
    v.extend_from_slice(s.as_bytes());
    v.push(0);
    v
}

fn meta_with_name(name: &str) -> Vec<u8> {
    let mut b = fstr("SaveData");
    b.extend(fstr("WorldName"));
    b.extend(fstr("StrProperty"));
    b.extend_from_slice(&((name.len() + 5) as u64).to_le_bytes());
    b.push(0);
    b.extend(fstr(name));
    b.extend_from_slice(&[0; 4]);
    b
}

#[test]
fn world_name_prefers_meta() {
    let meta = meta_with_name("Isla Feliz");
    assert_eq!(get_world_name(Some(meta.as_slice()), Some("ABCDEF"), "unknown"), "Isla Feliz");
}

#[test]
fn world_name_falls_back_to_folder_then_unknown() {
    let meta = meta_with_name("");
    assert_eq!(get_world_name(Some(meta.as_slice()), Some("ABCDEF"), "unknown"), "ABCDEF");
    assert_eq!(get_world_name(None, Some("ABCDEF"), "unknown"), "ABCDEF");
    assert_eq!(get_world_name(None, None, "desconocido"), "desconocido");
}

fn stems(v: &[&str]) -> Vec<String> {
    v.iter().map(|s| s.to_string()).collect()
}

#[test]
fn game_modes() {
    let host = "00000000000000000000000000000001";
    let other = "0123456789ABCDEF0123456789ABCDEF";
    assert_eq!(detect_game_mode(None), "game_mode_singleplayer");
    assert_eq!(detect_game_mode(Some(&stems(&[]))), "game_mode_singleplayer");
    assert_eq!(detect_game_mode(Some(&stems(&[host]))), "game_mode_singleplayer");
    assert_eq!(detect_game_mode(Some(&stems(&[host, other]))), "game_mode_coop");
    assert_eq!(detect_game_mode(Some(&stems(&[other]))), "game_mode_dedicated");
    assert_eq!(detect_game_mode(Some(&stems(&["short"]))), "game_mode_singleplayer");
}

#[test]
fn steam_folder_names() {
    assert_eq!(steam_id_of_folder("76561198000000000"), Some(76561198000000000));
    assert_eq!(steam_id_of_folder("76561197960265728"), Some(76561197960265728));
    assert_eq!(steam_id_of_folder("00000000000000001"), None);
    assert_eq!(steam_id_of_folder("7656119800000000"), None);
    assert_eq!(steam_id_of_folder("7656119800000000x"), None);
    assert_eq!(steam_id_of_folder("765611980000000000"), None);
}

#[test]
fn local_uid_is_account_number_in_hex() {
    let (guid, id) = local_player_uid(76561197960265728 + 0x1234_ABCD);
    assert_eq!(guid, "1234ABCD-0000-0000-0000-000000000000");
    assert_eq!(id, 76561197960265728 + 0x1234_ABCD);
    let (guid, _) = local_player_uid(76561197960265728 + 0xFF);
    assert_eq!(guid, "000000FF-0000-0000-0000-000000000000");
    let (guid, _) = local_player_uid(76561197960265728 + 0x1_0000_0000);
    assert_eq!(guid, "100000000-0000-0000-0000-000000000000");
}
