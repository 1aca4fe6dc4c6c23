use std::io::Write;
use palagent_ai::gvas::{compress_gvas, decompress_gvas_bytes, Payload};
use palagent_ai::mcp::{
    mcp_action, method_not_found_message, tool_to_command, unknown_tool_message, McpAction,
};
use palagent_ai::output::{capture_output, OutputBuffer};
use palagent_ai::report::{capture_bonus, clock_text, game_clock, item_matches_query};
use palagent_ai::save_editor::{container_items, find_container, modified_slot, ContainerSlots, extract_nickname, guid_to_stem, hex_to_guid, parse_slot, parse_slots, rewrite_slot};
use palagent_ai::setup::{inject_marker_block, merge_plan, server_entry, trim_text, EntryValue, McpFormat, SectionState};
use palagent_ai::text::{i64_text, text_contains, text_eq, u64_text};

fn s(x: &str) -> String {
    x.to_string()
}

#[test]
fn numbers_as_text() {
    assert_eq!(u64_text(0), "0");
    assert_eq!(u64_text(18446744073709551615), "18446744073709551615");
    assert_eq!(i64_text(-42), "-42");
    assert_eq!(i64_text(i64::MIN), "-9223372036854775808");
    assert!(text_eq("abc", "abc"));
    assert!(!text_eq("abc", "abd"));
    assert!(text_contains("EPalGenderType::Male", "Male"));
    assert!(text_contains("abc", ""));
    assert!(!text_contains("ab", "abc"));
}

#[test]
fn clock_from_ticks() {
    let c = game_clock(0);
    assert_eq!((c.day, c.hour, c.minute, c.is_day), (1, 0, 0, false));
    let ticks = 2 * 864_000_000_000u64 + 13 * 36_000_000_000 + 7 * 600_000_000 + 5;
    let c = game_clock(ticks);
    assert_eq!((c.day, c.hour, c.minute, c.is_day), (3, 13, 7, true));
    let c = game_clock(20 * 36_000_000_000);
    assert_eq!((c.day, c.hour, c.is_day), (1, 20, false));
    let c = game_clock(6 * 36_000_000_000);
    assert!(c.is_day);
    assert_eq!(clock_text(7, 5), "07:05");
    assert_eq!(clock_text(23, 59), "23:59");
    assert_eq!(clock_text(123, 7), "123:07");
    assert_eq!(clock_text(0, 100), "00:100");
}

#[test]
fn capture_bonus_progress() {
    assert_eq!(capture_bonus(0), (false, 10));
    assert_eq!(capture_bonus(9), (false, 1));
    assert_eq!(capture_bonus(10), (true, 0));
    assert_eq!(capture_bonus(250), (true, 0));
}

#[test]
fn chest_search_matches_id_or_name() {
    assert!(item_matches_query("PalSphere_Mega", "Mega Sphere", "sphere_m"));
    assert!(item_matches_query("Wood", "Madera", "made"));
    assert!(!item_matches_query("Wood", "Madera", "stone"));
}

#[test]
fn mcp_actions() {
    assert_eq!(mcp_action("initialize", true), McpAction::Initialize);
    assert_eq!(mcp_action("tools/list", true), McpAction::ListTools);
    assert_eq!(mcp_action("tools/call", true), McpAction::CallTool);
    assert_eq!(mcp_action("ping", true), McpAction::MethodNotFound);
    assert_eq!(mcp_action("notifications/initialized", false), McpAction::Ignore);
    assert_eq!(method_not_found_message("ping"), "Method not found: ping");
    assert_eq!(unknown_tool_message("zap"), "Unknown tool: zap");
}

#[test]
fn mcp_tools_to_commands() {
    assert_eq!(tool_to_command("list_worlds", ""), Some((s("list-worlds"), false)));
    assert_eq!(tool_to_command("query_time", ""), Some((s("time"), false)));
    assert_eq!(tool_to_command("query_settings", ""), Some((s("settings"), false)));
    assert_eq!(tool_to_command("search_chest", "wood"), Some((s("search-chest:wood"), false)));
    assert_eq!(tool_to_command("query_breeding", ""), Some((s("breeding"), true)));
    assert_eq!(tool_to_command("query_progress", ""), Some((s("progress"), true)));
    assert_eq!(tool_to_command("monitor_pals", ""), Some((s("monitor"), true)));
    assert_eq!(tool_to_command("query_analyzer", ""), Some((s("analyzer"), true)));
    assert_eq!(tool_to_command("query_full", ""), Some((s("full"), true)));
    assert_eq!(tool_to_command("query_db", ""), None);
}

#[test]
fn output_capture() {
    let mut b = OutputBuffer::new();
    assert!(!b.print("lost"));
    assert_eq!(b.take(), "");
    b.start_capture();
    assert!(b.print("a"));
    assert!(b.println("b"));
    assert_eq!(b.take(), "ab\n");
    assert!(b.captured.is_none());
    let text = capture_output(|mut o: OutputBuffer| {
        o.println("line 1");
        o.print("line 2");
        o
    });
    assert_eq!(text, "line 1\nline 2");
}

#[test]
fn trimming() {
    assert_eq!(trim_text("  \n rules \t\n"), "rules");
    assert_eq!(trim_text("   "), "");
}

const BEGIN: &str = "<!-- BEGIN PALAGENT-AI RULES — managed by palagent-ai setup -->";
const END: &str = "<!-- END PALAGENT-AI RULES -->";

#[test]
fn marker_block_appended() {
    let out = inject_marker_block("# My rules", "\n  new rules  \n");
    assert_eq!(out, format!("# My rules\n{}\nnew rules\n{}\n", BEGIN, END));
    let out = inject_marker_block("", "x");
    assert_eq!(out, format!("{}\nx\n{}\n", BEGIN, END));
}

#[test]
fn marker_block_replaced_in_place() {
    let file = format!("top\n{}\nold\n{}\nbottom\n", BEGIN, END);
    let out = inject_marker_block(&file, "fresh");
    assert_eq!(out, format!("top\n{}\nfresh\n{}\nbottom\n", BEGIN, END));
    let again = inject_marker_block(&out, "fresh");
    assert_eq!(again, out);
}

#[test]
fn marker_block_installed_once_when_appended() {
    for file in ["", "# Notes", "# Notes\n"] {
        let once = inject_marker_block(file, "  rules\n");
        assert_eq!(inject_marker_block(&once, "  rules\n"), once);
    }
}

#[test]
fn marker_block_without_end_leaves_file() {
    let file = format!("top\n{}\nold\n", BEGIN);
    assert_eq!(inject_marker_block(&file, "fresh"), file);
}

#[test]
fn mcp_format_keys() {
    assert_eq!(McpFormat::McpServers.servers_key(), "mcpServers");
    assert_eq!(McpFormat::Servers.servers_key(), "servers");
    assert_eq!(McpFormat::Opencode.servers_key(), "mcp");
}

#[test]
fn player_file_name_to_guid() {
    assert_eq!(
        hex_to_guid("0123456789ABCDEF0123456789ABCDEF"),
        "01234567-89AB-CDEF-0123-456789ABCDEF"
    );
    assert_eq!(hex_to_guid("short"), "short");
}

fn slot(count: u32, id: &str, tail: &[u8]) -> Vec<u8> {
    let mut b = vec![1u8, 2, 3, 4];
    b.extend_from_slice(&count.to_le_bytes());
    b.extend_from_slice(&((id.len() + 1) as u32).to_le_bytes());
    b.extend_from_slice(id.as_bytes());
    b.push(0);
    b.extend_from_slice(tail);
    b
}

#[test]
fn slots_parse() {
    let it = parse_slot(3, &slot(5, "Wood", &[9, 9])).unwrap();
    assert_eq!((it.slot_index, it.item_id.as_str(), it.count), (3, "Wood", 5));
    assert!(parse_slot(0, &slot(0, "Wood", &[])).is_none());
    assert!(parse_slot(0, &slot(5, "", &[])).is_none());
    assert!(parse_slot(0, &[0u8; 11]).is_none());
    let all = parse_slots(&vec![slot(1, "Stone", &[]), vec![0u8; 16], slot(2, "Wool", &[])]);
    let got: Vec<(usize, &str, u32)> =
        all.iter().map(|i| (i.slot_index, i.item_id.as_str(), i.count)).collect();
    assert_eq!(got, vec![(0, "Stone", 1), (2, "Wool", 2)]);
}

#[test]
fn slot_rewrite_round_trip() {
    let old = slot(5, "Wood", &[7, 7, 7]);
    let new = rewrite_slot(&old, "PalSphere", 20);
    assert_eq!(new, slot(20, "PalSphere", &[7, 7, 7]));
    let it = parse_slot(1, &new).unwrap();
    assert_eq!((it.item_id.as_str(), it.count), ("PalSphere", 20));
}

#[test]
fn slot_rewrite_clears() {
    let old = slot(5, "Wood", &[7]);
    let cleared = rewrite_slot(&old, "", 3);
    let mut expected = vec![1u8, 2, 3, 4];
    expected.resize(old.len(), 0);
    assert_eq!(cleared, expected);
    assert!(parse_slot(0, &cleared).is_none());
    assert_eq!(rewrite_slot(&[1u8, 2], "Wood", 0), vec![1u8, 2]);
    assert_eq!(rewrite_slot(&[1u8, 2], "Wood", 1), slot(1, "Wood", &[]).iter().enumerate().map(|(i, b)| if i < 4 { 0 } else { *b }).collect::<Vec<u8>>());
}

#[test]
fn nickname_from_record() {
    let mut b = b"xx".to_vec();
    b.extend_from_slice(b"\x09\x00\x00\x00NickName\x00");
    b.extend_from_slice(b"\x0c\x00\x00\x00StrProperty\x00");
    b.extend_from_slice(&[0u8; 9]);
    b.extend_from_slice(&7u32.to_le_bytes());
    b.extend_from_slice(b"Marina\x00");
    assert_eq!(extract_nickname(&b), Some(s("Marina")));
    assert_eq!(extract_nickname(b"nothing here"), None);
}

fn zlib(data: &[u8]) -> Vec<u8> {
    let mut e = flate2::write::ZlibEncoder::new(Vec::new(), flate2::Compression::default());
    e.write_all(data).unwrap();
    e.finish().unwrap()
}

#[test]
fn container_errors() {
    assert_eq!(decompress_gvas_bytes(&[0u8; 5]), Err(s("File too short")));
    let mut f = vec![0u8; 12];
    f[8..11].copy_from_slice(b"XYZ");
    assert_eq!(decompress_gvas_bytes(&f), Err(s("Unsupported magic")));
    assert_eq!(compress_gvas(b"data", &[0u8; 4]), Err(s("Original header too short")));
    assert_eq!(
        compress_gvas(b"data", &f),
        Err(s("Saving only supports Zlib (PlZ) compressed saves currently"))
    );
}

#[test]
fn container_oodle_payload() {
    let mut f = vec![0u8; 20];
    f[0..4].copy_from_slice(&1234u32.to_le_bytes());
    f[8..11].copy_from_slice(b"PlM");
    f[11] = 0x31;
    assert_eq!(
        decompress_gvas_bytes(&f),
        Ok(Payload::Oodle { start: 12, uncompressed_len: 1234 })
    );
}

#[test]
fn container_single_and_double_zlib() {
    let data = b"GVAS payload bytes".to_vec();
    let mut f = vec![0u8, 0, 0, 0, 0, 0, 0, 0, b'P', b'l', b'Z', 0x31];
    f.extend(zlib(&data));
    assert_eq!(decompress_gvas_bytes(&f), Ok(Payload::Data(data.clone())));
    let mut g = vec![0u8, 0, 0, 0, 0, 0, 0, 0, b'P', b'l', b'Z', 0x32];
    g.extend(zlib(&zlib(&data)));
    assert_eq!(decompress_gvas_bytes(&g), Ok(Payload::Data(data)));
}

#[test]
fn container_write_then_read() {
    let data = b"the world, decompressed".to_vec();
    let header = [9u8, 9, 9, 9, 9, 9, 9, 9, b'P', b'l', b'Z', 0x31, 5, 5];
    let f = compress_gvas(&data, &header).unwrap();
    assert_eq!(&f[0..4], &(data.len() as u32).to_le_bytes());
    assert_eq!(&f[4..8], &((f.len() - 12) as u32).to_le_bytes());
    assert_eq!(&f[8..12], b"PlZ\x31");
    assert_eq!(decompress_gvas_bytes(&f), Ok(Payload::Data(data)));
}

#[test]
fn guid_back_to_file_name() {
    let stem = "0123456789abcdef0123456789ABCDEF";
    let guid = hex_to_guid(stem);
    assert_eq!(guid, "01234567-89ab-cdef-0123-456789ABCDEF");
    assert_eq!(guid_to_stem(&guid), stem);
    assert_eq!(guid_to_stem("a-b--c-"), "abc");
    assert_eq!(guid_to_stem(""), "");
}

#[test]
fn container_slots_read_and_rewritten() {
    let cs = vec![
        ContainerSlots { guid: s("A"), slots: vec![Some(slot(1, "Stone", &[]))] },
        ContainerSlots { guid: s("B"), slots: vec![None, Some(slot(0, "Wood", &[])), Some(slot(7, "Wood", &[]))] },
        ContainerSlots { guid: s("B"), slots: vec![Some(slot(9, "Gold", &[]))] },
    ];
    assert_eq!(find_container(&cs, "B"), Some(1));
    assert_eq!(find_container(&cs, "C"), None);
    let items = container_items(&cs, "B");
    assert_eq!(items.len(), 1);
    assert_eq!((items[0].slot_index, items[0].item_id.as_str(), items[0].count), (2, "Wood", 7));
    assert!(container_items(&cs, "C").is_empty());
    let (i, bytes) = modified_slot(&cs, "B", 1, "Berries", 3).unwrap();
    assert_eq!(i, 1);
    assert_eq!(bytes, rewrite_slot(&slot(0, "Wood", &[]), "Berries", 3));
    assert!(modified_slot(&cs, "B", 0, "Berries", 3).is_none());
    assert!(modified_slot(&cs, "B", 9, "Berries", 3).is_none());
    assert!(modified_slot(&cs, "C", 0, "Berries", 3).is_none());
}

#[test]
fn container_edit_then_read() {
    let mut cs = vec![
        ContainerSlots { guid: s("A"), slots: vec![Some(slot(1, "Stone", &[]))] },
        ContainerSlots {
            guid: s("B"),
            slots: vec![Some(slot(4, "Wood", &[])), Some(slot(0, "Wood", &[])), Some(slot(7, "Ore", &[]))],
        },
    ];
    let (i, bytes) = modified_slot(&cs, "B", 2, "Berries", 3).unwrap();
    cs[i].slots[2] = Some(bytes);
    let items = container_items(&cs, "B");
    let got: Vec<(usize, &str, u32)> =
        items.iter().map(|it| (it.slot_index, it.item_id.as_str(), it.count)).collect();
    assert_eq!(got, vec![(0, "Wood", 4), (2, "Berries", 3)]);
    let (i, bytes) = modified_slot(&cs, "B", 1, "Stone", 9).unwrap();
    cs[i].slots[1] = Some(bytes);
    let items = container_items(&cs, "B");
    let got: Vec<(usize, &str, u32)> =
        items.iter().map(|it| (it.slot_index, it.item_id.as_str(), it.count)).collect();
    assert_eq!(got, vec![(0, "Wood", 4), (1, "Stone", 9), (2, "Berries", 3)]);
    assert_eq!(container_items(&cs, "A").len(), 1);
}

#[test]
fn gvas_save_written_then_read_back() {
    let mut data = b"GVAS".to_vec();
    data.extend_from_slice(&[3u8, 0, 0, 0, 0x78, 0x9c, 1, 2, 3]);
    let header = [0u8, 0, 0, 0, 0, 0, 0, 0, b'P', b'l', b'Z', 0x31];
    let f = compress_gvas(&data, &header).unwrap();
    assert_eq!(&f[8..11], b"PlZ");
    assert_eq!(decompress_gvas_bytes(&f), Ok(Payload::Data(data)));
}

fn entry_text(f: McpFormat, cmd: &str) -> Vec<String> {
    server_entry(f, cmd)
        .into_iter()
        .map(|(k, v)| match v {
            EntryValue::Text(t) => format!("{}={}", k, t),
            EntryValue::Texts(l) => format!("{}=[{}]", k, l.join(",")),
            EntryValue::Flag(b) => format!("{}={}", k, b),
        })
        .collect()
}

#[test]
fn mcp_server_entries() {
    assert_eq!(entry_text(McpFormat::Opencode, "C:/p.exe"), vec!["type=local", "command=[C:/p.exe,mcp]", "enabled=true"]);
    assert_eq!(entry_text(McpFormat::Servers, "p"), vec!["type=stdio", "command=p", "args=[mcp]"]);
    assert_eq!(entry_text(McpFormat::McpServers, "p"), vec!["command=p", "args=[mcp]"]);
}

#[test]
fn mcp_config_merge_plans() {
    let p = merge_plan(false, SectionState::Other);
    assert_eq!((p.reset, p.add_section, p.put_entry), (true, true, true));
    let p = merge_plan(true, SectionState::Missing);
    assert_eq!((p.reset, p.add_section, p.put_entry), (false, true, true));
    let p = merge_plan(true, SectionState::Object);
    assert_eq!((p.reset, p.add_section, p.put_entry), (false, false, true));
    let p = merge_plan(true, SectionState::Other);
    assert_eq!((p.reset, p.add_section, p.put_entry), (false, false, false));
}
