use palagent_ai::guid::format_guid;
use palagent_ai::wire::read_string_at;

fn fstring(s: &str) -> Vec<u8> {
    let mut v = Vec::new();
    let len = (s.len() + 1) as i32;
    v.extend_from_slice(&len.to_le_bytes());
    v.extend_from_slice(s.as_bytes());
    v.push(0);
    v
}

#[test]
fn read_string_utf8_strips_nul() {
    let bytes = fstring("Hello");
    let mut off = 0usize;
    assert_eq!(read_string_at(&bytes, &mut off), "Hello");
    assert_eq!(off, bytes.len());
}

#[test]
fn read_string_utf16() {
    let mut bytes = Vec::new();
    bytes.extend_from_slice(&(-3i32).to_le_bytes());
    for u in ['H' as u16, 'i' as u16, 0u16] {
        bytes.extend_from_slice(&u.to_le_bytes());
    }
    let mut off = 0usize;
    assert_eq!(read_string_at(&bytes, &mut off), "Hi");
    assert_eq!(off, 10);
}

#[test]
fn read_string_utf16_pairs_and_lone_surrogates() {
    let units: [u16; 5] = [0xD83D, 0xDE00, 0xDC00, 'x' as u16, 0];
    let mut bytes = Vec::new();
    bytes.extend_from_slice(&(-5i32).to_le_bytes());
    for u in units {
        bytes.extend_from_slice(&u.to_le_bytes());
    }
    let mut off = 0usize;
    assert_eq!(read_string_at(&bytes, &mut off), "\u{1F600}\u{FFFD}x");
    assert_eq!(off, 14);
}

#[test]
fn read_string_cut_off_is_empty() {
    let bytes = vec![10u8, 0, 0, 0, b'a'];
    let mut off = 0usize;
    assert_eq!(read_string_at(&bytes, &mut off), "");
    assert_eq!(off, 4);
}

#[test]
fn format_guid_swaps_groups() {
    let bytes: [u8; 16] = [
        0x04, 0x03, 0x02, 0x01, 0x08, 0x07, 0x06, 0x05, 0x0c, 0x0b, 0x0a, 0x09, 0x10, 0x0f, 0x0e,
        0x0d,
    ];
    assert_eq!(format_guid(&bytes), "01020304-0506-0708-090a-0b0c0d0e0f10");
}

#[test]
fn guid_text_layout_and_distinctness() {
    let a: [u8; 16] = [0xff, 0, 0xab, 0x10, 1, 2, 3, 4, 5, 6, 7, 8, 9, 10, 11, 12];
    let mut b = a;
    b[15] = 13;
    let ta = format_guid(&a);
    assert_eq!(ta.chars().count(), 36);
    for (i, c) in ta.chars().enumerate() {
        if [8, 13, 18, 23].contains(&i) {
            assert_eq!(c, '-');
        } else {
            assert!(c.is_ascii_hexdigit() && !c.is_ascii_uppercase());
        }
    }
    assert_ne!(ta, format_guid(&b));
}
