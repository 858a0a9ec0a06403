use font_rasterizer::font::{TableDirectory, TableDirectoryEntry};

fn entry(tag: &[u8; 4], offset: u32) -> TableDirectoryEntry {
    TableDirectoryEntry { tag: *tag, check_sum: 0, offset, length: 4 }
}

#[test]
fn get_finds_the_first_entry_with_the_tag() {
    let mut d = TableDirectory::new(3);
    assert!(d.entries.is_empty());
    d.add_entry(entry(b"head", 10));
    d.add_entry(entry(b"glyf", 20));
    d.add_entry(entry(b"head", 30));
    assert_eq!(d.entries.len(), 3);
    assert_eq!(d.get(b"head").unwrap().offset, 10);
    assert_eq!(d.get(b"glyf").unwrap().offset, 20);
}

#[test]
fn get_after_add_entry_finds_it() {
    let mut d = TableDirectory::new(0);
    assert_eq!(d.get(b"loca").err(), Some("Cannot find loca".to_string()));
    d.add_entry(entry(b"loca", 7));
    assert_eq!(d.get(b"loca").unwrap().offset, 7);
}

#[test]
fn missing_tag_message() {
    let d = TableDirectory::new(1);
    assert_eq!(d.get(b"cmap").err(), Some("Cannot find cmap".to_string()));
    assert_eq!(d.get(&[0x66, 0x6F, 0xFF, 0x6F]).err(), Some("Cannot find fo\u{FFFD}o".to_string()));
}
