use scx::mpk::{
    entry_position, make_unique_output_path, normalize_relative_path, parse_mpk_entry, parse_mpk_header, pathdiff, plan_mpk_entry,
    sanitize_path_segment, trim, MpkEntryRecord, MpkError, MpkHeader, MPK_ENTRY_SIZE, MPK_HEADER_SIZE,
};

fn header_bytes(magic: &[u8; 4], version: u32, count: u32, reserved: u32) -> Vec<u8> {
    let mut d = magic.to_vec();
    d.extend_from_slice(&version.to_le_bytes());
    d.extend_from_slice(&count.to_le_bytes());
    d.extend_from_slice(&reserved.to_le_bytes());
    d
}

#[test]
fn reads_the_archive_header() {
    assert_eq!(
        parse_mpk_header(&header_bytes(b"MPK\0", 0x20000, 3, 9)),
        Ok(MpkHeader { version: 0x20000, entry_count: 3, reserved: 9 })
    );
    assert_eq!(
        parse_mpk_header(&header_bytes(b"MPQ\0", 1, 1, 1)),
        Err(MpkError::BadMagic { magic: [b'M', b'P', b'Q', 0] })
    );
}

#[test]
fn entry_records_follow_the_header() {
    assert_eq!(MPK_HEADER_SIZE, 0x40);
    assert_eq!(MPK_ENTRY_SIZE, 0x100);
    assert_eq!(entry_position(0), 0x40);
    assert_eq!(entry_position(3), 0x340);
    assert_eq!(entry_position(u32::MAX), 0x40 + 0xFFFF_FFFFu64 * 0x100);
}

fn record(flags: u32, id: u32, offset: u64, size: u64, unpacked: u64, name: &[u8]) -> Vec<u8> {
    let mut d = Vec::new();
    d.extend_from_slice(&flags.to_le_bytes());
    d.extend_from_slice(&id.to_le_bytes());
    d.extend_from_slice(&offset.to_le_bytes());
    d.extend_from_slice(&size.to_le_bytes());
    d.extend_from_slice(&unpacked.to_le_bytes());
    let mut field = [0u8; 32];
    field[..name.len()].copy_from_slice(name);
    d.extend_from_slice(&field);
    d
}

#[test]
fn reads_entry_records() {
    let r = parse_mpk_entry(&record(1, 2, 0x1_0000_0010, 0x20, 0x30, b"dir\\a.txt\0junk"));
    assert_eq!((r.flags, r.id, r.offset, r.size, r.unpacked_size), (1, 2, 0x1_0000_0010, 0x20, 0x30));
    assert_eq!(r.name, "dir\\a.txt");
    let full = parse_mpk_entry(&record(0, 0, 0, 0, 0, &[b'x'; 32]));
    assert_eq!(full.name, "x".repeat(32));
    let lossy = parse_mpk_entry(&record(0, 0, 0, 0, 0, &[b'a', 0xFF, b'b']));
    assert_eq!(lossy.name, "a\u{FFFD}b");
}

#[test]
fn trims_unicode_whitespace() {
    assert_eq!(trim("  a b \t"), "a b");
    assert_eq!(trim("\u{3000}x\u{85}"), "x");
    assert_eq!(trim("   "), "");
    assert_eq!(trim(""), "");
}

#[test]
fn sanitizes_segments() {
    assert_eq!(sanitize_path_segment("a<b>:c", "fb"), "a_b__c");
    assert_eq!(sanitize_path_segment("q?\"|*", "fb"), "q____");
    assert_eq!(sanitize_path_segment("\u{1}x\u{7f}", "fb"), "_x_");
    assert_eq!(sanitize_path_segment("  ", "fb"), "fb");
    assert_eq!(sanitize_path_segment(" ok ", "fb"), "ok");
}

#[test]
fn normalizes_entry_names() {
    assert_eq!(normalize_relative_path("  dir\\sub//file?.txt ", 7), "dir/sub/file_.txt");
    assert_eq!(normalize_relative_path("", 7), "entry_000007.bin");
    assert_eq!(normalize_relative_path(" \t", 12), "entry_000012.bin");
    assert_eq!(normalize_relative_path("///", 3), "entry_000003.bin");
    assert_eq!(normalize_relative_path("a/ /b", 7), "a/entry_000007/b");
    assert_eq!(normalize_relative_path("x", 1234567), "x");
    assert_eq!(normalize_relative_path("", 1234567), "entry_1234567.bin");
}

fn entry(name: &str, offset: u64, size: u64, unpacked: u64) -> MpkEntryRecord {
    MpkEntryRecord { flags: 0, id: 0, offset, size, unpacked_size: unpacked, name: name.to_string() }
}

#[test]
fn plans_each_entry() {
    assert_eq!(plan_mpk_entry(0, &entry(" ", 0, 0, 0), 100), Ok(None));
    assert_eq!(plan_mpk_entry(1, &entry("", 0, 0, 1), 100), Ok(Some("entry_000001.bin".to_string())));
    assert_eq!(plan_mpk_entry(2, &entry("a\\b", 10, 90, 90), 100), Ok(Some("a/b".to_string())));
    assert_eq!(
        plan_mpk_entry(3, &entry("a", 10, 91, 91), 100),
        Err(MpkError::EntryOutOfBounds { index: 3, offset: 10, size: 91, archive_size: 100 })
    );
    assert_eq!(
        plan_mpk_entry(4, &entry("a", 101, 0, 0), 100),
        Err(MpkError::EntryOutOfBounds { index: 4, offset: 101, size: 0, archive_size: 100 })
    );
}

#[test]
fn keeps_output_paths_apart() {
    let mut used = Vec::new();
    assert_eq!(make_unique_output_path("out", "a/b.txt", &mut used, 3), "out/a/b.txt");
    assert_eq!(used, vec!["out/a/b.txt"]);
    assert_eq!(make_unique_output_path("out", "A/B.TXT", &mut used, 4), "out/A/B__dup_000004.TXT");
    assert_eq!(used, vec!["out/a/b.txt", "out/a/b__dup_000004.txt"]);
    assert_eq!(make_unique_output_path("out", "readme", &mut used, 5), "out/readme");
    assert_eq!(make_unique_output_path("out", "README", &mut used, 6), "out/README__dup_000006");
    assert_eq!(used.len(), 4);
}

#[test]
fn relative_output_paths() {
    assert_eq!(pathdiff("out", "out/a/b.txt"), "a/b.txt");
    assert_eq!(pathdiff("x", "out/a"), "out/a");
    assert_eq!(pathdiff("out", "out"), "");
}

#[test]
fn extraction_paths_hold_no_forbidden_characters() {
    for (name, index) in [("a<b|c\u{1}", 1usize), ("  ", 2), ("x:/?\\*\"", 3), ("dir/\u{9f}", 4)] {
        let p = normalize_relative_path(name, index);
        assert!(!p.is_empty());
        assert!(!p.chars().any(|c| "<>:\"|?*\0".contains(c) || c.is_control()), "{p}");
    }
    assert_eq!(normalize_relative_path("x:/?\\*\"", 3), "x_/_/__");
}
