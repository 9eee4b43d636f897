use scx::select::{extension_is, index_line, is_supported, matches_pattern, message_dir_name, message_file_name};

#[test]
fn patterns_select_by_extension() {
    assert!(matches_pattern("a.scx", "*.*"));
    assert!(matches_pattern("a.scx", "*"));
    assert!(matches_pattern("A.SCX", "*.scx"));
    assert!(matches_pattern("a.scx", "*.SCX"));
    assert!(!matches_pattern("a.msb", "*.scx"));
    assert!(!matches_pattern("scx", "*.scx"));
    assert!(matches_pattern(".scx", "*.scx"));
    assert!(matches_pattern("a.msb", "a*"));
    assert!(matches_pattern("a.tar.gz", "*.tar.gz"));
    assert!(!matches_pattern("anything", "*."));
    assert!(matches_pattern("x.", "*."));
    assert!(!matches_pattern("a.scx", "*.x"));
}

#[test]
fn supported_extensions() {
    assert!(is_supported("scx"));
    assert!(is_supported("MSB"));
    assert!(!is_supported("txt"));
    assert!(!is_supported(""));
    assert!(extension_is("MpK", "mpk"));
    assert!(!extension_is("mpkx", "mpk"));
}

#[test]
fn output_names() {
    assert_eq!(message_file_name(0x1A), "msg_0000001A.png");
    assert_eq!(message_dir_name("set", "a"), "set__a");
    assert_eq!(index_line(0x1A, "msg_0000001A.png", 1, 2, &vec![]), "msg_0000001A | msg_0000001A.png | name_lines=1 | body_lines=2 | ignored=-");
    assert_eq!(
        index_line(7, "p.png", 0, 3, &vec!["a() x1".to_string(), "b() x2".to_string()]),
        "msg_00000007 | p.png | name_lines=0 | body_lines=3 | ignored=a() x1, b() x2"
    );
}

