use tapedeck::pls::{parse, parse_u32, parse_i32, str_eq, lines_of};

fn sample_pls() -> String {
    let mut s = String::new();
    s.push_str("[playlist]\n");
    s.push_str("numberofentries=4\n");
    s.push_str("File1=http://ice6.somafm.com/christmas-128-mp3\n");
    s.push_str("Title1=SomaFM: Christmas Lounge (#1): Chilled holiday grooves and classic winter lounge tracks. (Kid and Parent safe!)\n");
    s.push_str("Length1=-1\n");
    s.push_str("File2=http://ice4.somafm.com/christmas-128-mp3\n");
    s.push_str("Title2=SomaFM: Christmas Lounge (#2): Chilled holiday grooves and classic winter lounge tracks. (Kid and Parent safe!)\n");
    s.push_str("Length2=-1\n");
    s.push_str("File3=http://ice2.somafm.com/christmas-128-mp3\n");
    s.push_str("Title3=SomaFM: Christmas Lounge (#3): Chilled holiday grooves and classic winter lounge tracks. (Kid and Parent safe!)\n");
    s.push_str("Length3=-1\n");
    s.push_str("File4=http://ice1.somafm.com/christmas-128-mp3\n");
    s.push_str("Title4=SomaFM: Christmas Lounge (#4): Chilled holiday grooves and classic winter lounge tracks. (Kid and Parent safe!)\n");
    s.push_str("Length4=-1\n");
    s.push_str("Version=2\n");
    s
}

#[test]
fn pls_parse_file() {
    let playlist = parse(&sample_pls());
    assert!(playlist.is_ok());
    let playlist = playlist.unwrap();
    assert_eq!(playlist.files().len(), 4);
    assert_eq!(playlist.number_of_entries, 4);
    assert_eq!(playlist.version, "2");
}

#[test]
fn pls_files_in_entry_order() {
    let playlist = parse(&sample_pls()).unwrap();
    let files = playlist.files();
    assert_eq!(files[0], "http://ice6.somafm.com/christmas-128-mp3");
    assert_eq!(files[3], "http://ice1.somafm.com/christmas-128-mp3");
}

#[test]
fn pls_entry_lookup() {
    let playlist = parse(&sample_pls()).unwrap();
    let e = playlist.entry(3).unwrap();
    assert_eq!(e.file, "http://ice2.somafm.com/christmas-128-mp3");
    assert_eq!(e.length, -1);
    assert!(playlist.entry(9).is_none());
    assert!(playlist.has_header);
}

#[test]
fn pls_parse_u32_exact() {
    assert_eq!(parse_u32("0"), Some(0));
    assert_eq!(parse_u32("42"), Some(42));
    assert_eq!(parse_u32("+7"), Some(7));
    assert_eq!(parse_u32("4294967295"), Some(u32::MAX));
    assert_eq!(parse_u32("4294967296"), None);
    assert_eq!(parse_u32(""), None);
    assert_eq!(parse_u32("+"), None);
    assert_eq!(parse_u32("-1"), None);
    assert_eq!(parse_u32("1a"), None);
}

#[test]
fn pls_parse_i32_exact() {
    assert_eq!(parse_i32("-1"), Some(-1));
    assert_eq!(parse_i32("2147483647"), Some(i32::MAX));
    assert_eq!(parse_i32("-2147483648"), Some(i32::MIN));
    assert_eq!(parse_i32("2147483648"), None);
    assert_eq!(parse_i32("-2147483649"), None);
    assert_eq!(parse_i32("+12"), Some(12));
    assert_eq!(parse_i32("--1"), None);
    assert_eq!(parse_i32(""), None);
}

#[test]
fn pls_str_eq_compares_characters() {
    assert!(str_eq("", ""));
    assert!(str_eq("abc", "abc"));
    assert!(!str_eq("abc", "abd"));
    assert!(!str_eq("abc", "ab"));
    assert!(str_eq("наушники", "наушники"));
}

#[test]
fn pls_lines_of_splits_terminated_lines() {
    let lines = lines_of("a\nbc\r\n\nrest");
    assert_eq!(
        lines,
        vec!["a".to_string(), "bc".to_string(), String::new()]
    );
    assert_eq!(lines_of("").len(), 0);
    assert_eq!(lines_of("no newline").len(), 0);
}
