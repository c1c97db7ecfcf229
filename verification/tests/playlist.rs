use tapedeck::playlist::parse;

fn sample() -> String {
    let mut s = String::new();
    s.push_str("[playlist]\n");
    s.push_str("numberofentries=4\n");
    s.push_str("File1=http://ice6.somafm.com/christmas-128-mp3\n");
    s.push_str("Title1=SomaFM: Christmas Lounge (#1): Chilled holiday grooves and classic winter lounge tracks. (Kid and Parent safe!)\n");
    s.push_str("Length1=-1\n");
    s.push_str("File2=http://ice4.somafm.com/christmas-128-mp3\n");
    s.push_str("Title2=SomaFM: Christmas Lounge (#2): Chilled holiday grooves and classic winter lounge tracks. (Kid and Parent safe!)\n");
    s.push_str("Length2=-1\n");
    s.push_str("File3=http://ice2.somafm.com/christmas-128-mp3\n");
    s.push_str("Title3=SomaFM: Christmas Lounge (#3): Chilled holiday grooves and classic winter lounge tracks. (Kid and Parent safe!)\n");
    s.push_str("Length3=-1\n");
    s.push_str("File4=http://ice1.somafm.com/christmas-128-mp3\n");
    s.push_str("Title4=SomaFM: Christmas Lounge (#4): Chilled holiday grooves and classic winter lounge tracks. (Kid and Parent safe!)\n");
    s.push_str("Length4=-1\n");
    s.push_str("Version=2\n");
    s
}

#[test]
fn playlist_parse_file() {
    let mut text = sample();
    text.push_str("  \n\n");
    let playlist = parse(&text);
    assert!(playlist.is_ok());
    let playlist = playlist.unwrap();
    assert_eq!(playlist.files().len(), 4);
    assert_eq!(playlist.number_of_entries, 4);
    assert_eq!(playlist.version, "2");
    let file2 = &playlist.files()[1];
    println!("{:?}", &playlist.files());
    assert_eq!(file2, "http://ice4.somafm.com/christmas-128-mp3");
    let file2 = playlist.entry(2).unwrap();
    assert_eq!(file2.file, "http://ice4.somafm.com/christmas-128-mp3");
    assert!(file2.title.as_str().starts_with("SomaFM"));
    assert_eq!(file2.length, -1);
}

#[test]
fn playlist_files_in_entry_order() {
    let playlist = parse(&sample()).unwrap();
    let files = playlist.files();
    assert_eq!(files[0], "http://ice6.somafm.com/christmas-128-mp3");
    assert_eq!(files[3], "http://ice1.somafm.com/christmas-128-mp3");
}

#[test]
fn playlist_tolerates_any_line_order() {
    let text = "[playlist]\nFile2=b\nVersion=3\nFile1=a\nnumberofentries=2\n";
    let playlist = parse(text).unwrap();
    assert_eq!(playlist.number_of_entries, 2);
    assert_eq!(playlist.version, "3");
    let files = playlist.files();
    assert_eq!(files, vec!["a".to_string(), "b".to_string()]);
}

#[test]
fn playlist_missing_header_is_error() {
    assert!(parse("numberofentries=1\nFile1=a\n").is_err());
    assert!(parse("").is_err());
    assert!(parse("[playlist]").is_err());
}

#[test]
fn playlist_malformed_count_is_error() {
    assert!(parse("[playlist]\nnumberofentries=abc\n").is_err());
    assert!(parse("[playlist]\nnumberofentries=\n").is_err());
    assert!(parse("[playlist]\nnumberofentries=99999999999999\n").is_err());
}

#[test]
fn playlist_malformed_length_is_error() {
    assert!(parse("[playlist]\nFile1=a\nLength1=soon\n").is_err());
    assert!(parse("[playlist]\nLength7=--2\n").is_err());
}

#[test]
fn playlist_malformed_entry_number_is_error() {
    assert!(parse("[playlist]\nFile99999999999999=a\n").is_err());
}

#[test]
fn playlist_ignores_unrecognized_lines() {
    let text = "[playlist]\nnumberofentries=1\nFile1=a\nNoise1x=z\nno equals here\nLogo=img\n=empty\n";
    let playlist = parse(text).unwrap();
    assert_eq!(playlist.files(), vec!["a".to_string()]);
}

#[test]
fn playlist_accepts_crlf_and_plus_signs() {
    let text = "[playlist]\r\nnumberofentries=+1\r\nFile1=a\r\nLength1=+7\r\n";
    let playlist = parse(text).unwrap();
    assert_eq!(playlist.number_of_entries, 1);
    assert_eq!(playlist.entry(1).unwrap().length, 7);
}

#[test]
fn playlist_missing_entry_yields_empty_file() {
    let text = "[playlist]\nnumberofentries=3\nFile2=b\n";
    let playlist = parse(text).unwrap();
    let files = playlist.files();
    assert_eq!(
        files,
        vec![String::new(), "b".to_string(), String::new()]
    );
}

#[test]
fn playlist_zero_entries_gives_no_files() {
    let playlist = parse("[playlist]\nnumberofentries=0\nVersion=2\n").unwrap();
    assert_eq!(playlist.files().len(), 0);
}

#[test]
fn playlist_last_value_wins() {
    let text = "[playlist]\nnumberofentries=1\nFile1=a\nFile1=b\n";
    let playlist = parse(text).unwrap();
    assert_eq!(playlist.files(), vec!["b".to_string()]);
}

#[test]
fn playlist_text_after_last_newline_is_ignored() {
    let text = "[playlist]\nFile1=a\nnumberofentries=1\nFile1=b";
    let playlist = parse(text).unwrap();
    assert_eq!(playlist.files(), vec!["a".to_string()]);
}
