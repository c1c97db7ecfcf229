use tapedeck::audio::{frame_chunk, Chunk, ChunkLen, CHUNK};
use tapedeck::audio_dir::{
    ext_of, file_name, guess_media_type, ImportScan, MaybeFetched, MediaDir, MediaFile,
    MediaType,
};
use tapedeck::ffmpeg::{decoder_args, first_stream_url, is_remote, TrackError};
use tapedeck::keyboard::{key_command, KeyCommand};
use tapedeck::screen::{truncate, visible_line_count, Pager};
use tapedeck::user::{default_key_command, Command, KeyPress};

#[test]
fn defaults() {
    assert_eq!(MediaDir::default().id, None);
    assert_eq!(MediaFile::default().id, None);
}

#[test]
fn file_name_takes_last_segment() {
    assert_eq!(file_name("a/b/c.mp3"), "c.mp3");
    assert_eq!(file_name("song.ogg"), "song.ogg");
    assert_eq!(file_name("http://host/stream-128-mp3"), "stream-128-mp3");
    assert_eq!(file_name("dir/"), "");
    assert_eq!(file_name(""), "");
}

#[test]
fn ext_of_reads_the_display_name() {
    assert_eq!(ext_of("x/y/track.md5"), Some("md5".to_string()));
    assert_eq!(ext_of("track.tar.gz"), Some("gz".to_string()));
    assert_eq!(ext_of("noext"), None);
    assert_eq!(ext_of("dir.d/noext"), None);
    assert_eq!(ext_of("dir/.hidden"), None);
}

#[test]
fn chunk_len_is_fixed() {
    assert_eq!(CHUNK, 4096);
    assert_eq!(<Chunk as ChunkLen>::len(), 4096);
    let chunk = <Chunk as ChunkLen>::new();
    assert_eq!(chunk.len(), 4096);
    assert!(chunk.iter().all(|&b| b == 0));
}

#[test]
fn frame_chunk_copies_prefix() {
    let buf = [9u8, 8, 7, 6, 5];
    assert_eq!(frame_chunk(&buf, 3), vec![9, 8, 7]);
    assert_eq!(frame_chunk(&buf, 0), Vec::<u8>::new());
    assert_eq!(frame_chunk(&buf, 5), vec![9, 8, 7, 6, 5]);
}

#[test]
fn remote_locators_start_with_http() {
    assert!(is_remote("http://somafm.com/groovesalad.pls"));
    assert!(is_remote("https://somafm.com/x.pls"));
    assert!(!is_remote("/home/me/music/a.flac"));
    assert!(!is_remote("htt"));
}

#[test]
fn first_stream_url_picks_entry_one() {
    let text = "[playlist]\nnumberofentries=2\nFile1=http://one\nFile2=http://two\n";
    assert_eq!(first_stream_url(text), Ok("http://one".to_string()));
}

#[test]
fn first_stream_url_rejects_bad_playlists() {
    assert_eq!(first_stream_url("not a playlist"), Err(TrackError::Parse));
    assert_eq!(
        first_stream_url("[playlist]\nnumberofentries=0\n"),
        Err(TrackError::Parse)
    );
    assert_eq!(
        first_stream_url("[playlist]\nnumberofentries=x\n"),
        Err(TrackError::Parse)
    );
}

#[test]
fn track_error_messages() {
    assert_eq!(TrackError::Network.message(), "could not fetch playlist");
    assert_eq!(
        TrackError::Parse.message(),
        "malformed playlist or empty file list"
    );
    assert_eq!(TrackError::Spawn.message(), "could not start decoder");
}

#[test]
fn decoder_args_are_the_fixed_invocation() {
    let args = decoder_args("http://one");
    assert_eq!(
        args,
        vec![
            "-ac", "2", "-i", "http://one", "-f", "s16le", "-ar", "44.1k", "-acodec",
            "pcm_s16le", "-"
        ]
    );
}

#[test]
fn default_key_bindings() {
    assert_eq!(
        default_key_command(&KeyPress::Char { ch: 'q', ctrl: false }),
        Some(Command::Quit)
    );
    assert_eq!(
        default_key_command(&KeyPress::Char { ch: 'c', ctrl: true }),
        Some(Command::Quit)
    );
    assert_eq!(
        default_key_command(&KeyPress::Char { ch: 'c', ctrl: false }),
        None
    );
    assert_eq!(
        default_key_command(&KeyPress::Char { ch: 'i', ctrl: false }),
        Some(Command::Info)
    );
    assert_eq!(default_key_command(&KeyPress::Esc), Some(Command::Quit));
    assert_eq!(
        default_key_command(&KeyPress::Left),
        Some(Command::PrevTrack)
    );
    assert_eq!(
        default_key_command(&KeyPress::Right),
        Some(Command::NextTrack)
    );
    assert_eq!(default_key_command(&KeyPress::Other), None);
}

#[test]
fn plain_keyboard_bindings() {
    assert_eq!(
        key_command(&KeyPress::Char { ch: 'q', ctrl: false }),
        Some(KeyCommand::Quit)
    );
    assert_eq!(
        key_command(&KeyPress::Char { ch: 'i', ctrl: false }),
        None
    );
    assert_eq!(key_command(&KeyPress::Left), Some(KeyCommand::PrevTrack));
    assert_eq!(key_command(&KeyPress::Right), Some(KeyCommand::NextTrack));
}

#[test]
fn truncate_counts_characters() {
    assert_eq!(truncate("hello", 10), "hello");
    assert_eq!(truncate("hello", 3), "hel");
    assert_eq!(truncate("ttysound", 4), "ttys");
    assert_eq!(truncate("çöğüşı", 3), "çöğ");
    assert_eq!(truncate("abc", 0), "");
}

#[test]
fn visible_lines_leave_status_row() {
    assert_eq!(visible_line_count(10, 100), 9);
    assert_eq!(visible_line_count(10, 4), 3);
    assert_eq!(visible_line_count(1, 5), 0);
}

#[test]
fn pager_scrolls_inside_bounds() {
    let mut p = Pager::new("one\ntwo\nthree\n");
    assert_eq!(p.lines.len(), 4);
    assert_eq!(p.cursor, 0);
    p.scroll_up();
    assert_eq!(p.cursor, 0);
    p.scroll_down();
    p.scroll_down();
    assert_eq!(p.cursor, 2);
    p.scroll_down();
    assert_eq!(p.cursor, 2);
    p.scroll_up();
    assert_eq!(p.cursor, 1);
}

#[test]
fn mime_guess_reads_the_extension() {
    let got = guess_media_type("music/track.mp3");
    match got {
        Some((ty, essence)) => {
            assert_eq!(ty, "audio");
            assert_eq!(essence, "audio/mpeg");
        }
        None => panic!("expected a guess for .mp3"),
    }
    assert!(guess_media_type("music/track").is_none());
    let text = guess_media_type("notes/readme.txt").unwrap();
    assert_eq!(text.0, "text");
}

#[test]
fn import_scan_folds_audio_directories() {
    let mut scan = ImportScan::new();
    let g1 = guess_media_type("album/01.mp3");
    scan.add_file("album/01.mp3", g1, Some(100), true);
    let g2 = guess_media_type("album/cover.jpg");
    scan.add_file("album/cover.jpg", g2, Some(50), true);
    let g3 = guess_media_type("album/notes.txt");
    scan.add_file("album/notes.txt", g3, Some(10), true);
    let g4 = guess_media_type("album/sum.md5");
    scan.add_file("album/sum.md5", g4, Some(1), true);
    let dir = scan.end_directory("album", 47).expect("audio directory");
    assert_eq!(dir.location, "album");
    assert_eq!(dir.last_modified, 47);
    let files = dir.files();
    assert_eq!(files.len(), 3);
    assert_eq!(files[0].location, "album/01.mp3");
    match &files[1].media_type {
        MediaType::Audio(e) => assert_eq!(e, "text/plain"),
        other => panic!("wrong type {:?}", other),
    }
    match &files[2].media_type {
        MediaType::Checksum(e) => assert_eq!(e, "md5"),
        other => panic!("wrong type {:?}", other),
    }
    assert!(matches!(files[2].directory, MaybeFetched::Absent));
}

#[test]
fn import_scan_tallies_kept_types() {
    let mut scan = ImportScan::new();
    scan.add_path("album/01.mp3", Some(1), true);
    scan.add_path("album/02.mp3", Some(1), true);
    scan.add_path("album/notes.txt", Some(1), true);
    scan.add_path("album/cover.jpg", Some(1), true);
    assert_eq!(
        scan.mime_counts,
        vec![
            ("audio/mpeg".to_string(), 2),
            ("text/plain".to_string(), 1)
        ]
    );
}

#[test]
fn import_scan_discards_directories_without_audio() {
    let mut scan = ImportScan::new();
    let g = guess_media_type("docs/readme.txt");
    scan.add_file("docs/readme.txt", g, Some(10), true);
    assert!(scan.end_directory("docs", 1).is_none());
    // The pending list is cleared for the next directory.
    let g = guess_media_type("album/a.ogg");
    scan.add_file("album/a.ogg", g, None, true);
    let dir = scan.end_directory("album", 2).unwrap();
    assert_eq!(dir.files().len(), 1);
}

#[test]
fn media_dir_extend_appends() {
    let mut dir = MediaDir::default();
    for i in 0..4 {
        dir.extend(Vec::from([MediaFile {
            location: i.to_string(),
            file_size: Some(42),
            ..MediaFile::default()
        }]));
    }
    dir.extend(vec![MediaFile::default()]);
    dir.last_modified = 47;
    assert_eq!(dir.files().len(), 5);
    assert_eq!(dir.files()[2].location, "2");
    assert_eq!(dir.files()[3].file_size, Some(42));
    assert_eq!(dir.last_modified, 47);
}
