use tapedeck::audio_dir::{MaybeFetched, MediaFile, MediaType};
use tapedeck::transport::{Phase, StepAction, Transport, TransportCommand};

fn entry(location: &str) -> MediaFile {
    MediaFile {
        id: None,
        file_size: None,
        media_type: MediaType::Unknown,
        location: location.to_string(),
        directory: MaybeFetched::Absent,
    }
}

fn transport_with(locations: &[&str]) -> Transport {
    let mut t = Transport::new();
    t.extend(locations.iter().map(|l| entry(l)).collect());
    t
}

/// Start the track at the cursor, asserting that a decoder is asked for.
fn start_track(t: &mut Transport, now_ms: u64) -> String {
    match t.begin_track() {
        StepAction::Spawn(locator) => {
            match t.on_spawn(true, now_ms) {
                StepAction::Print(name) => {
                    assert!(locator.ends_with(&name));
                    name
                }
                other => panic!("expected Print, got {:?}", other),
            }
        }
        other => panic!("expected Spawn, got {:?}", other),
    }
}

#[test]
fn empty_playlist_quits_immediately() {
    let mut t = Transport::new();
    match t.begin_track() {
        StepAction::Quit => {}
        other => panic!("expected Quit, got {:?}", other),
    }
    assert_eq!(t.phase, Phase::Stopped);
    assert_eq!(t.cursor, 0);
}

#[test]
fn spawn_failure_on_only_entry_quits() {
    let mut t = transport_with(&["only.mp3"]);
    match t.begin_track() {
        StepAction::Spawn(locator) => assert_eq!(locator, "only.mp3"),
        other => panic!("expected Spawn, got {:?}", other),
    }
    match t.on_spawn(false, 0) {
        StepAction::Quit => {}
        other => panic!("expected Quit, got {:?}", other),
    }
    assert_eq!(t.phase, Phase::Stopped);
}

#[test]
fn eof_run_walks_whole_playlist_once() {
    let mut t = transport_with(&["a", "b", "c"]);
    let mut quits = 0;
    let mut spawns = 0;
    loop {
        if t.phase != Phase::Loading {
            break;
        }
        match t.begin_track() {
            StepAction::Quit => {
                quits += 1;
                break;
            }
            StepAction::Spawn(_) => {
                spawns += 1;
                t.on_spawn(true, 0);
                t.on_track_end();
            }
            other => panic!("unexpected action {:?}", other),
        }
    }
    assert_eq!(spawns, 3);
    assert_eq!(quits, 1);
    assert_eq!(t.cursor, 3);
    assert_eq!(t.phase, Phase::Stopped);
}

#[test]
fn next_track_advances_until_last_entry() {
    let mut t = transport_with(&["a", "b"]);
    start_track(&mut t, 0);
    assert!(t.on_command(&TransportCommand::NextTrack, 1).is_none());
    assert_eq!(t.cursor, 1);
    assert_eq!(t.phase, Phase::Loading);
    start_track(&mut t, 10);
    // On the last entry NextTrack is a no-op for the cursor.
    t.on_command(&TransportCommand::NextTrack, 11);
    assert_eq!(t.cursor, 1);
    assert_eq!(t.phase, Phase::Loading);
}

#[test]
fn prev_track_depends_on_double_tap_window() {
    let mut t = transport_with(&["a", "b"]);
    start_track(&mut t, 0);
    t.on_command(&TransportCommand::NextTrack, 1);
    start_track(&mut t, 1000);
    // 400 ms into the track: restart semantics, cursor stays.
    t.on_command(&TransportCommand::PrevTrack, 1400);
    assert_eq!(t.cursor, 1);
    start_track(&mut t, 2000);
    // 100 ms into the track: go back one entry.
    t.on_command(&TransportCommand::PrevTrack, 2100);
    assert_eq!(t.cursor, 0);
    start_track(&mut t, 3000);
    // At the first entry a quick PrevTrack keeps the cursor at zero.
    t.on_command(&TransportCommand::PrevTrack, 3050);
    assert_eq!(t.cursor, 0);
}

#[test]
fn two_next_then_late_and_quick_prev() {
    let mut t = transport_with(&["A", "B", "C"]);
    start_track(&mut t, 0);
    t.on_command(&TransportCommand::NextTrack, 1);
    start_track(&mut t, 2);
    t.on_command(&TransportCommand::NextTrack, 3);
    start_track(&mut t, 4);
    assert_eq!(t.now_playing().location, "C");
    // PrevTrack more than 333 ms after the track start: still C.
    t.on_command(&TransportCommand::PrevTrack, 500);
    start_track(&mut t, 500);
    assert_eq!(t.now_playing().location, "C");
    // PrevTrack within 333 ms: back to B.
    t.on_command(&TransportCommand::PrevTrack, 600);
    start_track(&mut t, 601);
    assert_eq!(t.now_playing().location, "B");
}

#[test]
fn now_playing_matches_last_print() {
    let mut t = transport_with(&["dir/song one.mp3", "dir/other.ogg"]);
    t.files[0].id = Some(7);
    t.files[0].file_size = Some(4242);
    t.files[0].directory = MaybeFetched::Id(3);
    let printed = start_track(&mut t, 0);
    assert_eq!(printed, "song one.mp3");
    let reply = t.on_command(&TransportCommand::NowPlaying, 5);
    match reply {
        Some(StepAction::Reply(f)) => {
            assert_eq!(f.location, "dir/song one.mp3");
            assert!(f.location.ends_with(&printed));
            // The reply is a full copy of the entry at the cursor.
            assert_eq!(f.id, Some(7));
            assert_eq!(f.file_size, Some(4242));
            assert!(matches!(f.directory, MaybeFetched::Id(3)));
        }
        other => panic!("expected Reply, got {:?}", other),
    }
    // Streaming goes on after a NowPlaying answer.
    assert_eq!(t.phase, Phase::Streaming);
}

#[test]
fn frames_forward_read_bytes_unchanged() {
    let mut t = transport_with(&["a"]);
    start_track(&mut t, 0);
    let reads: Vec<Vec<u8>> = vec![vec![1, 2, 3, 4], vec![5, 6], vec![7]];
    let mut sink: Vec<u8> = Vec::new();
    let mut produced: Vec<u8> = Vec::new();
    let mut buf = [0u8; 8];
    for r in &reads {
        buf[..r.len()].copy_from_slice(r);
        produced.extend_from_slice(r);
        let frame = t.on_frame(&buf, r.len());
        assert_eq!(&frame, r);
        sink.extend_from_slice(&frame);
    }
    t.on_track_end();
    assert_eq!(sink, produced);
    assert_eq!(t.cursor, 1);
}

#[test]
fn extend_appends_between_runs() {
    let mut t = transport_with(&["a"]);
    t.extend(vec![entry("b")]);
    assert_eq!(t.files.len(), 2);
    assert_eq!(t.files[1].location, "b");
    assert_eq!(t.cursor, 0);
}

#[test]
fn entry_duplicate_keeps_catalogue_fields() {
    let mut f = entry("somewhere/file.flac");
    f.id = Some(9);
    f.file_size = Some(1234);
    f.media_type = MediaType::Audio("audio/flac".to_string());
    f.directory = MaybeFetched::Id(21);
    let d = f.duplicate();
    assert_eq!(d.id, Some(9));
    assert_eq!(d.file_size, Some(1234));
    assert_eq!(d.location, "somewhere/file.flac");
    match d.media_type {
        MediaType::Audio(e) => assert_eq!(e, "audio/flac"),
        other => panic!("wrong media type {:?}", other),
    }
    assert!(matches!(d.directory, MaybeFetched::Id(21)));
}
