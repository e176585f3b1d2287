use psx_vcd::cue::{CueSheet, FileEntry, Track, TrackType};
use psx_vcd::error::CueError;
use psx_vcd::msf::Msf;

fn file(name: &str, size: u64, tracks: Vec<Track>) -> FileEntry {
    let mut f = FileEntry::new(name.to_string(), "BINARY".to_string());
    f.tracks = tracks;
    f.file_size = size;
    f
}

fn track(number: u8, track_type: TrackType, index00: Option<Msf>, index01: Msf) -> Track {
    let mut t = Track::new(number, track_type, index01);
    t.index00_msf = index00;
    t
}

#[test]
fn track_type_names_are_exact() {
    assert_eq!(TrackType::from_str("AUDIO"), Some(TrackType::Audio));
    assert_eq!(TrackType::from_str("MODE1/2048"), Some(TrackType::Mode1_2048));
    assert_eq!(TrackType::from_str("MODE1/2352"), Some(TrackType::Mode1_2352));
    assert_eq!(TrackType::from_str("MODE2/2336"), Some(TrackType::Mode2_2336));
    assert_eq!(TrackType::from_str("MODE2/2352"), Some(TrackType::Mode2_2352));
    assert_eq!(TrackType::from_str("audio"), None);
    assert_eq!(TrackType::from_str("AUDIO "), None);
    assert_eq!(TrackType::from_str("MODE2/2353"), None);
    assert_eq!(TrackType::from_str("MODE2"), None);
    assert_eq!(TrackType::from_str(""), None);
}

#[test]
fn track_type_names_round_trip() {
    for t in [
        TrackType::Audio,
        TrackType::Mode1_2048,
        TrackType::Mode1_2352,
        TrackType::Mode2_2336,
        TrackType::Mode2_2352,
    ] {
        assert_eq!(TrackType::from_str(t.as_str()), Some(t));
    }
    assert_eq!(TrackType::Mode2_2352.as_str(), "MODE2/2352");
}

#[test]
fn sector_sizes_follow_the_type() {
    assert_eq!(TrackType::Audio.sector_size(), 2352);
    assert_eq!(TrackType::Mode1_2048.sector_size(), 2048);
    assert_eq!(TrackType::Mode1_2352.sector_size(), 2352);
    assert_eq!(TrackType::Mode2_2336.sector_size(), 2336);
    assert_eq!(TrackType::Mode2_2352.sector_size(), 2352);
    assert_eq!(Track::new(3, TrackType::Mode2_2336, Msf::new(0, 0, 0)).sector_size(), 2336);
}

#[test]
fn new_track_has_no_pregap() {
    let t = Track::new(7, TrackType::Audio, Msf::new(1, 2, 3));
    assert_eq!(t.number, 7);
    assert_eq!(t.track_type, TrackType::Audio);
    assert_eq!(t.index00_msf, None);
    assert_eq!(t.index01_msf, Msf::new(1, 2, 3));
    assert!(t.is_audio());
    assert!(!Track::new(1, TrackType::Mode2_2352, Msf::new(0, 0, 0)).is_audio());
}

#[test]
fn new_file_is_empty() {
    let f = FileEntry::new("a.bin".to_string(), "BINARY".to_string());
    assert_eq!(f.filename, "a.bin");
    assert_eq!(f.file_type, "BINARY");
    assert!(f.tracks.is_empty());
    assert_eq!(f.file_size, 0);
}

#[test]
fn new_sheet_has_no_files() {
    let sheet = CueSheet::new();
    assert!(sheet.files.is_empty());
    assert_eq!(sheet.get_total_tracks(), 0);
    assert_eq!(sheet.checked_total_tracks(), Some(0));
    assert!(sheet.get_last_track().is_none());
    assert!(sheet.tracks().is_empty());
    assert_eq!(sheet.validate(), Err(CueError::MissingData));
}

#[test]
fn totals_and_last_track_walk_all_files() {
    let zero = Msf::new(0, 0, 0);
    let mut sheet = CueSheet::new();
    sheet.files.push(file("a.bin", 0, vec![track(1, TrackType::Mode2_2352, None, zero)]));
    sheet.files.push(file(
        "b.bin",
        0,
        vec![
            track(2, TrackType::Audio, None, zero),
            track(3, TrackType::Mode1_2048, Some(Msf::new(0, 1, 0)), Msf::new(0, 3, 0)),
        ],
    ));
    assert_eq!(sheet.get_total_tracks(), 3);
    assert_eq!(sheet.checked_total_tracks(), Some(3));
    assert_eq!(sheet.get_last_track().map(|t| t.number), Some(3));
    let numbers: Vec<u8> = sheet.tracks().iter().map(|t| t.number).collect();
    assert_eq!(numbers, vec![1, 2, 3]);
    assert!(sheet.every_file_has_track());

    sheet.files.push(file("c.bin", 0, vec![]));
    assert_eq!(sheet.get_total_tracks(), 3);
    assert!(sheet.get_last_track().is_none());
    assert!(!sheet.every_file_has_track());
}

#[test]
fn validate_wants_the_first_track_at_sector_zero() {
    let mut sheet = CueSheet::new();
    sheet.files.push(file("a.bin", 0, vec![track(1, TrackType::Mode2_2352, None, Msf::new(0, 0, 1))]));
    assert_eq!(sheet.validate(), Err(CueError::MissingData));
    sheet.files[0].tracks[0].index01_msf = Msf::new(0, 0, 0);
    assert_eq!(sheet.validate(), Ok(()));
    // Only the very first track is looked at.
    sheet.files[0].tracks.push(track(2, TrackType::Audio, None, Msf::new(9, 9, 9)));
    assert_eq!(sheet.validate(), Ok(()));
    // A first file without tracks passes.
    let mut bare = CueSheet::new();
    bare.files.push(file("a.bin", 0, vec![]));
    assert_eq!(bare.validate(), Ok(()));
}

#[test]
fn validate_mode2_looks_at_tracks_numbered_one() {
    let zero = Msf::new(0, 0, 0);
    let mut sheet = CueSheet::new();
    assert_eq!(sheet.validate_mode2(), Ok(()));
    sheet.files.push(file(
        "a.bin",
        0,
        vec![track(1, TrackType::Mode2_2352, None, zero), track(2, TrackType::Audio, None, zero)],
    ));
    assert_eq!(sheet.validate_mode2(), Ok(()));
    sheet.files.push(file("b.bin", 0, vec![track(3, TrackType::Audio, None, zero)]));
    assert_eq!(sheet.validate_mode2(), Ok(()));
    sheet.files[1].tracks.push(track(1, TrackType::Mode1_2352, None, zero));
    assert_eq!(sheet.validate_mode2(), Err(CueError::Type));
    sheet.files[1].tracks[1].number = 0;
    assert_eq!(sheet.validate_mode2(), Ok(()));
    sheet.files[0].tracks[0].track_type = TrackType::Audio;
    assert_eq!(sheet.validate_mode2(), Err(CueError::Type));
}

#[test]
fn load_file_sizes_sets_each_size() {
    let zero = Msf::new(0, 0, 0);
    let mut sheet = CueSheet::new();
    sheet.files.push(file("a.bin", 1, vec![track(1, TrackType::Mode2_2352, None, zero)]));
    sheet.files.push(file("b.bin", 2, vec![track(2, TrackType::Audio, None, zero)]));
    sheet.load_file_sizes(&vec![23_520_000, 4704]);
    assert_eq!(sheet.files[0].file_size, 23_520_000);
    assert_eq!(sheet.files[1].file_size, 4704);
    assert_eq!(sheet.files[0].filename, "a.bin");
    assert_eq!(sheet.files[1].tracks[0].number, 2);
}
