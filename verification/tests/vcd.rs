use psx_vcd::combiner::BinCombiner;
use psx_vcd::cue::{CueSheet, FileEntry, Track, TrackType};
use psx_vcd::msf::Msf;
use psx_vcd::vcd::VcdConverter;

const HEADER_SIZE: usize = 0x100000;

fn file(name: &str, size: u64, tracks: Vec<Track>) -> FileEntry {
    let mut f = FileEntry::new(name.to_string(), "BINARY".to_string());
    f.tracks = tracks;
    f.file_size = size;
    f
}

fn track(number: u8, track_type: TrackType, index00: Option<Msf>, index01: Msf) -> Track {
    let mut t = Track::new(number, track_type, index01);
    t.index00_msf = index00;
    t
}

fn sheet_of(files: Vec<FileEntry>) -> CueSheet {
    let mut sheet = CueSheet::new();
    sheet.files = files;
    sheet
}

fn two_tracks() -> CueSheet {
    sheet_of(vec![file(
        "game.bin",
        0,
        vec![
            track(1, TrackType::Mode2_2352, Some(Msf::new(0, 0, 0)), Msf::new(0, 2, 0)),
            track(2, TrackType::Audio, Some(Msf::new(45, 10, 20)), Msf::new(45, 12, 20)),
        ],
    )])
}

/// The bytes of a header that are not zero, by offset.
fn non_zero(header: &[u8]) -> Vec<(usize, u8)> {
    header.iter().copied().enumerate().filter(|&(_, b)| b != 0).collect()
}

#[test]
fn new_picks_the_adjustment() {
    assert_eq!(VcdConverter::new(false, false).gap_adjustment(), 0);
    assert_eq!(VcdConverter::new(true, false).gap_adjustment(), 2);
    assert_eq!(VcdConverter::new(false, true).gap_adjustment(), -2);
    assert_eq!(VcdConverter::new(true, true).gap_adjustment(), 2);
}

#[test]
fn header_holds_the_sector_total_twice_and_the_lead_out() {
    let header = VcdConverter::new(false, false).create_vcd_header(2352 * 1000, &two_tracks());
    assert_eq!(header.len(), HEADER_SIZE);
    assert_eq!(&header[1032..1036], &1000u32.to_le_bytes());
    assert_eq!(&header[1036..1040], &1000u32.to_le_bytes());
    assert_eq!(&header[1032..1040], &[0xE8, 0x03, 0, 0, 0xE8, 0x03, 0, 0]);
    assert_eq!(&header[27..30], &Msf::from_sectors(1150).to_bcd());
    assert_eq!(&header[27..30], &[0x00, 0x15, 0x25]);
}

#[test]
fn sectors_are_whole_sectors_of_the_stream() {
    let converter = VcdConverter::new(false, false);
    let sheet = two_tracks();
    let header = converter.create_vcd_header(2352 * 1000 + 2351, &sheet);
    assert_eq!(&header[1032..1036], &1000u32.to_le_bytes());
    let header = converter.create_vcd_header(2351, &sheet);
    assert_eq!(&header[1032..1040], &[0u8; 8]);
    assert_eq!(&header[27..30], &[0x00, 0x02, 0x00]);
    let header = converter.create_vcd_header(2352 * 0x0102_0304, &sheet);
    assert_eq!(&header[1032..1040], &[4, 3, 2, 1, 4, 3, 2, 1]);
    // The field keeps the low 32 bits of larger totals.
    let header = converter.create_vcd_header(2352 * 0x1_0000_0007, &sheet);
    assert_eq!(&header[1032..1040], &[7, 0, 0, 0, 7, 0, 0, 0]);
    assert_eq!(&header[27..30], &Msf::from_sectors(157).to_bcd());
    let header = converter.create_vcd_header(u64::MAX, &sheet);
    let total = (u64::MAX / 2352) as u32;
    assert_eq!(&header[1032..1036], &total.to_le_bytes());
    assert_eq!(&header[27..30], &Msf::from_lba(total as u64 + 150).to_bcd());
}

#[test]
fn descriptors_sit_at_their_offsets() {
    let header = VcdConverter::new(false, false).create_vcd_header(2352 * 1000, &two_tracks());
    assert_eq!(header[0], 0x41);
    assert_eq!(header[2], 0xA0);
    assert_eq!(header[7], 0x01);
    assert_eq!(header[8], 0x20);
    assert_eq!(header[10], 0x01);
    assert_eq!(header[12], 0xA1);
    assert_eq!(header[17], 0x02);
    assert_eq!(header[20], 0x01);
    assert_eq!(header[22], 0xA2);
    assert_eq!(&header[1024..1028], &[0x6B, 0x48, 0x6E, 0x20]);
}

#[test]
fn content_type_follows_the_last_track() {
    let converter = VcdConverter::new(false, false);
    let zero = Msf::new(0, 0, 0);
    let data_last = sheet_of(vec![file(
        "a.bin",
        0,
        vec![track(1, TrackType::Audio, None, zero), track(2, TrackType::Mode1_2048, None, zero)],
    )]);
    let header = converter.create_vcd_header(0, &data_last);
    assert_eq!((header[10], header[20]), (0x41, 0x41));
    assert_eq!((header[30], header[40]), (0x01, 0x41));
    // A last file without tracks counts as data.
    let mut bare_last = two_tracks();
    bare_last.files.push(file("b.bin", 0, vec![]));
    let header = converter.create_vcd_header(0, &bare_last);
    assert_eq!((header[10], header[20]), (0x41, 0x41));
    assert_eq!(header[17], 0x02);
    let header = converter.create_vcd_header(0, &CueSheet::new());
    assert_eq!((header[10], header[17], header[20]), (0x41, 0x00, 0x41));
}

#[test]
fn track_records_are_ten_bytes_each() {
    let header = VcdConverter::new(false, false).create_vcd_header(2352 * 1000, &two_tracks());
    assert_eq!(&header[30..40], &[0x41, 0, 0x01, 0x00, 0x00, 0x00, 0, 0x00, 0x02, 0x00]);
    assert_eq!(&header[40..50], &[0x01, 0, 0x02, 0x45, 0x10, 0x20, 0, 0x45, 0x12, 0x20]);
    assert!(header[50..1024].iter().all(|&b| b == 0));
}

#[test]
fn index00_defaults_to_index01() {
    let sheet = sheet_of(vec![file(
        "a.bin",
        0,
        vec![track(12, TrackType::Mode2_2336, None, Msf::new(3, 4, 5))],
    )]);
    let header = VcdConverter::new(false, false).create_vcd_header(0, &sheet);
    assert_eq!(&header[30..40], &[0x41, 0, 0x12, 0x03, 0x04, 0x05, 0, 0x03, 0x04, 0x05]);
}

#[test]
fn gap_adjustment_spares_track_one() {
    let sheet = two_tracks();
    let plain = VcdConverter::new(false, false).create_vcd_header(2352 * 1000, &sheet);
    let plus = VcdConverter::new(true, false).create_vcd_header(2352 * 1000, &sheet);
    let minus = VcdConverter::new(false, true).create_vcd_header(2352 * 1000, &sheet);
    assert_eq!(&plus[30..40], &plain[30..40]);
    assert_eq!(&minus[30..40], &plain[30..40]);
    assert_eq!(&plus[40..50], &[0x01, 0, 0x02, 0x45, 0x12, 0x20, 0, 0x45, 0x14, 0x20]);
    assert_eq!(&minus[40..50], &[0x01, 0, 0x02, 0x45, 0x08, 0x20, 0, 0x45, 0x10, 0x20]);
    // Nothing but the record of track 2 differs.
    assert_eq!(&plus[..40], &plain[..40]);
    assert_eq!(&plus[50..], &plain[50..]);
    assert_eq!(&minus[..40], &plain[..40]);
    assert_eq!(&minus[50..], &plain[50..]);
}

#[test]
fn gap_adjustment_goes_by_the_number_of_the_track() {
    let sheet = sheet_of(vec![file(
        "a.bin",
        0,
        vec![
            track(0, TrackType::Audio, None, Msf::new(1, 0, 0)),
            track(1, TrackType::Audio, None, Msf::new(1, 0, 0)),
            track(2, TrackType::Audio, None, Msf::new(0, 1, 0)),
            track(3, TrackType::Audio, Some(Msf::new(0, 59, 0)), Msf::new(1, 0, 0)),
        ],
    )]);
    let plus = VcdConverter::new(true, false).create_vcd_header(0, &sheet);
    let minus = VcdConverter::new(false, true).create_vcd_header(0, &sheet);
    assert_eq!(&plus[30..40], &[0x01, 0, 0x00, 0x01, 0, 0, 0, 0x01, 0, 0]);
    assert_eq!(&plus[40..50], &[0x01, 0, 0x01, 0x01, 0, 0, 0, 0x01, 0, 0]);
    assert_eq!(&plus[50..60], &[0x01, 0, 0x02, 0, 0x03, 0, 0, 0, 0x03, 0]);
    assert_eq!(&plus[60..70], &[0x01, 0, 0x03, 0x01, 0x01, 0, 0, 0x01, 0x02, 0]);
    // Backwards, a position before the start of the disc stays at zero.
    assert_eq!(&minus[50..60], &[0x01, 0, 0x02, 0, 0, 0, 0, 0, 0, 0]);
    assert_eq!(&minus[60..70], &[0x01, 0, 0x03, 0, 0x57, 0, 0, 0, 0x58, 0]);
}

#[test]
fn combined_two_track_sheet_gives_the_reference_header() {
    let text = "FILE \"game.bin\" BINARY\n  TRACK 01 MODE2/2352\n    INDEX 01 00:00:00\n  TRACK 02 AUDIO\n    INDEX 00 45:10:20\n    INDEX 01 45:12:20\n";
    let mut sheet = CueSheet::parse(text).unwrap();
    let size = 250_000u64 * 2352;
    sheet.load_file_sizes(&vec![size]);
    assert_eq!(sheet.validate_mode2(), Ok(()));
    let sizes = vec![size];
    assert!(BinCombiner::can_combine(&sheet, &sizes));
    let (ranges, info) = BinCombiner::combine(&mut sheet, &sizes);
    assert_eq!(ranges.len(), 2);
    assert_eq!(ranges[0].start, 0);
    assert_eq!(ranges[0].len, 203_420 * 2352);
    assert_eq!(ranges[1].start, 203_420 * 2352);
    assert_eq!(ranges[1].len, 46_580 * 2352);
    assert_eq!(info.total_bytes, size);
    assert_eq!(info.track_count, 2);

    let header = VcdConverter::new(false, false).create_vcd_header(info.total_bytes, &sheet);
    assert_eq!(header.len(), HEADER_SIZE);
    let expected: Vec<(usize, u8)> = vec![
        (0, 0x41),
        (2, 0xA0),
        (7, 0x01),
        (8, 0x20),
        (10, 0x01),
        (12, 0xA1),
        (17, 0x02),
        (20, 0x01),
        (22, 0xA2),
        (27, 0x55),
        (28, 0x35),
        (29, 0x25),
        (30, 0x41),
        (32, 0x01),
        (40, 0x01),
        (42, 0x02),
        (43, 0x45),
        (44, 0x10),
        (45, 0x20),
        (47, 0x45),
        (48, 0x12),
        (49, 0x20),
        (1024, 0x6B),
        (1025, 0x48),
        (1026, 0x6E),
        (1027, 0x20),
        (1032, 0x90),
        (1033, 0xD0),
        (1034, 0x03),
        (1036, 0x90),
        (1037, 0xD0),
        (1038, 0x03),
    ];
    assert_eq!(non_zero(&header), expected);
}

#[test]
fn track_count_is_packed_like_a_position() {
    let zero = Msf::new(0, 0, 0);
    let many = |n: usize| {
        sheet_of(vec![file(
            "a.bin",
            0,
            (0..n).map(|i| track((i % 256) as u8, TrackType::Audio, None, zero)).collect(),
        )])
    };
    let converter = VcdConverter::new(false, false);
    assert_eq!(converter.create_vcd_header(0, &many(9))[17], 0x09);
    assert_eq!(converter.create_vcd_header(0, &many(10))[17], 0x10);
    assert_eq!(converter.create_vcd_header(0, &many(99))[17], 0x99);
    assert_eq!(converter.create_vcd_header(0, &many(100))[17], 0xA0);
    assert_eq!(converter.create_vcd_header(0, &many(165))[17], 0x05);
}

#[test]
fn signature_and_totals_stand_over_a_long_track_table() {
    let sheet = sheet_of(vec![file(
        "a.bin",
        0,
        (0..120u8).map(|i| track(i, TrackType::Audio, None, Msf::new(11, 22, 33))).collect(),
    )]);
    let header = VcdConverter::new(false, false).create_vcd_header(2352 * 0x0A0B_0C0D, &sheet);
    // Record 99 starts at 1020, record 100 at 1030.
    assert_eq!(&header[1020..1024], &[0x01, 0, 0x99, 0x11]);
    assert_eq!(&header[1024..1028], &[0x6B, 0x48, 0x6E, 0x20]);
    assert_eq!(&header[1028..1030], &[0x22, 0x33]);
    assert_eq!(&header[1030..1032], &[0x01, 0]);
    assert_eq!(&header[1032..1040], &[0x0D, 0x0C, 0x0B, 0x0A, 0x0D, 0x0C, 0x0B, 0x0A]);
    assert_eq!(&header[1040..1050], &[0x01, 0, 0xA1, 0x11, 0x22, 0x33, 0, 0x11, 0x22, 0x33]);
    assert_eq!(&header[30 + 10 * 119..30 + 10 * 120], &[0x01, 0, 0xB9, 0x11, 0x22, 0x33, 0, 0x11, 0x22, 0x33]);
    assert!(header[30 + 10 * 120..].iter().all(|&b| b == 0));
}

#[test]
fn the_track_table_may_fill_the_header() {
    let zero = Msf::new(0, 0, 0);
    let sheet = sheet_of(vec![file(
        "a.bin",
        0,
        (0..104_854usize).map(|i| track((i % 200) as u8, TrackType::Mode2_2352, None, zero)).collect(),
    )]);
    let header = VcdConverter::new(false, false).create_vcd_header(0, &sheet);
    assert_eq!(header.len(), HEADER_SIZE);
    assert_eq!(header[30 + 10 * 104_853], 0x41);
    assert_eq!(&header[HEADER_SIZE - 6..], &[0, 0, 0, 0, 0, 0]);
}

#[test]
fn the_builders_write_only_their_own_bytes() {
    let converter = VcdConverter::new(true, false);
    let sheet = two_tracks();
    let mut header = vec![0xEEu8; 64];
    converter.build_descriptor_a0(&mut header);
    converter.build_descriptor_a1(&mut header, &sheet);
    converter.build_descriptor_a2(&mut header, 1000);
    converter.write_track_entries(&mut header, &sheet);
    let e = 0xEE;
    assert_eq!(
        &header[..30],
        &[
            0x41, e, 0xA0, e, e, e, e, 0x01, 0x20, e, 0x01, e, 0xA1, e, e, e, e, 0x02, e, e, 0x01, e,
            0xA2, e, e, e, e, 0x00, 0x15, 0x25
        ]
    );
    assert_eq!(&header[30..40], &[0x41, e, 0x01, 0, 0, 0, e, 0, 0x02, 0]);
    assert_eq!(&header[40..50], &[0x01, e, 0x02, 0x45, 0x12, 0x20, e, 0x45, 0x14, 0x20]);
    assert!(header[50..].iter().all(|&b| b == e));
    let mut totals = vec![0xEEu8; 1041];
    converter.write_totals(&mut totals, 0x0102_0304);
    assert_eq!(&totals[1023..1041], &[e, 0x6B, 0x48, 0x6E, 0x20, e, e, e, e, 4, 3, 2, 1, 4, 3, 2, 1, e]);
    assert!(totals[..1024].iter().all(|&b| b == e));
}
