use psx_vcd::cue::{CueSheet, TrackType};
use psx_vcd::error::CueError;
use psx_vcd::msf::Msf;
use psx_vcd::parse::{classify, parse_index_fields, parse_track_fields, CueParser, Directive, Open};
use psx_vcd::text::{chars_of, is_whitespace, parse_u8, string_of, trim};

const SHEET: &str = "REM a comment\r\n\
FILE \"Some Game (USA).bin\" BINARY\r\n\
  TRACK 01 MODE2/2352\r\n\
    INDEX 01 00:00:00\r\n\
  TRACK 02 AUDIO\r\n\
    INDEX 00 45:10:20\r\n\
    INDEX 01 45:12:20\r\n";

fn chars(s: &str) -> Vec<char> {
    s.chars().collect()
}

#[test]
fn parses_a_single_file_sheet() {
    let sheet = CueSheet::parse(SHEET).unwrap();
    assert_eq!(sheet.files.len(), 1);
    let file = &sheet.files[0];
    assert_eq!(file.filename, "Some Game (USA).bin");
    assert_eq!(file.file_type, "BINARY");
    assert_eq!(file.file_size, 0);
    assert_eq!(file.tracks.len(), 2);
    assert_eq!(file.tracks[0].number, 1);
    assert_eq!(file.tracks[0].track_type, TrackType::Mode2_2352);
    assert_eq!(file.tracks[0].index00_msf, None);
    assert_eq!(file.tracks[0].index01_msf, Msf::new(0, 0, 0));
    assert_eq!(file.tracks[1].number, 2);
    assert_eq!(file.tracks[1].track_type, TrackType::Audio);
    assert_eq!(file.tracks[1].index00_msf, Some(Msf::new(45, 10, 20)));
    assert_eq!(file.tracks[1].index01_msf, Msf::new(45, 12, 20));
}

#[test]
fn parses_several_files() {
    let text = "FILE \"a.bin\" BINARY\n TRACK 01 MODE2/2352\n INDEX 01 00:00:00\n\
FILE \"b.bin\" WAVE\n TRACK 02 AUDIO\n INDEX 00 00:00:00\n INDEX 01 00:02:00\n\
FILE \"c.bin\" BINARY\n TRACK 03 AUDIO\n INDEX 01 00:00:00";
    let sheet = CueSheet::parse(text).unwrap();
    assert_eq!(sheet.files.len(), 3);
    assert_eq!(sheet.files[0].filename, "a.bin");
    assert_eq!(sheet.files[1].filename, "b.bin");
    assert_eq!(sheet.files[1].file_type, "WAVE");
    assert_eq!(sheet.files[2].filename, "c.bin");
    assert_eq!(sheet.get_total_tracks(), 3);
    assert_eq!(sheet.files[1].tracks[0].index00_msf, Some(Msf::new(0, 0, 0)));
    assert_eq!(sheet.files[1].tracks[0].index01_msf, Msf::new(0, 2, 0));
    assert_eq!(sheet.files[2].tracks[0].index00_msf, None);
}

#[test]
fn a_track_starts_at_zero_until_an_index_says_otherwise() {
    let sheet = CueSheet::parse("FILE \"a.bin\" BINARY\nTRACK 01 MODE2/2352\n").unwrap();
    assert_eq!(sheet.files[0].tracks[0].index00_msf, None);
    assert_eq!(sheet.files[0].tracks[0].index01_msf, Msf::new(0, 0, 0));
}

#[test]
fn other_index_numbers_are_passed_over() {
    let text = "FILE \"a.bin\" BINARY\nTRACK 01 MODE2/2352\nINDEX 01 00:00:00\nINDEX 02 10:00:00\nINDEX 99 11:00:00\n";
    let sheet = CueSheet::parse(text).unwrap();
    assert_eq!(sheet.files[0].tracks[0].index00_msf, None);
    assert_eq!(sheet.files[0].tracks[0].index01_msf, Msf::new(0, 0, 0));
    // They must still be well formed.
    let bad = "FILE \"a.bin\" BINARY\nTRACK 01 MODE2/2352\nINDEX 02 10:00\n";
    assert_eq!(CueSheet::parse(bad).err(), Some(CueError::Format));
}

#[test]
fn a_later_index_line_replaces_an_earlier_one() {
    let text = "FILE \"a.bin\" BINARY\nTRACK 01 MODE2/2352\nINDEX 01 00:00:05\nINDEX 01 00:00:00\nINDEX 00 00:00:01\nINDEX 0 00:00:02\n";
    let sheet = CueSheet::parse(text).unwrap();
    assert_eq!(sheet.files[0].tracks[0].index01_msf, Msf::new(0, 0, 0));
    assert_eq!(sheet.files[0].tracks[0].index00_msf, Some(Msf::new(0, 0, 2)));
}

#[test]
fn comments_blank_lines_and_unknown_directives_are_passed_over() {
    let text = "\n\n   \nREM GENRE Game\nREMARK\nCATALOG 0000000000000\nPERFORMER \"x\"\n\
FILE \"a.bin\" BINARY\n  FLAGS DCP\n  TRACK 01 MODE2/2352\n    PREGAP 00:02:00\n    INDEX 01 00:00:00\n\n";
    let sheet = CueSheet::parse(text).unwrap();
    assert_eq!(sheet.files.len(), 1);
    assert_eq!(sheet.files[0].tracks.len(), 1);
    assert_eq!(sheet.files[0].tracks[0].index00_msf, None);
}

#[test]
fn directives_need_the_space_after_the_keyword() {
    // "FILE" alone, or with a tab, is no FILE directive.
    assert_eq!(CueSheet::parse("FILE\n").err(), Some(CueError::MissingData));
    assert_eq!(CueSheet::parse("FILE\t\"a.bin\" BINARY\n").err(), Some(CueError::MissingData));
    let text = "FILE \"a.bin\" BINARY\nTRACK\t01 AUDIO\nTRACK 02 MODE2/2352\n";
    let sheet = CueSheet::parse(text).unwrap();
    assert_eq!(sheet.files[0].tracks.len(), 1);
    assert_eq!(sheet.files[0].tracks[0].number, 2);
    // Keywords are case sensitive.
    assert_eq!(CueSheet::parse("file \"a.bin\" BINARY\n").err(), Some(CueError::MissingData));
}

#[test]
fn an_empty_text_has_no_file() {
    assert_eq!(CueSheet::parse("").err(), Some(CueError::MissingData));
    assert_eq!(CueSheet::parse("REM nothing here\n").err(), Some(CueError::MissingData));
}

#[test]
fn the_first_track_must_start_at_sector_zero() {
    let text = "FILE \"a.bin\" BINARY\nTRACK 01 MODE2/2352\nINDEX 01 00:02:00\n";
    assert_eq!(CueSheet::parse(text).err(), Some(CueError::MissingData));
    let zero_by_other_fields = "FILE \"a.bin\" BINARY\nTRACK 01 MODE2/2352\nINDEX 00 00:05:00\nINDEX 01 0:0:0\n";
    assert!(CueSheet::parse(zero_by_other_fields).is_ok());
    let later_track = "FILE \"a.bin\" BINARY\nTRACK 01 MODE2/2352\nTRACK 02 AUDIO\nINDEX 01 00:02:00\n";
    assert!(CueSheet::parse(later_track).is_ok());
}

#[test]
fn file_lines_need_two_quotes() {
    assert_eq!(CueSheet::parse("FILE a.bin BINARY\n").err(), Some(CueError::Format));
    assert_eq!(CueSheet::parse("FILE \"a.bin BINARY\n").err(), Some(CueError::Format));
    assert_eq!(CueSheet::parse("FILE a.bin\" BINARY\n").err(), Some(CueError::Format));
    let sheet = CueSheet::parse("FILE \"\"\n").unwrap();
    assert_eq!(sheet.files[0].filename, "");
    assert_eq!(sheet.files[0].file_type, "");
    let sheet = CueSheet::parse("FILE \"a \"b\".bin\"   BINARY  \n").unwrap();
    assert_eq!(sheet.files[0].filename, "a ");
    assert_eq!(sheet.files[0].file_type, "b\".bin\"   BINARY");
}

#[test]
fn track_lines_are_checked_field_by_field() {
    let open = "FILE \"a.bin\" BINARY\n";
    let parse = |line: &str| CueSheet::parse(&format!("{}{}\n", open, line)).err();
    assert_eq!(parse("TRACK 01"), Some(CueError::Format));
    assert_eq!(parse("TRACK "), None);
    assert_eq!(parse("TRACK  "), None);
    assert_eq!(parse("TRACK x"), Some(CueError::Format));
    assert_eq!(parse("TRACK one MODE2/2352"), Some(CueError::Format));
    assert_eq!(parse("TRACK 256 MODE2/2352"), Some(CueError::Format));
    assert_eq!(parse("TRACK -1 MODE2/2352"), Some(CueError::Format));
    assert_eq!(parse("TRACK 01 MODE3/2352"), Some(CueError::Type));
    assert_eq!(parse("TRACK 01 mode2/2352"), Some(CueError::Type));
    // The number is looked at before the type.
    assert_eq!(parse("TRACK one MODE3/2352"), Some(CueError::Format));
    assert_eq!(parse("TRACK 01 MODE2/2352 extra words"), None);
    assert_eq!(parse("TRACK   +7 \t AUDIO"), None);
}

#[test]
fn a_track_needs_an_open_file() {
    assert_eq!(CueSheet::parse("TRACK 01 MODE2/2352\n").err(), Some(CueError::MissingData));
    // The state is looked at before the fields.
    assert_eq!(CueSheet::parse("TRACK 01 MODE9\n").err(), Some(CueError::MissingData));
    assert_eq!(CueSheet::parse("TRACK\u{a0}01 MODE9\nFILE \"a\" B\n").err(), None);
}

#[test]
fn index_lines_are_checked_even_without_a_track() {
    assert_eq!(CueSheet::parse("INDEX 01 00:00:00\nFILE \"a.bin\" BINARY\n").err(), None);
    assert_eq!(CueSheet::parse("INDEX 01 00:00\nFILE \"a.bin\" BINARY\n").err(), Some(CueError::Format));
    assert_eq!(CueSheet::parse("INDEX 01\n").err(), Some(CueError::Format));
    assert_eq!(CueSheet::parse("INDEX x 00:00:00\n").err(), Some(CueError::Format));
    assert_eq!(CueSheet::parse("INDEX 300 00:00:00\n").err(), Some(CueError::Format));
    assert_eq!(CueSheet::parse("INDEX 01 00:00:0x\n").err(), Some(CueError::Format));
    let text = "FILE \"a.bin\" BINARY\nINDEX 01 05:00:00\nTRACK 01 MODE2/2352\n";
    let sheet = CueSheet::parse(text).unwrap();
    assert_eq!(sheet.files[0].tracks[0].index01_msf, Msf::new(0, 0, 0));
}

#[test]
fn the_first_error_in_the_text_wins() {
    let text = "FILE \"a.bin\" BINARY\nTRACK 01 MODE9\nINDEX 01 bad\n";
    assert_eq!(CueSheet::parse(text).err(), Some(CueError::Type));
    let text = "FILE \"a.bin\" BINARY\nINDEX 01 bad\nTRACK 01 MODE9\n";
    assert_eq!(CueSheet::parse(text).err(), Some(CueError::Format));
    // A bad line comes before the structural rules.
    assert_eq!(CueSheet::parse("INDEX 01 bad\n").err(), Some(CueError::Format));
}

#[test]
fn lines_are_trimmed_of_unicode_white_space() {
    let text = "\u{3000}FILE \"a.bin\" BINARY\u{2003}\r\n\u{a0}\tTRACK\u{2009}01\u{85}MODE2/2352\u{1680}\n\u{feff}TRACK 02 AUDIO\n";
    let sheet = CueSheet::parse(text).unwrap();
    assert_eq!(sheet.files[0].file_type, "BINARY");
    // "TRACK" followed by a thin space is no directive; the line with the
    // byte order mark is none either, as U+FEFF is no white space.
    assert_eq!(sheet.files[0].tracks.len(), 0);
    let text = "FILE \"a.bin\" BINARY\n\u{a0}\tTRACK \u{2009}01\u{85}MODE2/2352\u{1680}\n";
    let sheet = CueSheet::parse(text).unwrap();
    assert_eq!(sheet.files[0].tracks.len(), 1);
    assert_eq!(sheet.files[0].tracks[0].number, 1);
}

#[test]
fn white_space_is_what_the_standard_library_says() {
    for code in 0u32..=0x3100 {
        if let Some(c) = char::from_u32(code) {
            assert_eq!(is_whitespace(c), c.is_whitespace(), "U+{:04X}", code);
        }
    }
    assert!(!is_whitespace('\u{feff}'));
    assert!(!is_whitespace('\u{10ffff}'));
}

#[test]
fn trim_agrees_with_the_standard_library() {
    for text in ["", " ", "a", " a", "a ", "  a b  ", "\t\r\n x \u{a0}", "\u{2003}\u{2003}", "x\u{200b}"] {
        assert_eq!(string_of(&trim(&chars(text))), text.trim());
    }
    assert_eq!(chars_of("añ☃"), chars("añ☃"));
    assert_eq!(string_of(&chars("añ☃")), "añ☃");
}

#[test]
fn parse_u8_agrees_with_the_standard_library() {
    for text in ["", "0", "7", "+7", "-7", "007", "255", "256", "999", "0000255", "00000256", "1e1", "12a", "+", "++1", "٣", "99999999999999999999999999", " 1"] {
        assert_eq!(parse_u8(&chars(text)), text.parse::<u8>().ok(), "{:?}", text);
    }
}

#[test]
fn classify_tells_the_directives_apart() {
    assert_eq!(classify(&chars("")), Directive::Skip);
    assert_eq!(classify(&chars("REM FILE x")), Directive::Skip);
    assert_eq!(classify(&chars("REMFILE ")), Directive::Skip);
    assert_eq!(classify(&chars("FILE \"a\" B")), Directive::File);
    assert_eq!(classify(&chars("FILE ")), Directive::File);
    assert_eq!(classify(&chars("FILE")), Directive::Skip);
    assert_eq!(classify(&chars("TRACK 01 AUDIO")), Directive::Track);
    assert_eq!(classify(&chars("INDEX 01 00:00:00")), Directive::Index);
    assert_eq!(classify(&chars("INDEXES")), Directive::Skip);
    assert_eq!(classify(&chars(" FILE ")), Directive::Skip);
}

#[test]
fn field_readers_take_the_second_and_third_word() {
    assert_eq!(parse_track_fields(&chars("TRACK 12 MODE1/2048")), Ok((12, TrackType::Mode1_2048)));
    assert_eq!(parse_track_fields(&chars("TRACK 12")), Err(CueError::Format));
    assert_eq!(parse_index_fields(&chars("INDEX 01 01:02:03 x")), Ok((1, Msf::new(1, 2, 3))));
    assert_eq!(parse_index_fields(&chars("INDEX 01")), Err(CueError::Format));
}

#[test]
fn the_parser_can_be_driven_line_by_line() {
    let parser = CueParser::new();
    assert!(matches!(parser.open, Open::Nothing));
    let parser = parser.feed_line("  FILE \"a.bin\" BINARY").unwrap();
    assert!(matches!(parser.open, Open::File(_)));
    assert!(parser.files.is_empty());
    let parser = parser.feed_line("TRACK 01 MODE2/2352").unwrap();
    assert!(matches!(parser.open, Open::Track(_, _)));
    let parser = parser.feed_line("INDEX 00 00:00:00").unwrap();
    let parser = parser.feed_line("TRACK 02 AUDIO").unwrap();
    match &parser.open {
        Open::Track(f, t) => {
            assert_eq!(f.tracks.len(), 1);
            assert_eq!(f.tracks[0].index00_msf, Some(Msf::new(0, 0, 0)));
            assert_eq!(t.number, 2);
        }
        _ => panic!("a track should be open"),
    }
    let parser = parser.feed_line("FILE \"b.bin\" BINARY").unwrap();
    assert_eq!(parser.files.len(), 1);
    assert_eq!(parser.files[0].tracks.len(), 2);
    assert!(matches!(parser.open, Open::File(_)));
    assert!(parser.feed_line("TRACK zz AUDIO").is_err());
}

#[test]
fn finish_closes_what_is_open() {
    let parser = CueParser::new().feed_line("FILE \"a.bin\" BINARY").unwrap();
    let parser = parser.feed_line("TRACK 01 MODE2/2352").unwrap();
    let sheet = parser.finish().unwrap();
    assert_eq!(sheet.files.len(), 1);
    assert_eq!(sheet.files[0].tracks.len(), 1);
    assert_eq!(CueParser::new().finish().err(), Some(CueError::MissingData));
    assert_eq!(CueParser::new().close().len(), 0);
}
