//! The CUE sheet grammar.
//!
//! A sheet is read line by line. Lines are trimmed; empty lines, `REM`
//! comments and unknown directives are passed over. The parser carries the
//! files it has completed and what is still open: nothing, a file, or a file
//! and its latest track. `FILE`, `TRACK` and the end of the text close what
//! is open.

use crate::cue::{file_views, validated, CueSheet, FileEntry, FileView, Track, TrackType};
use crate::error::CueError;
use crate::msf::Msf;
use crate::text::{
    chars_of, copy_range, decimal_u8, find_char, has_prefix, lemma_find_char_bounds, next_word,
    parse_u8, scan_char, starts_with, string_of, trim, trimmed, word, word_bounds,
};
use vstd::prelude::*;

verus! {

/// What a trimmed line asks for.
#[derive(Debug, Clone, Copy, PartialEq, Eq, Structural)]
pub enum Directive {
    /// An empty line, a comment or a directive that the grammar passes over.
    Skip,
    File,
    Track,
    Index,
}

/// The directive of a trimmed line.
pub open spec fn directive_of(line: Seq<char>) -> Directive {
    if line.len() == 0 || has_prefix(line, "REM"@) {
        Directive::Skip
    } else if has_prefix(line, "FILE "@) {
        Directive::File
    } else if has_prefix(line, "TRACK "@) {
        Directive::Track
    } else if has_prefix(line, "INDEX "@) {
        Directive::Index
    } else {
        Directive::Skip
    }
}

/// The file name and type label of a `FILE` line: the name stands between
/// the first two double quotes, the label is the trimmed rest.
pub open spec fn file_fields(line: Seq<char>) -> Option<(Seq<char>, Seq<char>)> {
    let open = find_char(line, '"', 0);
    let close = find_char(line, '"', open + 1);
    if open < line.len() && close < line.len() {
        Some((line.subrange(open + 1, close), trimmed(line.subrange(close + 1, line.len() as int))))
    } else {
        None
    }
}

/// The number and type of a `TRACK` line, its second and third words.
pub open spec fn track_fields(line: Seq<char>) -> Result<(u8, TrackType), CueError> {
    match (word(line, 1), word(line, 2)) {
        (Some(number), Some(name)) => match decimal_u8(number) {
            None => Err(CueError::Format),
            Some(n) => match TrackType::of_name(name) {
                None => Err(CueError::Type),
                Some(t) => Ok((n, t)),
            },
        },
        _ => Err(CueError::Format),
    }
}

/// The number and position of an `INDEX` line, its second and third words.
pub open spec fn index_fields(line: Seq<char>) -> Result<(u8, Msf), CueError> {
    match (word(line, 1), word(line, 2)) {
        (Some(number), Some(position)) => match decimal_u8(number) {
            None => Err(CueError::Format),
            Some(n) => match Msf::parse(position) {
                None => Err(CueError::Format),
                Some(m) => Ok((n, m)),
            },
        },
        _ => Err(CueError::Format),
    }
}

/// What the parser holds open, as plain mathematical values.
pub enum OpenView {
    Nothing,
    File(FileView),
    Track(FileView, Track),
}

/// The state of the parser, as plain mathematical values.
pub struct ParserView {
    /// The files that are complete.
    pub files: Seq<FileView>,
    pub open: OpenView,
}

impl ParserView {
    /// The state before the first line.
    pub open spec fn start() -> ParserView {
        ParserView { files: Seq::empty(), open: OpenView::Nothing }
    }

    /// The files of the sheet once everything open is closed: an open track
    /// goes onto its file, an open file onto the sheet.
    pub open spec fn closed(self) -> Seq<FileView> {
        match self.open {
            OpenView::Nothing => self.files,
            OpenView::File(f) => self.files.push(f),
            OpenView::Track(f, t) => self.files.push(f.with_track(t)),
        }
    }

    /// A `FILE` line closes what is open and opens a new file.
    pub open spec fn on_file(self, line: Seq<char>) -> Result<ParserView, CueError> {
        match file_fields(line) {
            None => Err(CueError::Format),
            Some((filename, file_type)) => Ok(
                ParserView {
                    files: self.closed(),
                    open: OpenView::File(FileView::empty(filename, file_type)),
                },
            ),
        }
    }

    /// A `TRACK` line needs an open file. It closes the open track onto that
    /// file and opens a new one, which starts at `00:00:00` and has no pregap.
    pub open spec fn on_track(self, line: Seq<char>) -> Result<ParserView, CueError> {
        match self.open {
            OpenView::Nothing => Err(CueError::MissingData),
            OpenView::File(f) => match track_fields(line) {
                Err(e) => Err(e),
                Ok((number, track_type)) => Ok(
                    ParserView {
                        files: self.files,
                        open: OpenView::Track(
                            f,
                            Track { number, track_type, index00_msf: None, index01_msf: Msf::zero() },
                        ),
                    },
                ),
            },
            OpenView::Track(f, t) => match track_fields(line) {
                Err(e) => Err(e),
                Ok((number, track_type)) => Ok(
                    ParserView {
                        files: self.files,
                        open: OpenView::Track(
                            f.with_track(t),
                            Track { number, track_type, index00_msf: None, index01_msf: Msf::zero() },
                        ),
                    },
                ),
            },
        }
    }

    /// An `INDEX` line sets index 00 or index 01 of the open track. Another
    /// index number, or a line without an open track, changes nothing; a
    /// malformed line is an error all the same.
    pub open spec fn on_index(self, line: Seq<char>) -> Result<ParserView, CueError> {
        match index_fields(line) {
            Err(e) => Err(e),
            Ok((number, position)) => match self.open {
                OpenView::Track(f, t) => if number == 0 {
                    Ok(
                        ParserView {
                            files: self.files,
                            open: OpenView::Track(f, Track { index00_msf: Some(position), ..t }),
                        },
                    )
                } else if number == 1 {
                    Ok(
                        ParserView {
                            files: self.files,
                            open: OpenView::Track(f, Track { index01_msf: position, ..t }),
                        },
                    )
                } else {
                    Ok(self)
                },
                _ => Ok(self),
            },
        }
    }

    /// The state after one more line of the text.
    pub open spec fn step(self, line: Seq<char>) -> Result<ParserView, CueError> {
        let line = trimmed(line);
        match directive_of(line) {
            Directive::Skip => Ok(self),
            Directive::File => self.on_file(line),
            Directive::Track => self.on_track(line),
            Directive::Index => self.on_index(line),
        }
    }

    /// The state after the lines of `text` that start at or after `from`,
    /// or the error of the first line that has one. Lines end at `'\n'`.
    pub open spec fn run(self, text: Seq<char>, from: int) -> Result<ParserView, CueError>
        decreases text.len() - from,
        via Self::run_decreases
    {
        if from < 0 || from > text.len() {
            Ok(self)
        } else {
            let end = find_char(text, '\n', from);
            match self.step(text.subrange(from, end)) {
                Err(e) => Err(e),
                Ok(next) => if end >= text.len() {
                    Ok(next)
                } else {
                    next.run(text, end + 1)
                },
            }
        }
    }

    /// Each line ends at or after the place where it starts.
    #[via_fn]
    proof fn run_decreases(self, text: Seq<char>, from: int) {
        if 0 <= from <= text.len() {
            lemma_find_char_bounds(text, '\n', from);
        }
    }
}

/// The sheet that a CUE text describes, or why the text is rejected: the
/// error of its first bad line, or else of the structural rules.
pub open spec fn parsed(text: Seq<char>) -> Result<Seq<FileView>, CueError> {
    match ParserView::start().run(text, 0) {
        Err(e) => Err(e),
        Ok(state) => match validated(state.closed()) {
            Err(e) => Err(e),
            Ok(()) => Ok(state.closed()),
        },
    }
}

/// What the parser holds open.
#[derive(Debug)]
pub enum Open {
    Nothing,
    File(FileEntry),
    Track(FileEntry, Track),
}

impl View for Open {
    type V = OpenView;

    open spec fn view(&self) -> OpenView {
        match self {
            Open::Nothing => OpenView::Nothing,
            Open::File(f) => OpenView::File(f@),
            Open::Track(f, t) => OpenView::Track(f@, *t),
        }
    }
}

/// A CUE sheet in the making.
#[derive(Debug)]
pub struct CueParser {
    /// The files that are complete.
    pub files: Vec<FileEntry>,
    pub open: Open,
}

impl View for CueParser {
    type V = ParserView;

    open spec fn view(&self) -> ParserView {
        ParserView { files: file_views(self.files@), open: self.open@ }
    }
}

/// The outcome of a parser step, as plain mathematical values.
pub open spec fn step_view(r: Result<CueParser, CueError>) -> Result<ParserView, CueError> {
    match r {
        Ok(p) => Ok(p@),
        Err(e) => Err(e),
    }
}

/// The outcome of reading a sheet, as plain mathematical values.
pub open spec fn sheet_view(r: Result<CueSheet, CueError>) -> Result<Seq<FileView>, CueError> {
    match r {
        Ok(sheet) => Ok(sheet@),
        Err(e) => Err(e),
    }
}

/// Tells which directive a trimmed line holds.
pub fn classify(line: &Vec<char>) -> (d: Directive)
    ensures
        d == directive_of(line@),
{
    if line.len() == 0 || starts_with(line, "REM") {
        Directive::Skip
    } else if starts_with(line, "FILE ") {
        Directive::File
    } else if starts_with(line, "TRACK ") {
        Directive::Track
    } else if starts_with(line, "INDEX ") {
        Directive::Index
    } else {
        Directive::Skip
    }
}

/// The second and third words of a line, if it has three words.
fn second_and_third(line: &Vec<char>) -> (r: Option<(Vec<char>, Vec<char>)>)
    ensures
        match r {
            Some((a, b)) => word(line@, 1) == Some(a@) && word(line@, 2) == Some(b@),
            None => word(line@, 1).is_none() || word(line@, 2).is_none(),
        },
{
    let (_, end0) = next_word(line, 0);
    let (start1, end1) = next_word(line, end0);
    let (start2, end2) = next_word(line, end1);
    assert(word_bounds(line@, 0).1 == end0);
    assert(word_bounds(line@, 1) == (start1 as int, end1 as int));
    assert(word_bounds(line@, 2) == (start2 as int, end2 as int));
    if start1 < end1 && start2 < end2 {
        Some((copy_range(line, start1, end1), copy_range(line, start2, end2)))
    } else {
        None
    }
}

/// Reads the number and type of a trimmed `TRACK` line.
pub fn parse_track_fields(line: &Vec<char>) -> (r: Result<(u8, TrackType), CueError>)
    ensures
        r == track_fields(line@),
{
    match second_and_third(line) {
        None => Err(CueError::Format),
        Some((number, name)) => match parse_u8(&number) {
            None => Err(CueError::Format),
            Some(n) => match TrackType::from_chars(&name) {
                None => Err(CueError::Type),
                Some(t) => Ok((n, t)),
            },
        },
    }
}

/// Reads the number and position of a trimmed `INDEX` line.
pub fn parse_index_fields(line: &Vec<char>) -> (r: Result<(u8, Msf), CueError>)
    ensures
        r == index_fields(line@),
{
    match second_and_third(line) {
        None => Err(CueError::Format),
        Some((number, position)) => match parse_u8(&number) {
            None => Err(CueError::Format),
            Some(n) => match Msf::from_chars(&position) {
                None => Err(CueError::Format),
                Some(m) => Ok((n, m)),
            },
        },
    }
}

impl CueParser {
    /// A parser that has read nothing.
    pub fn new() -> (p: CueParser)
        ensures
            p@ == ParserView::start(),
    {
        let p = CueParser { files: Vec::new(), open: Open::Nothing };
        assert(p@.files =~= Seq::<FileView>::empty());
        p
    }

    /// Closes what is open and hands out the files of the sheet.
    pub fn close(self) -> (files: Vec<FileEntry>)
        ensures
            file_views(files@) == self@.closed(),
    {
        let mut files = self.files;
        let ghost before = files@;
        match self.open {
            Open::Nothing => {},
            Open::File(f) => {
                files.push(f);
                assert(file_views(files@) =~= file_views(before).push(f@));
            },
            Open::Track(f, t) => {
                let ghost opened = f@;
                let mut f = f;
                f.tracks.push(t);
                files.push(f);
                assert(file_views(files@) =~= file_views(before).push(opened.with_track(t)));
            },
        }
        files
    }

    /// Takes a trimmed `FILE` line.
    pub fn handle_file_directive(self, line: &Vec<char>) -> (r: Result<CueParser, CueError>)
        ensures
            step_view(r) == self@.on_file(line@),
    {
        let open = scan_char(line, '"', 0);
        if open >= line.len() {
            return Err(CueError::Format);
        }
        let close = scan_char(line, '"', open + 1);
        if close >= line.len() {
            return Err(CueError::Format);
        }
        let filename = string_of(&copy_range(line, open + 1, close));
        let file_type = string_of(&trim(&copy_range(line, close + 1, line.len())));
        let files = self.close();
        Ok(CueParser { files, open: Open::File(FileEntry::new(filename, file_type)) })
    }

    /// Takes a trimmed `TRACK` line.
    pub fn handle_track_directive(self, line: &Vec<char>) -> (r: Result<CueParser, CueError>)
        ensures
            step_view(r) == self@.on_track(line@),
    {
        let file = match self.open {
            Open::Nothing => {
                return Err(CueError::MissingData);
            },
            Open::File(f) => f,
            Open::Track(f, t) => {
                let mut f = f;
                f.tracks.push(t);
                f
            },
        };
        match parse_track_fields(line) {
            Err(e) => Err(e),
            Ok((number, track_type)) => Ok(
                CueParser {
                    files: self.files,
                    open: Open::Track(file, Track::new(number, track_type, Msf::new(0, 0, 0))),
                },
            ),
        }
    }

    /// Takes a trimmed `INDEX` line.
    pub fn handle_index_directive(self, line: &Vec<char>) -> (r: Result<CueParser, CueError>)
        ensures
            step_view(r) == self@.on_index(line@),
    {
        match parse_index_fields(line) {
            Err(e) => Err(e),
            Ok((number, position)) => match self.open {
                Open::Track(f, t) => {
                    let mut t = t;
                    if number == 0 {
                        t.index00_msf = Some(position);
                    } else if number == 1 {
                        t.index01_msf = position;
                    }
                    Ok(CueParser { files: self.files, open: Open::Track(f, t) })
                },
                open => Ok(CueParser { files: self.files, open }),
            },
        }
    }

    /// Takes one line of the text, given as characters.
    pub fn step(self, line: &Vec<char>) -> (r: Result<CueParser, CueError>)
        ensures
            step_view(r) == self@.step(line@),
    {
        let line = trim(line);
        match classify(&line) {
            Directive::Skip => Ok(self),
            Directive::File => self.handle_file_directive(&line),
            Directive::Track => self.handle_track_directive(&line),
            Directive::Index => self.handle_index_directive(&line),
        }
    }

    /// Takes one line of the text.
    pub fn feed_line(self, line: &str) -> (r: Result<CueParser, CueError>)
        ensures
            step_view(r) == self@.step(line@),
    {
        self.step(&chars_of(line))
    }

    /// Closes what is open and checks the structural rules of the sheet.
    pub fn finish(self) -> (r: Result<CueSheet, CueError>)
        ensures
            sheet_view(r) == match validated(self@.closed()) {
                Err(e) => Err::<Seq<FileView>, CueError>(e),
                Ok(()) => Ok(self@.closed()),
            },
    {
        let sheet = CueSheet { files: self.close() };
        match sheet.validate() {
            Err(e) => Err(e),
            Ok(()) => Ok(sheet),
        }
    }
}

impl CueSheet {
    /// Reads a CUE sheet from its text and checks its structure. No sheet is
    /// handed out for a text that has an error.
    pub fn parse(text: &str) -> (r: Result<CueSheet, CueError>)
        ensures
            sheet_view(r) == parsed(text@),
    {
        let chars = chars_of(text);
        let mut parser = CueParser::new();
        let mut from: usize = 0;
        loop
            invariant_except_break
                from <= chars.len(),
                ParserView::start().run(chars@, 0) == parser@.run(chars@, from as int),
            invariant
                chars@ == text@,
            ensures
                ParserView::start().run(chars@, 0) == Ok::<ParserView, CueError>(parser@),
            decreases chars.len() - from,
        {
            let end = scan_char(&chars, '\n', from);
            let line = copy_range(&chars, from, end);
            match parser.step(&line) {
                Err(e) => {
                    return Err(e);
                },
                Ok(next) => {
                    parser = next;
                },
            }
            if end >= chars.len() {
                break ;
            }
            from = end + 1;
        }
        parser.finish()
    }
}

} // verus!
