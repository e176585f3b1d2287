//! Positions and sheets as text.

use crate::cue::{all_tracks, CueSheet, FileView, Track};
use crate::msf::Msf;
use crate::text::{chars_of, string_of};
use vstd::prelude::*;

verus! {

/// The character of a decimal digit.
pub open spec fn digit_char(d: nat) -> char {
    (48 + d % 10) as u8 as char
}

/// A byte in decimal, with a leading zero where it is below ten.
pub open spec fn two_digits(n: u8) -> Seq<char> {
    if n < 100 {
        seq![digit_char(n as nat / 10), digit_char(n as nat)]
    } else {
        seq![digit_char(n as nat / 100), digit_char(n as nat / 10), digit_char(n as nat)]
    }
}

/// A position as `MM:SS:FF`.
pub open spec fn msf_text(m: Msf) -> Seq<char> {
    two_digits(m.minutes) + seq![':'] + two_digits(m.seconds) + seq![':'] + two_digits(m.frames)
}

/// The lines of a track in a CUE sheet: its number and type, index 00 where
/// it has one, and index 01.
pub open spec fn track_text(t: Track) -> Seq<char> {
    "  TRACK "@ + two_digits(t.number) + seq![' '] + t.track_type.name() + seq!['\n'] + (
    match t.index00_msf {
        Some(m) => "    INDEX 00 "@ + msf_text(m) + seq!['\n'],
        None => Seq::empty(),
    }) + "    INDEX 01 "@ + msf_text(t.index01_msf) + seq!['\n']
}

/// The lines of a run of tracks, one track after the other.
pub open spec fn tracks_text(tracks: Seq<Track>) -> Seq<char>
    decreases tracks.len(),
{
    if tracks.len() == 0 {
        Seq::empty()
    } else {
        tracks_text(tracks.drop_last()) + track_text(tracks.last())
    }
}

/// The CUE sheet of a combined stream stored under `bin_name`: one binary
/// file that holds every track of the sheet.
pub open spec fn combined_cue_text(files: Seq<FileView>, bin_name: Seq<char>) -> Seq<char> {
    "FILE \""@ + bin_name + "\" BINARY\n"@ + tracks_text(all_tracks(files))
}

/// Appends the characters of `text`.
fn push_text(out: &mut Vec<char>, text: &str)
    ensures
        final(out)@ == old(out)@ + text@,
{
    let mut chars = chars_of(text);
    out.append(&mut chars);
}

/// Appends a byte in decimal, with a leading zero where it is below ten.
fn push_two_digits(out: &mut Vec<char>, n: u8)
    ensures
        final(out)@ == old(out)@ + two_digits(n),
{
    let ghost before = out@;
    if n >= 100 {
        out.push((48 + n / 100) as char);
    }
    out.push((48 + (n / 10) % 10) as char);
    out.push((48 + n % 10) as char);
    assert(out@ =~= before + two_digits(n));
}

/// Appends a position as `MM:SS:FF`.
fn push_msf(out: &mut Vec<char>, m: Msf)
    ensures
        final(out)@ == old(out)@ + msf_text(m),
{
    let ghost before = out@;
    push_two_digits(out, m.minutes);
    out.push(':');
    push_two_digits(out, m.seconds);
    out.push(':');
    push_two_digits(out, m.frames);
    assert(out@ =~= before + msf_text(m));
}

/// Appends the lines of a track.
fn push_track(out: &mut Vec<char>, t: Track)
    ensures
        final(out)@ == old(out)@ + track_text(t),
{
    let ghost before = out@;
    push_text(out, "  TRACK ");
    push_two_digits(out, t.number);
    out.push(' ');
    push_text(out, t.track_type.as_str());
    out.push('\n');
    match t.index00_msf {
        Some(m) => {
            push_text(out, "    INDEX 00 ");
            push_msf(out, m);
            out.push('\n');
        },
        None => {},
    }
    push_text(out, "    INDEX 01 ");
    push_msf(out, t.index01_msf);
    out.push('\n');
    assert(out@ =~= before + track_text(t));
}

impl Msf {
    /// The position as `MM:SS:FF`, each field with at least two digits.
    pub fn to_text(&self) -> (s: String)
        ensures
            s@ == msf_text(*self),
    {
        let mut out: Vec<char> = Vec::new();
        push_msf(&mut out, *self);
        assert(out@ =~= msf_text(*self));
        string_of(&out)
    }
}

impl CueSheet {
    /// The text of the CUE sheet of the combined stream, stored under
    /// `bin_name`.
    pub fn combined_cue(&self, bin_name: &str) -> (s: String)
        ensures
            s@ == combined_cue_text(self@, bin_name@),
    {
        let tracks = self.tracks();
        let mut out: Vec<char> = Vec::new();
        push_text(&mut out, "FILE \"");
        push_text(&mut out, bin_name);
        push_text(&mut out, "\" BINARY\n");
        let ghost head = out@;
        assert(head =~= "FILE \""@ + bin_name@ + "\" BINARY\n"@);
        let mut k: usize = 0;
        while k < tracks.len()
            invariant
                k <= tracks.len(),
                out@ == head + tracks_text(tracks@.take(k as int)),
            decreases tracks.len() - k,
        {
            push_track(&mut out, tracks[k]);
            assert(tracks@.take(k + 1).drop_last() =~= tracks@.take(k as int));
            assert(out@ =~= head + tracks_text(tracks@.take(k + 1)));
            k += 1;
        }
        assert(tracks@.take(tracks.len() as int) =~= tracks@);
        string_of(&out)
    }
}

} // verus!
