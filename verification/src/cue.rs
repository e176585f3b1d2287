//! The CUE sheet model: files, tracks and their index positions.

use crate::error::CueError;
use crate::msf::Msf;
use crate::text::{chars_of, is_text};
use vstd::prelude::*;

verus! {

/// The kind of data a track holds, which fixes the size of its sectors.
#[allow(non_camel_case_types)]
#[derive(Debug, Clone, Copy, PartialEq, Eq, Structural)]
pub enum TrackType {
    Audio,
    Mode1_2048,
    Mode1_2352,
    Mode2_2336,
    Mode2_2352,
}

impl TrackType {
    /// The track type that a CUE sheet names by `s`.
    pub open spec fn of_name(s: Seq<char>) -> Option<TrackType> {
        if s == "AUDIO"@ {
            Some(TrackType::Audio)
        } else if s == "MODE1/2048"@ {
            Some(TrackType::Mode1_2048)
        } else if s == "MODE1/2352"@ {
            Some(TrackType::Mode1_2352)
        } else if s == "MODE2/2336"@ {
            Some(TrackType::Mode2_2336)
        } else if s == "MODE2/2352"@ {
            Some(TrackType::Mode2_2352)
        } else {
            None
        }
    }

    /// The name of the track type in a CUE sheet.
    pub open spec fn name(self) -> Seq<char> {
        match self {
            TrackType::Audio => "AUDIO"@,
            TrackType::Mode1_2048 => "MODE1/2048"@,
            TrackType::Mode1_2352 => "MODE1/2352"@,
            TrackType::Mode2_2336 => "MODE2/2336"@,
            TrackType::Mode2_2352 => "MODE2/2352"@,
        }
    }

    /// Bytes in one sector of a track of this type.
    pub open spec fn size(self) -> nat {
        match self {
            TrackType::Audio => 2352,
            TrackType::Mode1_2048 => 2048,
            TrackType::Mode1_2352 => 2352,
            TrackType::Mode2_2336 => 2336,
            TrackType::Mode2_2352 => 2352,
        }
    }

    /// Whether the type is audio; every other type is data.
    pub open spec fn audio(self) -> bool {
        self == TrackType::Audio
    }

    /// Recognises the name of a track type, given as characters.
    pub fn from_chars(v: &Vec<char>) -> (r: Option<TrackType>)
        ensures
            r == TrackType::of_name(v@),
    {
        if is_text(v, "AUDIO") {
            Some(TrackType::Audio)
        } else if is_text(v, "MODE1/2048") {
            Some(TrackType::Mode1_2048)
        } else if is_text(v, "MODE1/2352") {
            Some(TrackType::Mode1_2352)
        } else if is_text(v, "MODE2/2336") {
            Some(TrackType::Mode2_2336)
        } else if is_text(v, "MODE2/2352") {
            Some(TrackType::Mode2_2352)
        } else {
            None
        }
    }

    /// Recognises the name of a track type; any other text gives nothing.
    pub fn from_str(s: &str) -> (r: Option<TrackType>)
        ensures
            r == TrackType::of_name(s@),
    {
        TrackType::from_chars(&chars_of(s))
    }

    /// Bytes in one sector of a track of this type.
    pub fn sector_size(&self) -> (n: usize)
        ensures
            n == self.size(),
    {
        match self {
            TrackType::Audio => 2352,
            TrackType::Mode1_2048 => 2048,
            TrackType::Mode1_2352 => 2352,
            TrackType::Mode2_2336 => 2336,
            TrackType::Mode2_2352 => 2352,
        }
    }

    /// The name of the track type as a CUE sheet writes it.
    pub fn as_str(&self) -> (s: &'static str)
        ensures
            s@ == self.name(),
    {
        match self {
            TrackType::Audio => "AUDIO",
            TrackType::Mode1_2048 => "MODE1/2048",
            TrackType::Mode1_2352 => "MODE1/2352",
            TrackType::Mode2_2336 => "MODE2/2336",
            TrackType::Mode2_2352 => "MODE2/2352",
        }
    }
}

/// One track of a disc.
#[derive(Debug, Clone, Copy, PartialEq, Eq, Structural)]
pub struct Track {
    pub number: u8,
    pub track_type: TrackType,
    /// Where the pregap starts, if one is known.
    pub index00_msf: Option<Msf>,
    /// Where the track itself starts.
    pub index01_msf: Msf,
}

impl Track {
    /// The position of the pregap in the track table: index 00, or index 01
    /// where no pregap is known.
    pub open spec fn pregap_start(self) -> Msf {
        match self.index00_msf {
            Some(m) => m,
            None => self.index01_msf,
        }
    }

    /// A track without a pregap.
    pub fn new(number: u8, track_type: TrackType, index01_msf: Msf) -> (t: Track)
        ensures
            t == (Track { number, track_type, index00_msf: None, index01_msf }),
    {
        Track { number, track_type, index00_msf: None, index01_msf }
    }

    /// Whether the track holds audio.
    pub fn is_audio(&self) -> (b: bool)
        ensures
            b == self.track_type.audio(),
    {
        self.track_type == TrackType::Audio
    }

    /// Bytes in one sector of the track.
    pub fn sector_size(&self) -> (n: usize)
        ensures
            n == self.track_type.size(),
    {
        self.track_type.sector_size()
    }
}

/// One `FILE` of a CUE sheet with the tracks it holds.
#[derive(Debug, Clone)]
pub struct FileEntry {
    pub filename: String,
    /// The type label as written; it is carried, not interpreted.
    pub file_type: String,
    pub tracks: Vec<Track>,
    /// The length of the file in bytes; zero until it is known.
    pub file_size: u64,
}

/// What a [`FileEntry`] holds, as plain mathematical values.
pub struct FileView {
    pub filename: Seq<char>,
    pub file_type: Seq<char>,
    pub tracks: Seq<Track>,
    pub file_size: u64,
}

impl View for FileEntry {
    type V = FileView;

    open spec fn view(&self) -> FileView {
        FileView {
            filename: self.filename@,
            file_type: self.file_type@,
            tracks: self.tracks@,
            file_size: self.file_size,
        }
    }
}

impl FileView {
    /// A file without tracks and of unknown size.
    pub open spec fn empty(filename: Seq<char>, file_type: Seq<char>) -> FileView {
        FileView { filename, file_type, tracks: Seq::empty(), file_size: 0 }
    }

    /// This file with one more track at the end.
    pub open spec fn with_track(self, t: Track) -> FileView {
        FileView { tracks: self.tracks.push(t), ..self }
    }

    /// The sectors that the file physically holds, by the sector size of its
    /// first track.
    pub open spec fn physical_sectors(self) -> nat
        recommends
            self.tracks.len() > 0,
    {
        self.file_size as nat / self.tracks[0].track_type.size()
    }
}

impl FileEntry {
    /// A file without tracks and of unknown size.
    pub fn new(filename: String, file_type: String) -> (f: FileEntry)
        ensures
            f@ == FileView::empty(filename@, file_type@),
    {
        FileEntry { filename, file_type, tracks: Vec::new(), file_size: 0 }
    }
}

/// A whole CUE sheet: its files in disc order.
#[derive(Debug, Clone)]
pub struct CueSheet {
    pub files: Vec<FileEntry>,
}

/// What each of a run of files holds.
pub open spec fn file_views(files: Seq<FileEntry>) -> Seq<FileView> {
    Seq::new(files.len(), |i: int| files[i]@)
}

impl View for CueSheet {
    type V = Seq<FileView>;

    open spec fn view(&self) -> Seq<FileView> {
        file_views(self.files@)
    }
}

/// The number of tracks of all files together.
pub open spec fn total_tracks(files: Seq<FileView>) -> nat
    decreases files.len(),
{
    if files.len() == 0 {
        0
    } else {
        total_tracks(files.drop_last()) + files.last().tracks.len()
    }
}

/// The tracks of all files, in disc order.
pub open spec fn all_tracks(files: Seq<FileView>) -> Seq<Track>
    decreases files.len(),
{
    if files.len() == 0 {
        Seq::empty()
    } else {
        all_tracks(files.drop_last()) + files.last().tracks
    }
}

/// The last track of the last file, if that file has one.
pub open spec fn last_track(files: Seq<FileView>) -> Option<Track> {
    if files.len() > 0 && files.last().tracks.len() > 0 {
        Some(files.last().tracks.last())
    } else {
        None
    }
}

/// Whether every file holds at least one track.
pub open spec fn every_file_has_track(files: Seq<FileView>) -> bool {
    forall|i: int| 0 <= i < files.len() ==> (#[trigger] files[i]).tracks.len() > 0
}

/// The structural rules of a sheet: it names a file, and its very first
/// track starts at sector zero.
pub open spec fn validated(files: Seq<FileView>) -> Result<(), CueError> {
    if files.len() == 0 {
        Err(CueError::MissingData)
    } else if files[0].tracks.len() > 0 && files[0].tracks[0].index01_msf.lba() != 0 {
        Err(CueError::MissingData)
    } else {
        Ok(())
    }
}

/// Whether every track numbered 1 is of type `MODE2/2352`.
pub open spec fn first_tracks_are_mode2(files: Seq<FileView>) -> bool {
    forall|i: int, j: int|
        0 <= i < files.len() && 0 <= j < files[i].tracks.len() && (
        #[trigger] files[i].tracks[j]).number == 1 ==> files[i].tracks[j].track_type
            == TrackType::Mode2_2352
}

/// The tracks of all files have as many elements as the files have tracks.
pub proof fn lemma_all_tracks_len(files: Seq<FileView>)
    ensures
        all_tracks(files).len() == total_tracks(files),
    decreases files.len(),
{
    if files.len() > 0 {
        lemma_all_tracks_len(files.drop_last());
    }
}

impl CueSheet {
    /// A sheet without files.
    pub fn new() -> (sheet: CueSheet)
        ensures
            sheet@ == Seq::<FileView>::empty(),
    {
        let sheet = CueSheet { files: Vec::new() };
        assert(sheet@ =~= Seq::<FileView>::empty());
        sheet
    }

    /// Checks the structural rules of a sheet.
    pub fn validate(&self) -> (r: Result<(), CueError>)
        ensures
            r == validated(self@),
    {
        if self.files.len() == 0 {
            return Err(CueError::MissingData);
        }
        if self.files[0].tracks.len() > 0 && self.files[0].tracks[0].index01_msf.to_sectors() != 0 {
            return Err(CueError::MissingData);
        }
        Ok(())
    }

    /// Records the length in bytes of each file, in the order of the files.
    pub fn load_file_sizes(&mut self, sizes: &Vec<u64>)
        requires
            sizes.len() == old(self).files.len(),
        ensures
            final(self)@ == Seq::new(
                old(self)@.len(),
                |i: int| (FileView { file_size: sizes[i], ..old(self)@[i] }),
            ),
    {
        let n = self.files.len();
        let ghost before = self@;
        let mut i: usize = 0;
        while i < n
            invariant
                i <= n,
                n == self.files.len(),
                n == sizes.len(),
                before.len() == n,
                forall|k: int| 0 <= k < i ==> #[trigger] self@[k] == (FileView { file_size: sizes[k], ..before[k] }),
                forall|k: int| i <= k < n ==> #[trigger] self@[k] == before[k],
            decreases n - i,
        {
            let ghost prev = self@;
            self.files[i].file_size = sizes[i];
            assert(forall|k: int| 0 <= k < n && k != i ==> #[trigger] self@[k] == prev[k]);
            assert(self@[i as int] == (FileView { file_size: sizes[i as int], ..prev[i as int] }));
            i += 1;
        }
        assert(self@ =~= Seq::new(
            before.len(),
            |i: int| (FileView { file_size: sizes[i], ..before[i] }),
        ));
    }

    /// The number of tracks of all files together, when it fits a `usize`.
    pub fn checked_total_tracks(&self) -> (r: Option<usize>)
        ensures
            r == if total_tracks(self@) <= usize::MAX {
                Some(total_tracks(self@) as usize)
            } else {
                None
            },
    {
        let n = self.files.len();
        let mut total: usize = 0;
        let mut i: usize = 0;
        while i < n
            invariant
                i <= n,
                n == self.files.len(),
                total == total_tracks(self@.take(i as int)),
            decreases n - i,
        {
            let len = self.files[i].tracks.len();
            assert(self@.take(i + 1).drop_last() =~= self@.take(i as int));
            if len > usize::MAX - total {
                proof {
                    lemma_total_tracks_prefix(self@, i + 1);
                }
                return None;
            }
            total = total + len;
            i += 1;
        }
        assert(self@.take(n as int) =~= self@);
        Some(total)
    }

    /// The number of tracks of all files together.
    pub fn get_total_tracks(&self) -> (n: usize)
        requires
            total_tracks(self@) <= usize::MAX,
        ensures
            n == total_tracks(self@),
    {
        match self.checked_total_tracks() {
            Some(n) => n,
            None => 0,
        }
    }

    /// The tracks of all files, in disc order.
    pub fn tracks(&self) -> (out: Vec<Track>)
        ensures
            out@ == all_tracks(self@),
    {
        let mut out: Vec<Track> = Vec::new();
        let n = self.files.len();
        let mut i: usize = 0;
        while i < n
            invariant
                i <= n,
                n == self.files.len(),
                out@ == all_tracks(self@.take(i as int)),
            decreases n - i,
        {
            let tracks = &self.files[i].tracks;
            let m = tracks.len();
            let mut j: usize = 0;
            while j < m
                invariant
                    i < n,
                    n == self.files.len(),
                    j <= m,
                    m == tracks.len(),
                    tracks@ == self@[i as int].tracks,
                    out@ == all_tracks(self@.take(i as int)) + tracks@.take(j as int),
                decreases m - j,
            {
                out.push(tracks[j]);
                assert(tracks@.take(j + 1) =~= tracks@.take(j as int).push(tracks@[j as int]));
                j += 1;
            }
            proof {
                assert(tracks@.take(m as int) =~= tracks@);
                lemma_all_tracks_take(self@, i as int);
            }
            i += 1;
        }
        assert(self@.take(n as int) =~= self@);
        out
    }

    /// The last track of the last file; nothing when there is no file or
    /// the last file has no track.
    pub fn get_last_track(&self) -> (r: Option<&Track>)
        ensures
            r == match last_track(self@) {
                Some(t) => Some(&t),
                None => None,
            },
    {
        let n = self.files.len();
        if n == 0 {
            return None;
        }
        let tracks = &self.files[n - 1].tracks;
        let m = tracks.len();
        if m == 0 {
            return None;
        }
        Some(&tracks[m - 1])
    }

    /// Checks that every track numbered 1 is of type `MODE2/2352`; a sheet
    /// where one is not is rejected with a type error.
    pub fn validate_mode2(&self) -> (r: Result<(), CueError>)
        ensures
            r == if first_tracks_are_mode2(self@) {
                Ok::<(), CueError>(())
            } else {
                Err(CueError::Type)
            },
    {
        let n = self.files.len();
        let mut i: usize = 0;
        while i < n
            invariant
                i <= n,
                n == self.files.len(),
                first_tracks_are_mode2(self@.take(i as int)),
            decreases n - i,
        {
            let tracks = &self.files[i].tracks;
            let m = tracks.len();
            let mut j: usize = 0;
            while j < m
                invariant
                    i < n,
                    n == self.files.len(),
                    j <= m,
                    m == tracks.len(),
                    tracks@ == self@[i as int].tracks,
                    forall|k: int|
                        0 <= k < j && (#[trigger] tracks[k]).number == 1 ==> tracks[k].track_type
                            == TrackType::Mode2_2352,
                decreases m - j,
            {
                if tracks[j].number == 1 && tracks[j].track_type != TrackType::Mode2_2352 {
                    assert(self@[i as int].tracks[j as int] == tracks[j as int]);
                    return Err(CueError::Type);
                }
                j += 1;
            }
            i += 1;
        }
        assert(self@.take(n as int) =~= self@);
        Ok(())
    }
}

/// The tracks of a sheet whose last file is left out of the files but named
/// apart: those of the files, then the first tracks of that file.
proof fn lemma_all_tracks_take(files: Seq<FileView>, i: int)
    requires
        0 <= i < files.len(),
    ensures
        all_tracks(files.take(i + 1)) == all_tracks(files.take(i)) + files[i].tracks,
{
    assert(files.take(i + 1).drop_last() =~= files.take(i));
}

/// The tracks of the first `k` files are no more than the tracks of all.
proof fn lemma_total_tracks_prefix(files: Seq<FileView>, k: int)
    requires
        0 <= k <= files.len(),
    ensures
        total_tracks(files.take(k)) <= total_tracks(files),
    decreases files.len(),
{
    if k == files.len() {
        assert(files.take(k) =~= files);
    } else {
        assert(files.take(k) =~= files.drop_last().take(k));
        lemma_total_tracks_prefix(files.drop_last(), k);
    }
}

} // verus!
