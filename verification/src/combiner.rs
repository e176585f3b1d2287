//! Recombination of the BIN files of a sheet into one stream.
//!
//! The library decides which bytes of which file go into the stream, in
//! which order, and what becomes of the index positions of the sheet. The
//! caller, who knows the length of each file, does the copying.

use crate::cue::{every_file_has_track, total_tracks, CueSheet, FileView, Track};
use crate::msf::Msf;
use crate::pregap::{recalculated, PREGAP_SECTORS};
use vstd::prelude::*;

verus! {

/// The most bytes to move in one transfer.
pub const BUFFER_SIZE: usize = 1024 * 1024;

/// What a recombination produced.
#[derive(Debug, Clone, Copy, PartialEq, Eq, Structural)]
pub struct CombinedBinInfo {
    pub total_bytes: u64,
    pub track_count: usize,
}

/// A run of bytes of one file that goes into the combined stream.
#[derive(Debug, Clone, Copy, PartialEq, Eq, Structural)]
pub struct CopyRange {
    /// The place of the file among the files of the sheet.
    pub file_index: usize,
    /// Where the run starts in the file.
    pub start: u64,
    /// How many bytes it holds.
    pub len: u64,
}

/// Decides how the BIN files of a sheet are combined.
pub struct BinCombiner;

/// The byte at which a track starts in a file that holds every track.
pub open spec fn track_start(t: Track) -> nat {
    t.index01_msf.lba() * t.track_type.size()
}

/// The bytes that a file of `size` bytes has from `start` up to `end`. A
/// range that reaches past the end of the file is cut there; a range that
/// ends before it starts is empty.
pub open spec fn clamped_len(start: nat, end: nat, size: nat) -> nat {
    let stop = if end < size {
        end
    } else {
        size
    };
    if start < stop {
        (stop - start) as nat
    } else {
        0
    }
}

/// The bytes of track `j` in a single file of `size` bytes: from the start
/// of the track to the start of the next one, or to the end of the file.
pub open spec fn track_range(tracks: Seq<Track>, j: int, size: u64) -> CopyRange {
    let start = track_start(tracks[j]);
    let end = if j + 1 < tracks.len() {
        track_start(tracks[j + 1])
    } else {
        size as nat
    };
    CopyRange { file_index: 0, start: start as u64, len: clamped_len(start, end, size as nat) as u64 }
}

/// The runs of bytes that make the combined stream, in order. `sizes` holds
/// the length of each file.
///
/// A single file with a single track is taken whole. Of several files each
/// is taken whole. Of a single file with several tracks each track is taken
/// by its range.
pub open spec fn plan(files: Seq<FileView>, sizes: Seq<u64>) -> Seq<CopyRange> {
    if files.len() == 1 && files[0].tracks.len() == 1 {
        seq![CopyRange { file_index: 0, start: 0, len: sizes[0] }]
    } else if files.len() > 1 {
        Seq::new(files.len(), |i: int| CopyRange { file_index: i as usize, start: 0, len: sizes[i] })
    } else if files.len() == 1 {
        Seq::new(files[0].tracks.len(), |j: int| track_range(files[0].tracks, j, sizes[0]))
    } else {
        Seq::empty()
    }
}

/// The bytes of all runs together.
pub open spec fn total_len(ranges: Seq<CopyRange>) -> nat
    decreases ranges.len(),
{
    if ranges.len() == 0 {
        0
    } else {
        total_len(ranges.drop_last()) + ranges.last().len as nat
    }
}

/// A track that starts the disc with a two-second pregap.
pub open spec fn with_first_pregap(t: Track) -> Track {
    Track { index00_msf: Some(Msf::of_lba(0)), index01_msf: Msf::of_lba(150), ..t }
}

/// The sheet after recombination.
///
/// The only track of a single file gets the two-second pregap of a first
/// track, whatever the sheet declared. The tracks of several files get their
/// positions in the merged stream. A single file with several tracks keeps
/// its positions.
pub open spec fn combined(files: Seq<FileView>) -> Seq<FileView> {
    if files.len() == 1 && files[0].tracks.len() == 1 {
        seq![FileView { tracks: seq![with_first_pregap(files[0].tracks[0])], ..files[0] }]
    } else if files.len() > 1 {
        recalculated(files)
    } else {
        files
    }
}

/// Whether a sheet and the lengths of its files can be combined: there is
/// one length for each file, the tracks can be counted, the stream can be
/// measured, and of several files each one holds a track.
pub open spec fn combinable(files: Seq<FileView>, sizes: Seq<u64>) -> bool {
    &&& sizes.len() == files.len()
    &&& total_tracks(files) <= usize::MAX
    &&& total_len(plan(files, sizes)) <= u64::MAX
    &&& files.len() > 1 ==> every_file_has_track(files)
}

/// A single file with a single track has, after recombination, index 00 at
/// `00:00:00` and index 01 at `00:02:00`, whatever it declared before.
pub proof fn lemma_single_track_pregap(files: Seq<FileView>)
    requires
        files.len() == 1,
        files[0].tracks.len() == 1,
    ensures
        combined(files).len() == 1,
        combined(files)[0].tracks.len() == 1,
        combined(files)[0].tracks[0].index00_msf == Some(Msf { minutes: 0, seconds: 0, frames: 0 }),
        combined(files)[0].tracks[0].index01_msf == (Msf { minutes: 0, seconds: 2, frames: 0 }),
        combined(files)[0].tracks[0].number == files[0].tracks[0].number,
        combined(files)[0].tracks[0].track_type == files[0].tracks[0].track_type,
{
}

/// The runs of the first `k` elements hold no more than all of them.
proof fn lemma_total_len_prefix(ranges: Seq<CopyRange>, k: int)
    requires
        0 <= k <= ranges.len(),
    ensures
        total_len(ranges.take(k)) <= total_len(ranges),
    decreases ranges.len(),
{
    if k == ranges.len() {
        assert(ranges.take(k) =~= ranges);
    } else {
        assert(ranges.take(k) =~= ranges.drop_last().take(k));
        lemma_total_len_prefix(ranges.drop_last(), k);
    }
}

impl BinCombiner {
    /// The byte at which a track starts in a file that holds every track.
    pub fn start_of(t: &Track) -> (start: u64)
        ensures
            start == track_start(*t),
    {
        let sectors = t.index01_msf.to_sectors() as u64;
        let size = t.sector_size() as u64;
        assert(sectors * size <= 1_166_880 * 2352) by (nonlinear_arith)
            requires
                sectors <= 1_166_880,
                size <= 2352,
        ;
        sectors * size
    }

    /// The bytes that a file of `size` bytes has from `start` up to `end`.
    pub fn clamp(start: u64, end: u64, size: u64) -> (len: u64)
        ensures
            len == clamped_len(start as nat, end as nat, size as nat),
    {
        let stop = if end < size {
            end
        } else {
            size
        };
        if start < stop {
            stop - start
        } else {
            0
        }
    }

    /// The bytes to move in the next transfer when `remaining` are left.
    pub fn next_chunk(remaining: u64) -> (n: usize)
        ensures
            n == if remaining < BUFFER_SIZE {
                remaining as int
            } else {
                BUFFER_SIZE as int
            },
    {
        if remaining < BUFFER_SIZE as u64 {
            remaining as usize
        } else {
            BUFFER_SIZE
        }
    }

    /// The runs of bytes that make the combined stream, in order.
    pub fn plan(cue_sheet: &CueSheet, sizes: &Vec<u64>) -> (ranges: Vec<CopyRange>)
        requires
            sizes.len() == cue_sheet.files.len(),
        ensures
            ranges@ == plan(cue_sheet@, sizes@),
    {
        let n = cue_sheet.files.len();
        let mut ranges: Vec<CopyRange> = Vec::new();
        if n == 1 && cue_sheet.files[0].tracks.len() == 1 {
            ranges.push(CopyRange { file_index: 0, start: 0, len: sizes[0] });
            assert(ranges@ =~= plan(cue_sheet@, sizes@));
        } else if n > 1 {
            let mut i: usize = 0;
            while i < n
                invariant
                    i <= n,
                    n == sizes.len(),
                    ranges@ == Seq::new(
                        i as nat,
                        |k: int| CopyRange { file_index: k as usize, start: 0, len: sizes[k] },
                    ),
                decreases n - i,
            {
                ranges.push(CopyRange { file_index: i, start: 0, len: sizes[i] });
                assert(ranges@ =~= Seq::new(
                    (i + 1) as nat,
                    |k: int| CopyRange { file_index: k as usize, start: 0, len: sizes[k] },
                ));
                i += 1;
            }
            assert(ranges@ =~= plan(cue_sheet@, sizes@));
        } else if n == 1 {
            let tracks = &cue_sheet.files[0].tracks;
            let size = sizes[0];
            let m = tracks.len();
            let mut j: usize = 0;
            while j < m
                invariant
                    j <= m,
                    m == tracks.len(),
                    ranges@ == Seq::new(j as nat, |k: int| track_range(tracks@, k, size)),
                decreases m - j,
            {
                let start = BinCombiner::start_of(&tracks[j]);
                let end = if j + 1 < m {
                    BinCombiner::start_of(&tracks[j + 1])
                } else {
                    size
                };
                let len = BinCombiner::clamp(start, end, size);
                ranges.push(CopyRange { file_index: 0, start, len });
                assert(ranges@ =~= Seq::new(
                    (j + 1) as nat,
                    |k: int| track_range(tracks@, k, size),
                ));
                j += 1;
            }
            assert(tracks@ == cue_sheet@[0].tracks);
            assert(ranges@ =~= plan(cue_sheet@, sizes@));
        } else {
            assert(ranges@ =~= plan(cue_sheet@, sizes@));
        }
        ranges
    }

    /// The bytes of all runs together, when they fit a `u64`.
    pub fn total_bytes(ranges: &Vec<CopyRange>) -> (r: Option<u64>)
        ensures
            r == if total_len(ranges@) <= u64::MAX {
                Some(total_len(ranges@) as u64)
            } else {
                None
            },
    {
        let n = ranges.len();
        let mut total: u64 = 0;
        let mut i: usize = 0;
        while i < n
            invariant
                i <= n,
                n == ranges.len(),
                total == total_len(ranges@.take(i as int)),
            decreases n - i,
        {
            let len = ranges[i].len;
            assert(ranges@.take(i + 1).drop_last() =~= ranges@.take(i as int));
            if len > u64::MAX - total {
                proof {
                    lemma_total_len_prefix(ranges@, i + 1);
                }
                return None;
            }
            total = total + len;
            i += 1;
        }
        assert(ranges@.take(n as int) =~= ranges@);
        Some(total)
    }

    /// Whether a sheet and the lengths of its files can be combined.
    pub fn can_combine(cue_sheet: &CueSheet, sizes: &Vec<u64>) -> (b: bool)
        ensures
            b == combinable(cue_sheet@, sizes@),
    {
        if sizes.len() != cue_sheet.files.len() {
            return false;
        }
        if cue_sheet.checked_total_tracks().is_none() {
            return false;
        }
        let ranges = BinCombiner::plan(cue_sheet, sizes);
        if BinCombiner::total_bytes(&ranges).is_none() {
            return false;
        }
        cue_sheet.files.len() <= 1 || cue_sheet.every_file_has_track()
    }

    /// Gives the only track of a single file the two-second pregap of a
    /// first track and reports the file as the whole stream.
    pub fn handle_single_file(cue_sheet: &mut CueSheet, size: u64) -> (info: CombinedBinInfo)
        requires
            old(cue_sheet)@.len() == 1,
            old(cue_sheet)@[0].tracks.len() == 1,
        ensures
            final(cue_sheet)@ == combined(old(cue_sheet)@),
            info == (CombinedBinInfo { total_bytes: size, track_count: 1 }),
    {
        let ghost before = cue_sheet@;
        cue_sheet.files[0].tracks[0].index00_msf = Some(Msf::from_sectors(0));
        cue_sheet.files[0].tracks[0].index01_msf = Msf::from_sectors(PREGAP_SECTORS);
        assert(cue_sheet@[0].tracks =~= seq![with_first_pregap(before[0].tracks[0])]);
        assert(cue_sheet@ =~= combined(before));
        CombinedBinInfo { total_bytes: size, track_count: 1 }
    }

    /// Combines the files of a sheet: decides the runs of bytes that make
    /// the stream, rewrites the index positions of the sheet for it, and
    /// reports the length of the stream and the number of tracks.
    pub fn combine(cue_sheet: &mut CueSheet, sizes: &Vec<u64>) -> (r: (Vec<CopyRange>, CombinedBinInfo))
        requires
            combinable(old(cue_sheet)@, sizes@),
        ensures
            r.0@ == plan(old(cue_sheet)@, sizes@),
            r.1.total_bytes == total_len(r.0@),
            r.1.track_count == total_tracks(old(cue_sheet)@),
            final(cue_sheet)@ == combined(old(cue_sheet)@),
    {
        let ranges = BinCombiner::plan(cue_sheet, sizes);
        let track_count = cue_sheet.get_total_tracks();
        let n = cue_sheet.files.len();
        if n == 1 && track_count == 1 {
            assert(cue_sheet@.drop_last() =~= Seq::<FileView>::empty());
            assert(total_tracks(cue_sheet@.drop_last()) == 0);
            assert(ranges@.drop_last() =~= Seq::<CopyRange>::empty());
            assert(total_len(ranges@.drop_last()) == 0);
            let info = BinCombiner::handle_single_file(cue_sheet, sizes[0]);
            return (ranges, info);
        }
        let total_bytes = match BinCombiner::total_bytes(&ranges) {
            Some(total) => total,
            None => 0,
        };
        if n > 1 {
            cue_sheet.recalculate_msf_for_combined();
        } else if n == 1 {
            assert(cue_sheet@.drop_last() =~= Seq::<FileView>::empty());
            assert(total_tracks(cue_sheet@.drop_last()) == 0);
        }
        (ranges, CombinedBinInfo { total_bytes, track_count })
    }
}

} // verus!
