//! Index positions of the tracks of a merged stream.
//!
//! When the files of a sheet are concatenated, the index positions that the
//! sheet declared per file mean nothing any more. They are rewritten from the
//! number of sectors that precede each track in the merged stream.

use crate::cue::{every_file_has_track, CueSheet, FileView, Track};
use crate::msf::{lemma_lba_round_trip, lemma_of_lba_congruent, Msf, LBA_LIMIT};
use vstd::arithmetic::div_mod::{lemma_add_mod_noop, lemma_mod_twice, lemma_small_mod};
use vstd::prelude::*;

verus! {

/// The sectors of a two-second pregap.
pub const PREGAP_SECTORS: u32 = 150;

/// The sectors of the merged stream that precede the first track of file
/// `i`. Each track counts the physical sectors of the whole file it is in.
pub open spec fn sectors_before_file(files: Seq<FileView>, i: int) -> nat
    decreases i,
{
    if i <= 0 {
        0
    } else {
        sectors_before_file(files, i - 1) + files[i - 1].tracks.len() * files[i
            - 1].physical_sectors()
    }
}

/// The sectors of the merged stream that precede track `j` of file `i`.
pub open spec fn sectors_before(files: Seq<FileView>, i: int, j: int) -> nat {
    (sectors_before_file(files, i) + j * files[i].physical_sectors()) as nat
}

/// A track with its index positions in the merged stream, `accumulated`
/// sectors after its start.
///
/// Track 1 starts the disc with a two-second pregap. A later track that
/// declared a pregap is moved by two pregap lengths and keeps a pregap of
/// that length; a later track without one is moved by a single pregap length
/// and gets an empty pregap.
pub open spec fn recalculated_track(t: Track, accumulated: nat) -> Track {
    if t.number == 1 {
        Track { index00_msf: Some(Msf::of_lba(0)), index01_msf: Msf::of_lba(150), ..t }
    } else if t.index00_msf.is_some() {
        Track {
            index00_msf: Some(Msf::of_lba(accumulated + 300)),
            index01_msf: Msf::of_lba(accumulated + 450),
            ..t
        }
    } else {
        Track {
            index00_msf: Some(Msf::of_lba(accumulated + 150)),
            index01_msf: Msf::of_lba(accumulated + 150),
            ..t
        }
    }
}

/// File `i` with the index positions of its tracks in the merged stream.
pub open spec fn recalculated_file(files: Seq<FileView>, i: int) -> FileView {
    FileView {
        tracks: Seq::new(
            files[i].tracks.len(),
            |j: int| recalculated_track(files[i].tracks[j], sectors_before(files, i, j)),
        ),
        ..files[i]
    }
}

/// The sheet with the index positions of every track in the merged stream.
pub open spec fn recalculated(files: Seq<FileView>) -> Seq<FileView> {
    Seq::new(files.len(), |i: int| recalculated_file(files, i))
}

/// In the merged stream a track numbered other than 1 stands after the
/// sectors that precede it: without a declared pregap both its positions lie
/// one pregap length further, with one its index 00 lies two pregap lengths
/// further and its index 01 one more. This holds wherever the positions are
/// within the addressable range.
pub proof fn lemma_recalculated_positions(files: Seq<FileView>, i: int, j: int)
    requires
        0 <= i < files.len(),
        0 <= j < files[i].tracks.len(),
        files[i].tracks[j].number != 1,
        sectors_before(files, i, j) + 450 < LBA_LIMIT,
    ensures
        recalculated(files)[i].tracks[j].index00_msf is Some,
        files[i].tracks[j].index00_msf is None ==> {
            &&& recalculated(files)[i].tracks[j].index00_msf == Some(
                recalculated(files)[i].tracks[j].index01_msf,
            )
            &&& recalculated(files)[i].tracks[j].index01_msf.lba() == sectors_before(files, i, j)
                + 150
        },
        files[i].tracks[j].index00_msf is Some ==> {
            &&& recalculated(files)[i].tracks[j].index00_msf->0.lba() == sectors_before(files, i, j)
                + 150 + 150
            &&& recalculated(files)[i].tracks[j].index01_msf.lba() == recalculated(
                files,
            )[i].tracks[j].index00_msf->0.lba() + 150
        },
{
    let before = sectors_before(files, i, j);
    lemma_lba_round_trip(before + 150);
    lemma_lba_round_trip(before + 300);
    lemma_lba_round_trip(before + 450);
}

/// Where the first file holds a single track, the first track of the second
/// file is preceded by the physical sectors of the first file.
pub proof fn lemma_sectors_before_second_file(files: Seq<FileView>)
    requires
        files.len() >= 2,
        files[0].tracks.len() == 1,
    ensures
        sectors_before(files, 1, 0) == files[0].physical_sectors(),
{
    assert(sectors_before_file(files, 0) == 0);
    assert(sectors_before_file(files, 1) == sectors_before_file(files, 0) + files[0].tracks.len()
        * files[0].physical_sectors());
}

/// A track numbered 1 gets index 00 at `00:00:00` and index 01 at
/// `00:02:00`, wherever it stands.
pub proof fn lemma_recalculated_track_one(t: Track, accumulated: nat)
    requires
        t.number == 1,
    ensures
        recalculated_track(t, accumulated).index00_msf == Some(
            Msf { minutes: 0, seconds: 0, frames: 0 },
        ),
        recalculated_track(t, accumulated).index01_msf == (Msf { minutes: 0, seconds: 2, frames: 0 }),
{
}

/// Rewrites one track from the sectors that precede it, given modulo the
/// addressable range.
fn recalculate_track(t: Track, accumulated: u64, Ghost(exact): Ghost<nat>) -> (r: Track)
    requires
        accumulated == exact % (LBA_LIMIT as nat),
    ensures
        r == recalculated_track(t, exact),
{
    proof {
        lemma_small_mod(150, LBA_LIMIT as nat);
        lemma_small_mod(300, LBA_LIMIT as nat);
        lemma_small_mod(450, LBA_LIMIT as nat);
        lemma_add_mod_noop(exact as int, 150, LBA_LIMIT as int);
        lemma_add_mod_noop(exact as int, 300, LBA_LIMIT as int);
        lemma_add_mod_noop(exact as int, 450, LBA_LIMIT as int);
        lemma_add_mod_noop(accumulated as int, 150, LBA_LIMIT as int);
        lemma_add_mod_noop(accumulated as int, 300, LBA_LIMIT as int);
        lemma_add_mod_noop(accumulated as int, 450, LBA_LIMIT as int);
        lemma_mod_twice(exact as int, LBA_LIMIT as int);
        lemma_of_lba_congruent((accumulated + 150) as nat, exact + 150);
        lemma_of_lba_congruent((accumulated + 300) as nat, exact + 300);
        lemma_of_lba_congruent((accumulated + 450) as nat, exact + 450);
    }
    if t.number == 1 {
        Track {
            number: t.number,
            track_type: t.track_type,
            index00_msf: Some(Msf::from_sectors(0)),
            index01_msf: Msf::from_sectors(PREGAP_SECTORS),
        }
    } else if t.index00_msf.is_some() {
        let index00: u64 = accumulated + 2 * (PREGAP_SECTORS as u64);
        Track {
            number: t.number,
            track_type: t.track_type,
            index00_msf: Some(Msf::from_lba(index00)),
            index01_msf: Msf::from_lba(index00 + PREGAP_SECTORS as u64),
        }
    } else {
        let adjusted: u64 = accumulated + PREGAP_SECTORS as u64;
        Track {
            number: t.number,
            track_type: t.track_type,
            index00_msf: Some(Msf::from_lba(adjusted)),
            index01_msf: Msf::from_lba(adjusted),
        }
    }
}

impl CueSheet {
    /// Whether every file holds at least one track.
    pub fn every_file_has_track(&self) -> (b: bool)
        ensures
            b == every_file_has_track(self@),
    {
        let n = self.files.len();
        let mut i: usize = 0;
        while i < n
            invariant
                i <= n,
                n == self.files.len(),
                forall|k: int| 0 <= k < i ==> (#[trigger] self@[k]).tracks.len() > 0,
            decreases n - i,
        {
            if self.files[i].tracks.len() == 0 {
                assert(self@[i as int].tracks.len() == 0);
                return false;
            }
            i += 1;
        }
        true
    }

    /// Rewrites the index positions of every track for the merged stream of
    /// all files. Nothing else of the sheet changes.
    pub fn recalculate_msf_for_combined(&mut self)
        requires
            every_file_has_track(old(self)@),
        ensures
            final(self)@ == recalculated(old(self)@),
    {
        let ghost before = self@;
        let n = self.files.len();
        let mut accumulated: u64 = 0;
        let mut i: usize = 0;
        while i < n
            invariant
                i <= n,
                n == self.files.len(),
                before.len() == n,
                every_file_has_track(before),
                accumulated == sectors_before_file(before, i as int) % (LBA_LIMIT as nat),
                forall|k: int| 0 <= k < i ==> #[trigger] self@[k] == recalculated_file(before, k),
                forall|k: int| i <= k < n ==> #[trigger] self@[k] == before[k],
            decreases n - i,
        {
            assert(self@[i as int] == before[i as int]);
            assert(before[i as int].tracks.len() > 0);
            let sector_size = self.files[i].tracks[0].sector_size() as u64;
            let physical: u64 = self.files[i].file_size / sector_size;
            let step: u64 = physical % (LBA_LIMIT as u64);
            let m = self.files[i].tracks.len();
            let ghost base = sectors_before_file(before, i as int);
            assert(physical == before[i as int].physical_sectors());
            let mut j: usize = 0;
            while j < m
                invariant
                    i < n,
                    j <= m,
                    n == self.files.len(),
                    before.len() == n,
                    m == before[i as int].tracks.len(),
                    base == sectors_before_file(before, i as int),
                    physical == before[i as int].physical_sectors(),
                    step == physical % (LBA_LIMIT as u64),
                    accumulated == sectors_before(before, i as int, j as int) % (LBA_LIMIT as nat),
                    forall|k: int| 0 <= k < i ==> #[trigger] self@[k] == recalculated_file(before, k),
                    forall|k: int| i < k < n ==> #[trigger] self@[k] == before[k],
                    self@[i as int].filename == before[i as int].filename,
                    self@[i as int].file_type == before[i as int].file_type,
                    self@[i as int].file_size == before[i as int].file_size,
                    self@[i as int].tracks.len() == m,
                    forall|k: int|
                        0 <= k < j ==> #[trigger] self@[i as int].tracks[k] == recalculated_track(
                            before[i as int].tracks[k],
                            sectors_before(before, i as int, k),
                        ),
                    forall|k: int|
                        j <= k < m ==> #[trigger] self@[i as int].tracks[k] == before[i as int].tracks[k],
                decreases m - j,
            {
                let ghost prev = self@;
                let ghost exact = sectors_before(before, i as int, j as int);
                let t = self.files[i].tracks[j];
                assert(t == before[i as int].tracks[j as int]);
                let r = recalculate_track(t, accumulated, Ghost(exact));
                self.files[i].tracks[j] = r;
                assert(forall|k: int| 0 <= k < n && k != i ==> #[trigger] self@[k] == prev[k]);
                assert(self@[i as int].tracks == prev[i as int].tracks.update(j as int, r));
                proof {
                    assert(sectors_before(before, i as int, j + 1) == exact + physical)
                        by (nonlinear_arith)
                        requires
                            exact == base + j * physical,
                            sectors_before(before, i as int, j + 1) == base + (j + 1) * physical,
                    ;
                    lemma_add_mod_noop(exact as int, physical as int, LBA_LIMIT as int);
                }
                accumulated = (accumulated + step) % (LBA_LIMIT as u64);
                j += 1;
            }
            assert(self@[i as int].tracks =~= recalculated_file(before, i as int).tracks);
            assert(sectors_before_file(before, i + 1) == sectors_before(before, i as int, m as int))
                by (nonlinear_arith)
                requires
                    sectors_before_file(before, i + 1) == base + m * physical,
                    sectors_before(before, i as int, m as int) == base + m * physical,
            ;
            i += 1;
        }
        assert(self@ =~= recalculated(before));
    }
}

} // verus!
