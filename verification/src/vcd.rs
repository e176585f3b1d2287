//! The table-of-contents header of a VCD image.
//!
//! The header is one mebibyte long. It holds three disc descriptors, a table
//! with one ten-byte record per track, a four-byte signature and the number
//! of sectors of the data that follows, twice. Every other byte is zero.

use crate::cue::{all_tracks, last_track, lemma_all_tracks_len, total_tracks, CueSheet, FileView, Track};
use crate::msf::{bcd_byte, to_bcd_byte, Msf};
use vstd::prelude::*;

verus! {

/// Bytes in a sector of the combined stream.
pub const SECTOR_SIZE: u64 = 2352;

/// Bytes in the header.
pub const VCD_HEADER_SIZE: usize = 0x100000;

/// Where the track table starts.
pub const TRACK_TABLE_OFFSET: usize = 30;

/// Bytes in one record of the track table.
pub const TRACK_ENTRY_SIZE: usize = 10;

/// The most tracks whose records fit the header.
pub const MAX_TRACKS: usize = 104854;

/// The type byte of audio.
pub const KIND_AUDIO: u8 = 0x01;

/// The type byte of data.
pub const KIND_DATA: u8 = 0x41;

/// The sectors of a combined stream of `bin_size` bytes, as the four-byte
/// field holds them: whole sectors, modulo 2^32.
pub open spec fn total_sectors(bin_size: u64) -> u32 {
    ((bin_size / 2352) % 0x1_0000_0000) as u32
}

/// Byte `k` of a number in little-endian order.
pub open spec fn le_byte(x: u32, k: int) -> u8 {
    if k == 0 {
        (x % 256) as u8
    } else if k == 1 {
        ((x / 0x100) % 256) as u8
    } else if k == 2 {
        ((x / 0x1_0000) % 256) as u8
    } else {
        ((x / 0x100_0000) % 256) as u8
    }
}

/// The four bytes by which readers recognise the header.
pub open spec fn signature() -> Seq<u8> {
    seq![0x6Bu8, 0x48u8, 0x6Eu8, 0x20u8]
}

/// The type byte of a track.
pub open spec fn kind_byte(t: Track) -> u8 {
    if t.track_type.audio() {
        KIND_AUDIO
    } else {
        KIND_DATA
    }
}

/// The content type of the disc: that of its last track, data when there is
/// none.
pub open spec fn content_type(files: Seq<FileView>) -> u8 {
    match last_track(files) {
        Some(t) => kind_byte(t),
        None => KIND_DATA,
    }
}

/// A position of track `t` as the table holds it: moved by the gap
/// adjustment, unless the track is numbered 1 or below.
pub open spec fn adjusted(t: Track, gap: int, m: Msf) -> Msf {
    if t.number > 1 && gap != 0 {
        m.shifted(gap)
    } else {
        m
    }
}

/// The ten bytes of the record of a track.
pub open spec fn track_entry(t: Track, gap: int) -> Seq<u8> {
    let index00 = adjusted(t, gap, t.pregap_start()).bcd();
    let index01 = adjusted(t, gap, t.index01_msf).bcd();
    seq![
        kind_byte(t),
        0u8,
        bcd_byte(t.number as nat),
        index00[0],
        index00[1],
        index00[2],
        0u8,
        index01[0],
        index01[1],
        index01[2],
    ]
}

/// Byte `i` of the three descriptors, which fill the first thirty bytes.
pub open spec fn descriptor_byte(files: Seq<FileView>, total: u32, i: int) -> u8 {
    if i == 0 {
        KIND_DATA
    } else if i == 2 {
        0xA0
    } else if i == 7 {
        0x01
    } else if i == 8 {
        0x20
    } else if i == 10 || i == 20 {
        content_type(files)
    } else if i == 12 {
        0xA1
    } else if i == 17 {
        bcd_byte(total_tracks(files))
    } else if i == 22 {
        0xA2
    } else if 27 <= i < 30 {
        Msf::of_lba((total + 150) as nat).bcd()[i - 27]
    } else {
        0
    }
}

/// Byte `i` of the header. Where the track table reaches the signature or
/// the sector totals, those stand.
pub open spec fn header_byte(files: Seq<FileView>, gap: int, bin_size: u64, i: int) -> u8 {
    let total = total_sectors(bin_size);
    let tracks = all_tracks(files);
    if 1024 <= i < 1028 {
        signature()[i - 1024]
    } else if 1032 <= i < 1036 {
        le_byte(total, i - 1032)
    } else if 1036 <= i < 1040 {
        le_byte(total, i - 1036)
    } else if 0 <= i < 30 {
        descriptor_byte(files, total, i)
    } else if 30 <= i < 30 + 10 * tracks.len() {
        track_entry(tracks[(i - 30) / 10], gap)[(i - 30) % 10]
    } else {
        0
    }
}

/// The header of the image of a sheet and a combined stream of `bin_size`
/// bytes.
pub open spec fn vcd_header(files: Seq<FileView>, gap: int, bin_size: u64) -> Seq<u8> {
    Seq::new(VCD_HEADER_SIZE as nat, |i: int| header_byte(files, gap, bin_size, i))
}

/// A buffer in which the records of the first `count` tracks are written
/// over `before`. The second and seventh byte of a record are not written.
pub open spec fn with_entries(before: Seq<u8>, tracks: Seq<Track>, gap: int, count: int) -> Seq<u8> {
    Seq::new(
        before.len(),
        |i: int|
            if 30 <= i < 30 + 10 * count && (i - 30) % 10 != 1 && (i - 30) % 10 != 6 {
                track_entry(tracks[(i - 30) / 10], gap)[(i - 30) % 10]
            } else {
                before[i]
            },
    )
}

/// The four bytes of a number in little-endian order make the number.
pub proof fn lemma_le_bytes_value(x: u32)
    ensures
        x == le_byte(x, 0) + 0x100 * le_byte(x, 1) + 0x1_0000 * le_byte(x, 2) + 0x100_0000
            * le_byte(x, 3),
{
    assert(x / 0x100_0000 < 256);
}

/// The header holds the sector total in little-endian order at bytes 1032
/// and 1036 alike, and the lead-out, which lies 150 sectors after the last
/// sector, packed at bytes 27 to 29.
pub proof fn lemma_header_totals(files: Seq<FileView>, gap: int, bin_size: u64, k: int)
    requires
        0 <= k < 4,
    ensures
        header_byte(files, gap, bin_size, 1032 + k) == le_byte(total_sectors(bin_size), k),
        header_byte(files, gap, bin_size, 1036 + k) == le_byte(total_sectors(bin_size), k),
        k < 3 ==> header_byte(files, gap, bin_size, 27 + k) == Msf::of_lba(
            (total_sectors(bin_size) + 150) as nat,
        ).bcd()[k],
{
}

/// The gap adjustment leaves the record of a track numbered 1 as it is: each
/// byte of the header that belongs to that record is the same with any
/// adjustment as with none.
pub proof fn lemma_gap_spares_track_one(
    files: Seq<FileView>,
    gap: int,
    bin_size: u64,
    k: int,
    i: int,
)
    requires
        0 <= k < all_tracks(files).len(),
        all_tracks(files)[k].number <= 1,
        30 + 10 * k <= i < 30 + 10 * k + 10,
    ensures
        track_entry(all_tracks(files)[k], gap) == track_entry(all_tracks(files)[k], 0),
        header_byte(files, gap, bin_size, i) == header_byte(files, 0, bin_size, i),
{
    let d = i - (30 + 10 * k);
    assert((i - 30) / 10 == k && (i - 30) % 10 == d) by (nonlinear_arith)
        requires
            i - 30 == 10 * k + d,
            0 <= d < 10,
    ;
}

/// A gap adjustment other than zero moves both positions of a track numbered
/// above 1 by that many seconds, and changes nothing else of its record.
pub proof fn lemma_gap_moves_later_tracks(t: Track, gap: int)
    requires
        t.number > 1,
        gap != 0,
    ensures
        track_entry(t, gap).subrange(3, 6) == t.pregap_start().shifted(gap).bcd(),
        track_entry(t, gap).subrange(7, 10) == t.index01_msf.shifted(gap).bcd(),
        track_entry(t, gap)[0] == track_entry(t, 0)[0],
        track_entry(t, gap)[1] == track_entry(t, 0)[1],
        track_entry(t, gap)[2] == track_entry(t, 0)[2],
        track_entry(t, gap)[6] == track_entry(t, 0)[6],
{
    assert(track_entry(t, gap).subrange(3, 6) =~= t.pregap_start().shifted(gap).bcd());
    assert(track_entry(t, gap).subrange(7, 10) =~= t.index01_msf.shifted(gap).bcd());
}

/// Writing the record of track `k` after those of the tracks before it
/// gives the records of the first `k + 1` tracks.
proof fn lemma_entry_written(
    before: Seq<u8>,
    prev: Seq<u8>,
    next: Seq<u8>,
    tracks: Seq<Track>,
    gap: int,
    k: int,
)
    requires
        0 <= k < tracks.len(),
        30 + 10 * (k + 1) <= before.len(),
        prev == with_entries(before, tracks, gap, k),
        next.len() == prev.len(),
        forall|i: int|
            0 <= i < prev.len() ==> #[trigger] next[i] == if 30 + 10 * k <= i < 30 + 10 * k + 10
                && i - (30 + 10 * k) != 1 && i - (30 + 10 * k) != 6 {
                track_entry(tracks[k], gap)[i - (30 + 10 * k)]
            } else {
                prev[i]
            },
    ensures
        next == with_entries(before, tracks, gap, k + 1),
{
    let goal = with_entries(before, tracks, gap, k + 1);
    assert forall|i: int| 0 <= i < before.len() implies next[i] == goal[i] by {
        if 30 + 10 * k <= i < 30 + 10 * k + 10 {
            let d = i - (30 + 10 * k);
            assert((i - 30) / 10 == k && (i - 30) % 10 == d) by (nonlinear_arith)
                requires
                    i - 30 == 10 * k + d,
                    0 <= d < 10,
            ;
        }
    }
    assert(next =~= goal);
}

/// Writes VCD headers, with a fixed adjustment of the track positions.
pub struct VcdConverter {
    gap_adjustment: i32,
}

impl VcdConverter {
    /// The adjustment of the track positions, in seconds.
    pub closed spec fn gap(&self) -> int {
        self.gap_adjustment as int
    }

    /// A converter that moves the positions of the tracks after the first
    /// by two seconds forwards (`gap_plus`), else two seconds backwards
    /// (`gap_minus`), else not at all.
    pub fn new(gap_plus: bool, gap_minus: bool) -> (c: VcdConverter)
        ensures
            c.gap() == if gap_plus {
                2int
            } else if gap_minus {
                -2int
            } else {
                0int
            },
    {
        let gap_adjustment: i32 = if gap_plus {
            2
        } else if gap_minus {
            -2
        } else {
            0
        };
        VcdConverter { gap_adjustment }
    }

    /// The adjustment of the track positions, in seconds.
    pub fn gap_adjustment(&self) -> (gap: i32)
        ensures
            gap == self.gap(),
    {
        self.gap_adjustment
    }

    /// Writes the descriptor of the first track and the disc type.
    pub fn build_descriptor_a0(&self, header: &mut Vec<u8>)
        requires
            old(header).len() >= 30,
        ensures
            final(header)@ == old(header)@.update(0, KIND_DATA).update(2, 0xA0u8).update(
                7,
                0x01u8,
            ).update(8, 0x20u8),
    {
        header[0] = KIND_DATA;
        header[2] = 0xA0;
        header[7] = 0x01;
        header[8] = 0x20;
    }

    /// Writes the descriptor of the last track: the content type, twice,
    /// and the number of tracks.
    pub fn build_descriptor_a1(&self, header: &mut Vec<u8>, cue_sheet: &CueSheet)
        requires
            old(header).len() >= 30,
            total_tracks(cue_sheet@) <= usize::MAX,
        ensures
            final(header)@ == old(header)@.update(10, content_type(cue_sheet@)).update(
                12,
                0xA1u8,
            ).update(17, bcd_byte(total_tracks(cue_sheet@))).update(20, content_type(cue_sheet@)),
    {
        let track_count = cue_sheet.get_total_tracks();
        let content: u8 = match cue_sheet.get_last_track() {
            Some(t) => if t.is_audio() {
                KIND_AUDIO
            } else {
                KIND_DATA
            },
            None => KIND_DATA,
        };
        let tens: u8 = ((track_count / 10) % 16) as u8;
        let ones: u8 = (track_count % 10) as u8;
        header[10] = content;
        header[12] = 0xA1;
        header[17] = tens * 16 + ones;
        header[20] = content;
    }

    /// Writes the descriptor of the lead-out, which lies two seconds after
    /// the last sector.
    pub fn build_descriptor_a2(&self, header: &mut Vec<u8>, total_sectors: u32)
        requires
            old(header).len() >= 30,
        ensures
            final(header)@ == old(header)@.update(22, 0xA2u8).update(
                27,
                Msf::of_lba((total_sectors + 150) as nat).bcd()[0],
            ).update(28, Msf::of_lba((total_sectors + 150) as nat).bcd()[1]).update(
                29,
                Msf::of_lba((total_sectors + 150) as nat).bcd()[2],
            ),
    {
        header[22] = 0xA2;
        let leadout = Msf::from_lba(total_sectors as u64 + 150).to_bcd();
        header[27] = leadout[0];
        header[28] = leadout[1];
        header[29] = leadout[2];
    }

    /// Writes the record of one track at `offset`.
    fn write_entry(&self, header: &mut Vec<u8>, offset: usize, t: Track)
        requires
            offset + 10 <= old(header).len(),
        ensures
            final(header)@.len() == old(header)@.len(),
            forall|i: int|
                0 <= i < old(header)@.len() ==> #[trigger] final(header)@[i] == if offset <= i
                    < offset + 10 && i - offset != 1 && i - offset != 6 {
                    track_entry(t, self.gap())[i - offset]
                } else {
                    old(header)@[i]
                },
    {
        let adjust = t.number > 1 && self.gap_adjustment != 0;
        let index00: Msf = match t.index00_msf {
            Some(m) => m,
            None => t.index01_msf,
        };
        let index00 = if adjust {
            index00.add_seconds(self.gap_adjustment)
        } else {
            index00
        };
        let index01 = if adjust {
            t.index01_msf.add_seconds(self.gap_adjustment)
        } else {
            t.index01_msf
        };
        let bcd00 = index00.to_bcd();
        let bcd01 = index01.to_bcd();
        header[offset] = if t.is_audio() {
            KIND_AUDIO
        } else {
            KIND_DATA
        };
        header[offset + 2] = to_bcd_byte(t.number);
        header[offset + 3] = bcd00[0];
        header[offset + 4] = bcd00[1];
        header[offset + 5] = bcd00[2];
        header[offset + 7] = bcd01[0];
        header[offset + 8] = bcd01[1];
        header[offset + 9] = bcd01[2];
    }

    /// Writes the track table: one record per track, in disc order, from
    /// byte 30 on. The positions of the tracks numbered above 1 are moved by
    /// the gap adjustment.
    pub fn write_track_entries(&self, header: &mut Vec<u8>, cue_sheet: &CueSheet)
        requires
            30 + 10 * total_tracks(cue_sheet@) <= old(header).len(),
        ensures
            final(header)@ == with_entries(
                old(header)@,
                all_tracks(cue_sheet@),
                self.gap(),
                total_tracks(cue_sheet@) as int,
            ),
    {
        let tracks = cue_sheet.tracks();
        proof {
            lemma_all_tracks_len(cue_sheet@);
        }
        let n = tracks.len();
        let ghost before = header@;
        let mut offset: usize = TRACK_TABLE_OFFSET;
        let mut k: usize = 0;
        assert(header@ =~= with_entries(before, tracks@, self.gap(), 0));
        while k < n
            invariant
                k <= n,
                n == tracks.len(),
                offset == 30 + 10 * k,
                30 + 10 * n <= before.len(),
                header.len() == before.len(),
                header@ == with_entries(before, tracks@, self.gap(), k as int),
            decreases n - k,
        {
            let ghost prev = header@;
            self.write_entry(header, offset, tracks[k]);
            proof {
                lemma_entry_written(before, prev, header@, tracks@, self.gap(), k as int);
            }
            offset += TRACK_ENTRY_SIZE;
            k += 1;
        }
    }

    /// Writes the sector total, twice, and the signature.
    pub fn write_totals(&self, header: &mut Vec<u8>, total: u32)
        requires
            old(header).len() >= 1040,
        ensures
            final(header)@.len() == old(header)@.len(),
            forall|i: int|
                0 <= i < old(header)@.len() ==> #[trigger] final(header)@[i] == if 1024 <= i
                    < 1028 {
                    signature()[i - 1024]
                } else if 1032 <= i < 1036 {
                    le_byte(total, i - 1032)
                } else if 1036 <= i < 1040 {
                    le_byte(total, i - 1036)
                } else {
                    old(header)@[i]
                },
    {
        let b0: u8 = (total % 256) as u8;
        let b1: u8 = ((total / 0x100) % 256) as u8;
        let b2: u8 = ((total / 0x1_0000) % 256) as u8;
        let b3: u8 = ((total / 0x100_0000) % 256) as u8;
        header[1032] = b0;
        header[1033] = b1;
        header[1034] = b2;
        header[1035] = b3;
        header[1036] = b0;
        header[1037] = b1;
        header[1038] = b2;
        header[1039] = b3;
        header[1024] = 0x6B;
        header[1025] = 0x48;
        header[1026] = 0x6E;
        header[1027] = 0x20;
    }

    /// Writes the three descriptors into a buffer of zeros.
    fn write_descriptors(&self, header: &mut Vec<u8>, cue_sheet: &CueSheet, total: u32)
        requires
            old(header).len() >= 30,
            total_tracks(cue_sheet@) <= usize::MAX,
            forall|i: int| 0 <= i < 30 ==> old(header)@[i] == 0u8,
        ensures
            final(header)@.len() == old(header)@.len(),
            forall|i: int|
                0 <= i < old(header)@.len() ==> #[trigger] final(header)@[i] == if i < 30 {
                    descriptor_byte(cue_sheet@, total, i)
                } else {
                    old(header)@[i]
                },
    {
        self.build_descriptor_a0(header);
        self.build_descriptor_a1(header, cue_sheet);
        self.build_descriptor_a2(header, total);
    }

    /// Builds the header for a sheet and a combined stream of `bin_size`
    /// bytes.
    pub fn create_vcd_header(&self, bin_size: u64, cue_sheet: &CueSheet) -> (header: Vec<u8>)
        requires
            total_tracks(cue_sheet@) <= MAX_TRACKS,
        ensures
            header@ == vcd_header(cue_sheet@, self.gap(), bin_size),
    {
        let mut header: Vec<u8> = vec![0u8; VCD_HEADER_SIZE];
        let ghost zeros = header@;
        let total: u32 = ((bin_size / SECTOR_SIZE) % 0x1_0000_0000) as u32;
        self.write_descriptors(&mut header, cue_sheet, total);
        let ghost described = header@;
        self.write_track_entries(&mut header, cue_sheet);
        let ghost tabled = header@;
        self.write_totals(&mut header, total);
        proof {
            lemma_all_tracks_len(cue_sheet@);
            assert forall|i: int| 0 <= i < VCD_HEADER_SIZE implies #[trigger] header@[i]
                == header_byte(cue_sheet@, self.gap(), bin_size, i) by {
                assert(zeros[i] == 0u8);
                assert(described[i] == if i < 30 {
                    descriptor_byte(cue_sheet@, total, i)
                } else {
                    zeros[i]
                });
                assert(tabled[i] == with_entries(
                    described,
                    all_tracks(cue_sheet@),
                    self.gap(),
                    total_tracks(cue_sheet@) as int,
                )[i]);
            }
            assert(header@ =~= vcd_header(cue_sheet@, self.gap(), bin_size));
        }
        header
    }
}

} // verus!
