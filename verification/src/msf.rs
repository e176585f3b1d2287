//! Minutes:Seconds:Frames timestamps and their linear sector addresses.
//!
//! A second holds 75 frames and a minute 60 seconds, so a minute spans 4500
//! sectors. All three components are bytes; minutes wrap at 256.

use crate::error::CueError;
use crate::text::{chars_of, copy_range, decimal_u8, find_char, parse_u8, scan_char};
use vstd::prelude::*;

verus! {

/// One more than the largest sector address whose minutes fit a byte.
pub const LBA_LIMIT: u32 = 1_152_000;

/// A disc position as minutes, seconds and frames.
#[derive(Debug, Clone, Copy, PartialEq, Eq, Structural)]
pub struct Msf {
    pub minutes: u8,
    pub seconds: u8,
    pub frames: u8,
}

/// Packs a number as two decimal digits, tens in the high nibble. The tens
/// digit is kept modulo 16, so values of 160 and above lose their top bits.
pub open spec fn bcd_byte(x: nat) -> u8 {
    (((x / 10) % 16) * 16 + x % 10) as u8
}

impl Msf {
    /// The linear sector address of this position.
    pub open spec fn lba(self) -> nat {
        ((self.minutes as nat * 60) + self.seconds as nat) * 75 + self.frames as nat
    }

    /// The position of a linear sector address; minutes are taken modulo 256.
    pub open spec fn of_lba(lba: nat) -> Msf {
        Msf {
            minutes: ((lba / 4500) % 256) as u8,
            seconds: ((lba / 75) % 60) as u8,
            frames: (lba % 75) as u8,
        }
    }

    /// The position `00:00:00`.
    pub open spec fn zero() -> Msf {
        Msf { minutes: 0, seconds: 0, frames: 0 }
    }

    /// This position moved by a signed number of seconds, clamped at
    /// `00:00:00`.
    pub open spec fn shifted(self, seconds: int) -> Msf {
        let target = self.lba() + seconds * 75;
        if target < 0 {
            Msf::zero()
        } else {
            Msf::of_lba(target as nat)
        }
    }

    /// The three packed bytes: minutes, seconds, frames.
    pub open spec fn bcd(self) -> Seq<u8> {
        seq![
            bcd_byte(self.minutes as nat),
            bcd_byte(self.seconds as nat),
            bcd_byte(self.frames as nat),
        ]
    }

    /// The position written as `MM:SS:FF`: exactly three fields separated by
    /// colons, each a byte in decimal.
    pub open spec fn parse(s: Seq<char>) -> Option<Msf> {
        let first = find_char(s, ':', 0);
        let second = find_char(s, ':', first + 1);
        let third = find_char(s, ':', second + 1);
        if first < s.len() && second < s.len() && third >= s.len() {
            match (
                decimal_u8(s.subrange(0, first)),
                decimal_u8(s.subrange(first + 1, second)),
                decimal_u8(s.subrange(second + 1, s.len() as int)),
            ) {
                (Some(minutes), Some(seconds), Some(frames)) => Some(
                    Msf { minutes, seconds, frames },
                ),
                _ => None,
            }
        } else {
            None
        }
    }

    /// The position with these components, taken as they are.
    pub fn new(minutes: u8, seconds: u8, frames: u8) -> (m: Msf)
        ensures
            m == (Msf { minutes, seconds, frames }),
    {
        Msf { minutes, seconds, frames }
    }

    /// Reads a position from the characters of `MM:SS:FF`.
    pub fn from_chars(v: &Vec<char>) -> (r: Option<Msf>)
        ensures
            r == Msf::parse(v@),
    {
        let first = scan_char(v, ':', 0);
        if first >= v.len() {
            return None;
        }
        let second = scan_char(v, ':', first + 1);
        if second >= v.len() {
            return None;
        }
        let third = scan_char(v, ':', second + 1);
        if third < v.len() {
            return None;
        }
        let minutes = parse_u8(&copy_range(v, 0, first));
        let seconds = parse_u8(&copy_range(v, first + 1, second));
        let frames = parse_u8(&copy_range(v, second + 1, v.len()));
        match (minutes, seconds, frames) {
            (Some(minutes), Some(seconds), Some(frames)) => Some(Msf { minutes, seconds, frames }),
            _ => None,
        }
    }

    /// Reads a position from text of the form `MM:SS:FF`. Any other text is
    /// a format error.
    pub fn from_str(s: &str) -> (r: Result<Msf, CueError>)
        ensures
            r == match Msf::parse(s@) {
                Some(m) => Ok::<Msf, CueError>(m),
                None => Err(CueError::Format),
            },
    {
        match Msf::from_chars(&chars_of(s)) {
            Some(m) => Ok(m),
            None => Err(CueError::Format),
        }
    }

    /// Converts to the linear sector address.
    pub fn to_sectors(self) -> (sectors: u32)
        ensures
            sectors == self.lba(),
    {
        ((self.minutes as u32 * 60) + self.seconds as u32) * 75 + self.frames as u32
    }

    /// Converts a linear sector address of any width.
    pub fn from_lba(lba: u64) -> (m: Msf)
        ensures
            m == Msf::of_lba(lba as nat),
    {
        let frames: u64 = lba % 75;
        let total_seconds: u64 = lba / 75;
        let seconds: u64 = total_seconds % 60;
        let minutes: u64 = (total_seconds / 60) % 256;
        assert(lba as nat / 4500 == (lba as nat / 75) / 60) by (nonlinear_arith);
        Msf { minutes: minutes as u8, seconds: seconds as u8, frames: frames as u8 }
    }

    /// Converts a linear sector address.
    pub fn from_sectors(sectors: u32) -> (m: Msf)
        ensures
            m == Msf::of_lba(sectors as nat),
    {
        Msf::from_lba(sectors as u64)
    }

    /// Moves the position by `seconds` seconds, backwards when negative;
    /// a move before the start of the disc gives `00:00:00`.
    pub fn add_seconds(self, seconds: i32) -> (m: Msf)
        ensures
            m == self.shifted(seconds as int),
    {
        let target: i64 = self.to_sectors() as i64 + (seconds as i64) * 75;
        if target < 0 {
            Msf::new(0, 0, 0)
        } else {
            Msf::from_lba(target as u64)
        }
    }

    /// Packs each component as binary-coded decimal.
    pub fn to_bcd(self) -> (bytes: [u8; 3])
        ensures
            bytes@ == self.bcd(),
    {
        let bytes: [u8; 3] = [
            to_bcd_byte(self.minutes),
            to_bcd_byte(self.seconds),
            to_bcd_byte(self.frames),
        ];
        assert(bytes@ =~= self.bcd());
        bytes
    }
}

/// Packs one byte as binary-coded decimal.
pub fn to_bcd_byte(x: u8) -> (b: u8)
    ensures
        b == bcd_byte(x as nat),
{
    let tens: u8 = x / 10;
    let ones: u8 = x % 10;
    assert((tens << 4) | ones == ((tens % 16) * 16 + ones) as u8) by (bit_vector)
        requires
            ones < 10,
    ;
    (tens << 4) | ones
}

/// Converting a sector address to a position and back gives the address
/// again, for every address whose minutes fit a byte.
pub proof fn lemma_lba_round_trip(lba: nat)
    requires
        lba < LBA_LIMIT,
    ensures
        Msf::of_lba(lba).lba() == lba,
{
    assert(lba / 4500 == (lba / 75) / 60) by (nonlinear_arith);
    assert(lba / 4500 < 256) by (nonlinear_arith)
        requires
            lba < 1_152_000,
    ;
    assert(lba == 75 * (lba / 75) + lba % 75) by (nonlinear_arith);
    assert(lba / 75 == 60 * ((lba / 75) / 60) + (lba / 75) % 60) by (nonlinear_arith);
}

/// Converting a position to its sector address and back gives the position
/// again, when its seconds and frames are in range.
pub proof fn lemma_msf_round_trip(m: Msf)
    requires
        m.frames < 75,
        m.seconds < 60,
    ensures
        Msf::of_lba(m.lba()) == m,
{
    let s: nat = m.minutes as nat * 60 + m.seconds as nat;
    let n: nat = m.lba();
    assert(n == s * 75 + m.frames as nat);
    assert(n % 75 == m.frames as nat && n / 75 == s) by (nonlinear_arith)
        requires
            n == s * 75 + m.frames as nat,
            m.frames < 75,
    ;
    assert(s % 60 == m.seconds as nat && s / 60 == m.minutes as nat) by (nonlinear_arith)
        requires
            s == m.minutes as nat * 60 + m.seconds as nat,
            m.seconds < 60,
    ;
    assert(n / 4500 == (n / 75) / 60) by (nonlinear_arith);
}

/// Two sector addresses that differ by a multiple of the addressable range
/// have the same position.
pub proof fn lemma_of_lba_congruent(a: nat, b: nat)
    requires
        a % (LBA_LIMIT as nat) == b % (LBA_LIMIT as nat),
    ensures
        Msf::of_lba(a) == Msf::of_lba(b),
{
    lemma_of_lba_periodic(a);
    lemma_of_lba_periodic(b);
}

/// The position of a sector address depends only on the address modulo the
/// addressable range.
pub proof fn lemma_of_lba_periodic(n: nat)
    ensures
        Msf::of_lba(n % (LBA_LIMIT as nat)) == Msf::of_lba(n),
{
    let q: nat = n / 1_152_000;
    let r: nat = n % 1_152_000;
    assert(n == 1_152_000 * q + r) by (nonlinear_arith)
        requires
            q == n / 1_152_000,
            r == n % 1_152_000,
    ;
    assert(n % 75 == r % 75) by (nonlinear_arith)
        requires
            n == 75 * (15360 * q) + r,
    ;
    assert(n / 75 == 15360 * q + r / 75) by (nonlinear_arith)
        requires
            n == 75 * (15360 * q) + r,
    ;
    assert((n / 75) % 60 == (r / 75) % 60) by (nonlinear_arith)
        requires
            n / 75 == 60 * (256 * q) + r / 75,
    ;
    assert(n / 4500 == 256 * q + r / 4500) by (nonlinear_arith)
        requires
            n == 4500 * (256 * q) + r,
    ;
    assert((n / 4500) % 256 == (r / 4500) % 256) by (nonlinear_arith)
        requires
            n / 4500 == 256 * q + r / 4500,
    ;
}

/// A shift never lands before the start of the disc: a target below zero
/// gives `00:00:00`, and any other target within the addressable range is
/// reached exactly.
pub proof fn lemma_shift_clamps(m: Msf, seconds: int)
    ensures
        m.lba() + seconds * 75 < 0 ==> m.shifted(seconds) == Msf::zero(),
        0 <= m.lba() + seconds * 75 < LBA_LIMIT ==> m.shifted(seconds).lba() == m.lba() + seconds
            * 75,
{
    let target = m.lba() + seconds * 75;
    if 0 <= target < LBA_LIMIT {
        lemma_lba_round_trip(target as nat);
    }
}

} // verus!
