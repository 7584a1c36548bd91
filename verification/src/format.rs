//! The structure of a serialised set, and the check that a buffer has it.
//!
//! A buffer is a partition followed by twelve bytes of checksum and magic. A
//! partition is read from its last byte backwards. That byte is its kind; before it
//! lies what the kind calls for:
//!
//! - empty (0) and full (1): nothing;
//! - bitmap (2): one bit for every value of the level;
//! - list (3): a count less one, before it that many values, ascending;
//! - runs (4): a count less one, before it that many pairs of first and last value,
//!   ascending and neither overlapping nor touching;
//! - tree (5): a count of children less one in one byte; before it the leading bytes
//!   of the children, as an ascending list up to 32, as a bitmap up to 255, left out
//!   for 256; before them the running totals of the children's keys, each less one;
//!   before them, for each child, how far before the index its partition ends. A
//!   child is a partition of the level below and holds at least one key.
//!
//! Values, counts, totals and distances are big-endian and as wide as the level: four
//! bytes at the top, then three, two and one. The lowest level has no trees.

use vstd::prelude::*;
use crate::types::DecodeError;

verus! {

/// The length of checksum and magic at the end of a buffer.
pub const FOOTER_BYTES: usize = 12;

/// The buffer ends in the four bytes of this format's magic.
pub open spec fn ends_in_magic(bytes: Seq<u8>) -> bool {
    let n = bytes.len() as int;
    &&& n >= 4
    &&& bytes[n - 4] == 0x59
    &&& bytes[n - 3] == 0x11
    &&& bytes[n - 2] == 0xA7
    &&& bytes[n - 1] == 0xE2
}

/// The buffer starts with the magic of the format's first version and does not end
/// in the magic of this one.
pub open spec fn is_first_version(bytes: Seq<u8>) -> bool {
    &&& bytes.len() >= 4
    &&& bytes[0] == 0xDA
    &&& bytes[1] == 0xAE
    &&& bytes[2] == 0x12
    &&& bytes[3] == 0xDF
    &&& !ends_in_magic(bytes)
}

/// The error that a buffer's length and two ends call for, before its checksum or
/// contents are looked at: the first version is named as such, a buffer too short
/// for checksum and magic is turned down for its length, and one that does not end
/// in the magic for that.
pub open spec fn framing_error(bytes: Seq<u8>) -> Option<DecodeError> {
    if is_first_version(bytes) {
        Some(DecodeError::SplinterV1)
    } else if bytes.len() < FOOTER_BYTES {
        Some(DecodeError::Length)
    } else if !ends_in_magic(bytes) {
        Some(DecodeError::Magic)
    } else {
        None
    }
}

/// The number of values of a level whose values have `bits` bits.
pub open spec fn level_size(bits: int) -> int {
    if bits == 8 {
        0x100
    } else if bits == 16 {
        0x1_0000
    } else if bits == 24 {
        0x100_0000
    } else {
        0x1_0000_0000
    }
}

/// The length of `n` cells of `w` bytes, for the four widths there are.
pub open spec fn cell_bytes(n: int, w: int) -> int {
    if w == 1 {
        n
    } else if w == 2 {
        2 * n
    } else if w == 3 {
        3 * n
    } else {
        4 * n
    }
}

/// The big-endian number in the `w` bytes from `at` on.
pub open spec fn be_value(data: Seq<u8>, at: int, w: int) -> int {
    if w == 1 {
        data[at] as int
    } else if w == 2 {
        data[at] * 0x100 + data[at + 1]
    } else if w == 3 {
        data[at] * 0x1_0000 + data[at + 1] * 0x100 + data[at + 2]
    } else {
        data[at] * 0x100_0000 + data[at + 1] * 0x1_0000 + data[at + 2] * 0x100 + data[at + 3]
    }
}

/// The number of bits set in a byte.
pub open spec fn byte_ones(b: u8) -> int {
    (b as int) % 2 + (b / 2) % 2 + (b / 4) % 2 + (b / 8) % 2 + (b / 16) % 2 + (b / 32) % 2 + (b
        / 64) % 2 + (b / 128) % 2
}

/// The number of bits set in the bytes from `lo` up to `hi`.
pub open spec fn ones(data: Seq<u8>, lo: int, hi: int) -> int
    decreases hi - lo,
{
    if hi <= lo {
        0
    } else {
        ones(data, lo, hi - 1) + byte_ones(data[hi - 1])
    }
}

/// The cells of `w` bytes between `lo` and `hi` hold strictly ascending numbers.
pub open spec fn cells_ascend(data: Seq<u8>, lo: int, hi: int, w: int) -> bool
    decreases hi - lo,
{
    if w < 1 || hi - lo < 2 * w {
        true
    } else {
        &&& cells_ascend(data, lo, hi - w, w)
        &&& be_value(data, hi - 2 * w, w) < be_value(data, hi - w, w)
    }
}

/// The number of values in the runs between `lo` and `hi`, each a pair of cells of
/// `w` bytes; `None` where a run ends before it starts, or does not lie clear above
/// the run before it.
pub open spec fn runs_card(data: Seq<u8>, lo: int, hi: int, w: int) -> Option<int>
    decreases hi - lo,
{
    if w < 1 || hi - lo < 2 * w {
        Some(0)
    } else {
        let first = be_value(data, hi - 2 * w, w);
        let last = be_value(data, hi - w, w);
        let clear = hi - lo < 4 * w || be_value(data, hi - 3 * w, w) + 1 < first;
        match runs_card(data, lo, hi - 2 * w, w) {
            Some(before) => if first <= last && clear {
                Some(before + (last - first + 1))
            } else {
                None
            },
            None => None,
        }
    }
}

/// The length of a tree's list of leading bytes, for `n` children.
pub open spec fn segment_bytes(n: int) -> int {
    if n == 256 {
        0
    } else if n <= 32 {
        n
    } else {
        32
    }
}

/// The leading bytes between `lo` and `hi` name `n` children: an ascending list, or a
/// bitmap with `n` bits set.
pub open spec fn segments_fit(data: Seq<u8>, lo: int, hi: int, n: int) -> bool {
    if n == 256 {
        true
    } else if n <= 32 {
        cells_ascend(data, lo, hi, 1)
    } else {
        ones(data, lo, hi) == n
    }
}

/// The number of keys in the partition that ends at `end`, at the level whose values
/// have `bits` bits; `None` where the bytes before `end` are no partition of that
/// level.
pub open spec fn partition_card(data: Seq<u8>, end: int, bits: int) -> Option<int>
    decreases end, 0int,
{
    let w = bits / 8;
    let body = end - 1;
    if end < 1 || end > data.len() {
        None
    } else if data[body] == 0 {
        Some(0)
    } else if data[body] == 1 {
        Some(level_size(bits))
    } else if data[body] == 2 {
        if body >= level_size(bits) / 8 {
            Some(ones(data, body - level_size(bits) / 8, body))
        } else {
            None
        }
    } else if data[body] == 3 {
        if body >= w {
            let hi = body - w;
            let n = be_value(data, hi, w) + 1;
            if hi >= cell_bytes(n, w) && cells_ascend(data, hi - cell_bytes(n, w), hi, w) {
                Some(n)
            } else {
                None
            }
        } else {
            None
        }
    } else if data[body] == 4 {
        if body >= w {
            let hi = body - w;
            let n = be_value(data, hi, w) + 1;
            if hi >= 2 * cell_bytes(n, w) {
                runs_card(data, hi - 2 * cell_bytes(n, w), hi, w)
            } else {
                None
            }
        } else {
            None
        }
    } else if data[body] == 5 && bits > 8 {
        if body >= 1 {
            let seg_hi = body - 1;
            let n = data[seg_hi] + 1;
            let seg_lo = seg_hi - segment_bytes(n);
            let card_lo = seg_lo - cell_bytes(n, w);
            let off_lo = card_lo - cell_bytes(n, w);
            if 0 <= off_lo <= card_lo <= seg_lo <= seg_hi && segments_fit(data, seg_lo, seg_hi, n)
                && children_fit(data, off_lo, card_lo, card_lo - off_lo, bits) {
                Some(be_value(data, seg_lo - w, w) + 1)
            } else {
                None
            }
        } else {
            None
        }
    } else {
        None
    }
}

/// Every entry of a tree's index between `off_lo` and `off_hi` leads to a child: the
/// distance it gives stays inside the buffer, a partition of the level below ends
/// there, it holds at least one key, and the running total, `gap` bytes further on,
/// grows by the number of its keys.
pub open spec fn children_fit(data: Seq<u8>, off_lo: int, off_hi: int, gap: int, bits: int) -> bool
    decreases off_lo + 1, off_hi - off_lo,
{
    let w = bits / 8;
    let at = off_hi - w;
    if w < 1 || off_lo < 0 || off_hi - off_lo < w {
        true
    } else {
        let distance = be_value(data, at, w);
        let total = be_value(data, at + gap, w) + 1;
        let before = if at - off_lo < w {
            0
        } else {
            be_value(data, at + gap - w, w) + 1
        };
        &&& children_fit(data, off_lo, at, gap, bits)
        &&& distance <= off_lo
        &&& match partition_card(data, off_lo - distance, bits - 8) {
            Some(keys) => keys >= 1 && before + keys == total,
            None => false,
        }
    }
}

/// The buffer is long enough for checksum and magic, and what lies before them is a
/// partition of the top level. Nothing is said of the checksum.
pub open spec fn well_formed(bytes: Seq<u8>) -> bool {
    bytes.len() >= FOOTER_BYTES && partition_card(bytes, bytes.len() - FOOTER_BYTES, 32) is Some
}

fn cell_len(n: u64, w: usize) -> (len: u64)
    requires
        1 <= w <= 4,
        n <= 0x1_0000_0000,
    ensures
        len == cell_bytes(n as int, w as int),
        len <= 0x4_0000_0000,
{
    if w == 1 {
        n
    } else if w == 2 {
        2 * n
    } else if w == 3 {
        3 * n
    } else {
        4 * n
    }
}

fn read_value(data: &[u8], at: usize, w: usize) -> (v: u64)
    requires
        1 <= w <= 4,
        at + w <= data.len(),
    ensures
        v == be_value(data@, at as int, w as int),
        v < 0x1_0000_0000,
{
    if w == 1 {
        data[at] as u64
    } else if w == 2 {
        data[at] as u64 * 0x100 + data[at + 1] as u64
    } else if w == 3 {
        data[at] as u64 * 0x1_0000 + data[at + 1] as u64 * 0x100 + data[at + 2] as u64
    } else {
        data[at] as u64 * 0x100_0000 + data[at + 1] as u64 * 0x1_0000 + data[at + 2] as u64 * 0x100
            + data[at + 3] as u64
    }
}

fn count_byte(b: u8) -> (n: u64)
    ensures
        n == byte_ones(b),
        n <= 8,
{
    let b = b as u64;
    b % 2 + (b / 2) % 2 + (b / 4) % 2 + (b / 8) % 2 + (b / 16) % 2 + (b / 32) % 2 + (b / 64) % 2
        + (b / 128) % 2
}

fn count_ones(data: &[u8], lo: usize, hi: usize) -> (n: u64)
    requires
        lo <= hi <= data.len(),
        hi - lo <= 0x2000_0000,
    ensures
        n == ones(data@, lo as int, hi as int),
        n <= 8 * (hi - lo),
{
    let mut pos = hi;
    let mut n: u64 = 0;
    while pos > lo
        invariant
            lo <= pos <= hi <= data.len(),
            hi - lo <= 0x2000_0000,
            n <= 8 * (hi - pos),
            ones(data@, lo as int, hi as int) == n + ones(data@, lo as int, pos as int),
        decreases pos - lo,
    {
        n = n + count_byte(data[pos - 1]);
        pos = pos - 1;
    }
    n
}

fn cells_ascending(data: &[u8], lo: usize, hi: usize, w: usize) -> (ok: bool)
    requires
        lo <= hi <= data.len(),
        1 <= w <= 4,
    ensures
        ok == cells_ascend(data@, lo as int, hi as int, w as int),
{
    let mut pos = hi;
    let mut ok = true;
    while pos - lo >= 2 * w
        invariant
            lo <= pos <= hi <= data.len(),
            1 <= w <= 4,
            cells_ascend(data@, lo as int, hi as int, w as int) == (ok && cells_ascend(
                data@,
                lo as int,
                pos as int,
                w as int,
            )),
        decreases pos - lo,
    {
        if read_value(data, pos - 2 * w, w) >= read_value(data, pos - w, w) {
            ok = false;
        }
        pos = pos - w;
    }
    ok
}

fn count_runs(data: &[u8], lo: usize, hi: usize, w: usize) -> (r: Option<u64>)
    requires
        lo <= hi <= data.len(),
        1 <= w <= 4,
    ensures
        match r {
            Some(n) => runs_card(data@, lo as int, hi as int, w as int) == Some(n as int) && n
                <= 0x1_0000_0000,
            None => runs_card(data@, lo as int, hi as int, w as int) is None,
        },
{
    let mut pos = hi;
    let mut ok = true;
    let mut n: u64 = 0;
    let mut floor: u64 = 0x1_0000_0000;
    while pos - lo >= 2 * w
        invariant
            lo <= pos <= hi <= data.len(),
            1 <= w <= 4,
            pos == hi ==> n == 0,
            ok ==> n + floor <= 0x1_0000_0000,
            ok && pos < hi ==> floor == be_value(data@, pos as int, w as int),
            ok && pos < hi && pos - lo >= 2 * w ==> be_value(data@, pos - w, w as int) + 1 < floor,
            runs_card(data@, lo as int, hi as int, w as int) == (if ok {
                match runs_card(data@, lo as int, pos as int, w as int) {
                    Some(before) => Some(before + n),
                    None => None,
                }
            } else {
                None
            }),
        decreases pos - lo,
    {
        if ok {
            let first = read_value(data, pos - 2 * w, w);
            let last = read_value(data, pos - w, w);
            let clear = pos - lo < 4 * w || read_value(data, pos - 3 * w, w) + 1 < first;
            if first <= last && clear {
                n = n + (last - first + 1);
                floor = first;
            } else {
                ok = false;
            }
        }
        pos = pos - 2 * w;
    }
    if ok {
        Some(n)
    } else {
        None
    }
}

fn level_values(bits: u8) -> (n: u64)
    ensures
        n == level_size(bits as int),
{
    if bits == 8 {
        0x100
    } else if bits == 16 {
        0x1_0000
    } else if bits == 24 {
        0x100_0000
    } else {
        0x1_0000_0000
    }
}

/// Reads the partition that ends at `end` and counts its keys, going down into the
/// children of a tree; `None` where the bytes are no partition of the level.
fn check_partition(data: &[u8], end: usize, bits: u8) -> (r: Option<u64>)
    requires
        end <= data.len(),
        bits == 8 || bits == 16 || bits == 24 || bits == 32,
    ensures
        match r {
            Some(n) => partition_card(data@, end as int, bits as int) == Some(n as int) && n
                <= 0x1_0000_0000,
            None => partition_card(data@, end as int, bits as int) is None,
        },
    decreases end,
{
    if end < 1 {
        return None;
    }
    let w: usize = (bits / 8) as usize;
    let body = end - 1;
    let kind = data[body];
    if kind == 0 {
        Some(0)
    } else if kind == 1 {
        Some(level_values(bits))
    } else if kind == 2 {
        let need = level_values(bits) / 8;
        if body as u64 >= need {
            Some(count_ones(data, body - need as usize, body))
        } else {
            None
        }
    } else if kind == 3 {
        if body < w {
            return None;
        }
        let hi = body - w;
        let n = read_value(data, hi, w) + 1;
        let need = cell_len(n, w);
        if hi as u64 >= need && cells_ascending(data, hi - need as usize, hi, w) {
            Some(n)
        } else {
            None
        }
    } else if kind == 4 {
        if body < w {
            return None;
        }
        let hi = body - w;
        let n = read_value(data, hi, w) + 1;
        let need = 2 * cell_len(n, w);
        if hi as u64 >= need {
            count_runs(data, hi - need as usize, hi, w)
        } else {
            None
        }
    } else if kind == 5 && bits > 8 {
        if body < 1 {
            return None;
        }
        let seg_hi = body - 1;
        let n: u64 = data[seg_hi] as u64 + 1;
        let seg: u64 = if n == 256 {
            0
        } else if n <= 32 {
            n
        } else {
            32
        };
        let cells = cell_len(n, w);
        if (seg_hi as u64) < seg + 2 * cells {
            return None;
        }
        let seg_lo = seg_hi - seg as usize;
        let card_lo = seg_lo - cells as usize;
        let off_lo = card_lo - cells as usize;
        let named = if n == 256 {
            true
        } else if n <= 32 {
            cells_ascending(data, seg_lo, seg_hi, 1)
        } else {
            count_ones(data, seg_lo, seg_hi) == n
        };
        if !named {
            return None;
        }
        let gap = cells as usize;
        let mut pos = card_lo;
        let mut ok = true;
        while pos - off_lo >= w
            invariant
                off_lo <= pos <= card_lo,
                card_lo + gap <= seg_lo <= data.len(),
                card_lo == off_lo + gap,
                off_lo < end,
                w == bits / 8,
                bits == 16 || bits == 24 || bits == 32,
                children_fit(data@, off_lo as int, card_lo as int, gap as int, bits as int) == (ok
                    && children_fit(data@, off_lo as int, pos as int, gap as int, bits as int)),
            decreases pos - off_lo,
        {
            let at = pos - w;
            if ok {
                let distance = read_value(data, at, w);
                let total = read_value(data, at + gap, w) + 1;
                let before = if at - off_lo < w {
                    0
                } else {
                    read_value(data, at + gap - w, w) + 1
                };
                if distance > off_lo as u64 {
                    ok = false;
                } else {
                    match check_partition(data, off_lo - distance as usize, bits - 8) {
                        Some(keys) => {
                            ok = keys >= 1 && before + keys == total;
                        },
                        None => {
                            ok = false;
                        },
                    }
                }
            }
            pos = at;
        }
        if ok {
            Some(read_value(data, seg_lo - w, w) + 1)
        } else {
            None
        }
    } else {
        None
    }
}

/// Whether the buffer has the structure of a serialised set. The check walks every
/// partition, down to the leaves, and reads no byte outside the buffer.
pub fn check_structure(bytes: &[u8]) -> (ok: bool)
    ensures
        ok == well_formed(bytes@),
{
    if bytes.len() < FOOTER_BYTES {
        return false;
    }
    check_partition(bytes, bytes.len() - FOOTER_BYTES, 32).is_some()
}

} // verus!
