//! Which attributes the record parser cannot be handed.
//!
//! The attribute parser of the `mft` crate does not return on every input: an
//! attribute list or a directory index with an entry of length zero makes it loop,
//! and a run list can overflow its arithmetic. This module tells, from the bytes
//! alone, whether parsing the attribute at an offset comes back. Where a field or a
//! name cannot be read the parser returns an error, which is no hazard.

use vstd::prelude::*;

use crate::bytes::{read_u16, read_u32, read_u64, u16_at, u32_at, u64_at};

verus! {

/// The attribute type codes that the parser knows.
pub open spec fn known_type(code: u32) -> bool {
    code % 0x10 == 0 && 0x10 <= code <= 0xE0 || code == 0x100
}

/// Whether the `units` 16-bit units at `pos` are well-formed UTF-16 (with `stop`, up to
/// the first NUL): each high surrogate is followed by a low one, and no low one stands
/// alone.
pub open spec fn utf16_ok(data: Seq<u8>, pos: int, units: nat, stop: bool) -> bool
    decreases units,
{
    if units == 0 || stop && u16_at(data, pos) == 0 {
        true
    } else if u16_at(data, pos) < 0xD800 || u16_at(data, pos) > 0xDFFF {
        utf16_ok(data, pos + 2, (units - 1) as nat, stop)
    } else if u16_at(data, pos) < 0xDC00 && units >= 2 && 0xDC00 <= u16_at(data, pos + 2)
        <= 0xDFFF {
        utf16_ok(data, pos + 4, (units - 2) as nat, stop)
    } else {
        false
    }
}

/// The number of 16-bit units in the name of the attribute at `off`.
pub open spec fn name_units(data: Seq<u8>, off: int) -> nat {
    data[off + 9] as nat
}

/// Where the name of the attribute at `off` begins.
pub open spec fn name_start(data: Seq<u8>, off: int) -> int {
    off + u16_at(data, off + 10)
}

/// Whether the header of the attribute at `off` can be read: a known type, a
/// residency flag of 0 or 1 with its fields inside the buffer, and a name (if any)
/// that lies inside the buffer and decodes.
pub open spec fn header_parses(data: Seq<u8>, off: int) -> bool {
    &&& known_type(u32_at(data, off))
    &&& if data[off + 8] == 0 {
        off + 24 <= data.len()
    } else {
        &&& data[off + 8] == 1
        &&& off + 64 <= data.len()
        &&& u16_at(data, off + 34) > 0 ==> off + 72 <= data.len()
    }
    &&& name_units(data, off) > 0 ==> {
        &&& name_start(data, off) + 2 * name_units(data, off) <= data.len()
        &&& utf16_ok(data, name_start(data, off), name_units(data, off), true)
    }
}

/// Where the parser reads the content of the resident attribute at `off`: right
/// behind the header, or behind the name where there is one.
pub open spec fn content_start(data: Seq<u8>, off: int) -> int {
    if name_units(data, off) == 0 {
        off + 24
    } else {
        name_start(data, off) + 2 * name_units(data, off)
    }
}

/// How far `pos` is before `end`.
pub open spec fn gap(pos: int, end: int) -> nat {
    if pos < end {
        (end - pos) as nat
    } else {
        0
    }
}

/// Whether reading the attribute list entries from `pos` to `end` reaches, before
/// any unreadable entry, one that claims a length of zero.
pub open spec fn list_spins(data: Seq<u8>, pos: int, end: int) -> bool
    decreases gap(pos, end),
{
    if pos >= end || pos + 26 > end {
        false
    } else if data[pos + 6] > 0 && pos + data[pos + 7] + 2 * data[pos + 6] > end {
        false
    } else if u16_at(data, pos + 4) == 0 {
        true
    } else {
        list_spins(data, pos + u16_at(data, pos + 4), end)
    }
}

/// Whether a `FILETIME` is an instant that can be held (up to the year 9999).
pub open spec fn filetime_in_range(filetime: u64) -> bool {
    filetime / 10_000_000 <= 265_046_680_800
}

/// Whether a `$FILE_NAME` content can be read at `pos`: its fields and its name lie
/// in the buffer, its four times are in range, and its namespace is known.
pub open spec fn file_name_parses(data: Seq<u8>, pos: int) -> bool {
    &&& pos + 66 <= data.len()
    &&& filetime_in_range(u64_at(data, pos + 8))
    &&& filetime_in_range(u64_at(data, pos + 16))
    &&& filetime_in_range(u64_at(data, pos + 24))
    &&& filetime_in_range(u64_at(data, pos + 32))
    &&& data[pos + 65] <= 3
    &&& pos + 66 + 2 * data[pos + 64] <= data.len()
}

/// Whether reading the index entries from `pos` to `end` reaches, before an entry
/// without a reference and before any unreadable entry, one of length zero.
pub open spec fn index_spins(data: Seq<u8>, pos: int, end: int) -> bool
    decreases gap(pos, end),
{
    if pos >= end || pos + 8 > data.len() {
        false
    } else if u64_at(data, pos) % 0x1_0000_0000_0000 == 0 || u16_at(data, pos + 6) == 0 {
        false
    } else if pos + 16 > data.len() || !file_name_parses(data, pos + 16) {
        false
    } else if u16_at(data, pos + 8) == 0 {
        true
    } else {
        index_spins(data, pos + u16_at(data, pos + 8), end)
    }
}

/// The collation rules that the parser knows.
pub open spec fn known_collation(rule: u32) -> bool {
    rule <= 2 || 0x10 <= rule <= 0x13
}

/// Whether reading the index root at `pos` loops.
pub open spec fn index_root_spins(data: Seq<u8>, pos: int) -> bool {
    &&& pos + 32 <= data.len()
    &&& known_collation(u32_at(data, pos + 4))
    &&& index_spins(data, pos + 32, pos + 16 + u32_at(data, pos + 20))
}

/// The little-endian value of the `n` bytes at `pos`.
pub open spec fn le_value(data: Seq<u8>, pos: int, n: nat) -> int
    decreases n,
{
    if n == 0 {
        0
    } else {
        data[pos] + 0x100 * le_value(data, pos + 1, (n - 1) as nat)
    }
}

/// 256 to the power of `n`.
pub open spec fn pow256(n: nat) -> int
    decreases n,
{
    if n == 0 {
        1
    } else {
        0x100 * pow256((n - 1) as nat)
    }
}

/// The little-endian two's complement value of the `n` bytes at `pos`.
pub open spec fn signed_le_value(data: Seq<u8>, pos: int, n: nat) -> int {
    if data[pos + n - 1] >= 0x80 {
        le_value(data, pos, n) - pow256(n)
    } else {
        le_value(data, pos, n)
    }
}

/// The two's complement reading of a 64-bit pattern.
pub open spec fn as_signed(v: int) -> int {
    if v >= 0x8000_0000_0000_0000 {
        v - 0x1_0000_0000_0000_0000
    } else {
        v
    }
}

/// The 64-bit pattern of a two's complement value.
pub open spec fn as_unsigned(v: int) -> int {
    if v < 0 {
        v + 0x1_0000_0000_0000_0000
    } else {
        v
    }
}

/// Whether decoding the data runs from `pos` to `end` overflows: a run whose length
/// takes no bytes, or a relative offset that leaves the signed 64-bit range. `last`
/// is the offset of the run before, if there is one; a sparse run counts as zero.
pub open spec fn runs_overflow(data: Seq<u8>, pos: int, end: int, last: Option<int>) -> bool
    decreases end - pos,
{
    let lengths = data[pos] as int % 16;
    let offsets = data[pos] as int / 16;
    let next = pos + 1 + lengths + offsets;
    if pos >= end || data[pos] == 0 || lengths > 8 || offsets > 8 {
        false
    } else if lengths == 0 {
        true
    } else if next > end {
        false
    } else if offsets == 0 {
        runs_overflow(data, next, end, Some(0))
    } else {
        match last {
            None => runs_overflow(
                data,
                next,
                end,
                Some(le_value(data, pos + 1 + lengths, offsets as nat)),
            ),
            Some(l) => {
                let sum = as_signed(l) + signed_le_value(data, pos + 1 + lengths, offsets as nat);
                if sum < -0x8000_0000_0000_0000 || sum > 0x7FFF_FFFF_FFFF_FFFF {
                    true
                } else {
                    runs_overflow(data, next, end, Some(as_unsigned(sum)))
                }
            },
        }
    }
}

/// Whether parsing the attribute at `off` fails to come back.
pub open spec fn hazardous(data: Seq<u8>, off: int) -> bool {
    &&& header_parses(data, off)
    &&& if data[off + 8] == 0 {
        let start = content_start(data, off);
        let end = start + u32_at(data, off + 16);
        ||| u32_at(data, off) == 0x20 && end <= data.len() && list_spins(data, start, end)
        ||| u32_at(data, off) == 0x90 && index_root_spins(data, start)
    } else {
        let start = off + u16_at(data, off + 32);
        let end = off + u32_at(data, off + 4);
        runs_overflow(data, start, end, None)
    }
}

/// Tests whether the UTF-16 units at `pos` decode.
fn check_utf16(data: &[u8], pos: usize, units: usize) -> (r: bool)
    requires
        pos + 2 * units <= data@.len(),
    ensures
        r == utf16_ok(data@, pos as int, units as nat, true),
{
    let mut p: usize = pos;
    let mut left: usize = units;
    while left > 0
        invariant
            p + 2 * left <= data@.len(),
            utf16_ok(data@, pos as int, units as nat, true) == utf16_ok(
                data@,
                p as int,
                left as nat,
                true,
            ),
        decreases left,
    {
        assert(p + 2 * left <= data.len());
        let u: u16 = read_u16(data, p);
        if u == 0 {
            return true;
        }
        if u < 0xD800 || u > 0xDFFF {
            p = p + 2;
            left = left - 1;
        } else {
            if u >= 0xDC00 || left < 2 {
                return false;
            }
            let low: u16 = read_u16(data, p + 2);
            if low < 0xDC00 || low > 0xDFFF {
                return false;
            }
            p = p + 4;
            left = left - 2;
        }
    }
    true
}

/// Tests whether the header of the attribute at `off` can be read.
fn check_header(data: &[u8], off: usize) -> (r: bool)
    requires
        off + 16 <= data@.len(),
    ensures
        r == header_parses(data@, off as int),
{
    let len: usize = data.len();
    let code: u32 = read_u32(data, off);
    if !((code % 0x10 == 0 && 0x10 <= code && code <= 0xE0) || code == 0x100) {
        return false;
    }
    let room: usize = len - off;
    if data[off + 8] == 0 {
        if room < 24 {
            return false;
        }
    } else {
        if data[off + 8] != 1 || room < 64 {
            return false;
        }
        if read_u16(data, off + 34) > 0 && room < 72 {
            return false;
        }
    }
    let units: usize = data[off + 9] as usize;
    if units > 0 {
        let name: usize = read_u16(data, off + 10) as usize;
        if name > room || 2 * units > room - name {
            return false;
        }
        check_utf16(data, off + name, units)
    } else {
        true
    }
}

/// Tests whether reading the attribute list from `pos` to `end` loops.
fn check_list(data: &[u8], pos: usize, end: usize) -> (r: bool)
    requires
        end <= data@.len(),
    ensures
        r == list_spins(data@, pos as int, end as int),
{
    assert(end <= data.len());
    let mut p: usize = pos;
    while p < end
        invariant
            end <= data@.len(),
            end <= data.len(),
            list_spins(data@, pos as int, end as int) == list_spins(data@, p as int, end as int),
        decreases end - p,
    {
        let room: usize = end - p;
        if room < 26 {
            return false;
        }
        let units: usize = data[p + 6] as usize;
        if units > 0 && data[p + 7] as usize + 2 * units > room {
            return false;
        }
        let step: usize = read_u16(data, p + 4) as usize;
        if step == 0 {
            return true;
        }
        if step >= room {
            assert(!list_spins(data@, p + step, end as int));
            return false;
        }
        p = p + step;
    }
    false
}

/// Tests whether a `$FILE_NAME` content can be read at `pos`.
fn check_file_name(data: &[u8], pos: usize) -> (r: bool)
    requires
        pos <= data@.len(),
    ensures
        r == file_name_parses(data@, pos as int),
{
    let room: usize = data.len() - pos;
    if room < 66 {
        return false;
    }
    let max: u64 = 265_046_680_800;
    read_u64(data, pos + 8) / 10_000_000 <= max && read_u64(data, pos + 16) / 10_000_000 <= max
        && read_u64(data, pos + 24) / 10_000_000 <= max && read_u64(data, pos + 32) / 10_000_000
        <= max && data[pos + 65] <= 3 && 66 + 2 * (data[pos + 64] as usize) <= room
}

/// Index entries past the end of the buffer cannot be read, whatever end is claimed.
proof fn lemma_index_end(data: Seq<u8>, pos: int, end: int)
    requires
        end >= data.len(),
    ensures
        index_spins(data, pos, end) == index_spins(data, pos, data.len() as int),
    decreases gap(pos, end),
{
    if pos < end && pos + 8 <= data.len() && u16_at(data, pos + 8) != 0 {
        lemma_index_end(data, pos + u16_at(data, pos + 8), end);
    }
}

/// Tests whether the index entry at `pos` can be read and has a reference.
fn check_index_entry(data: &[u8], pos: usize) -> (r: bool)
    requires
        pos <= data@.len(),
    ensures
        r == (pos + 16 <= data@.len() && u64_at(data@, pos as int) % 0x1_0000_0000_0000 != 0
            && u16_at(data@, pos + 6) != 0 && file_name_parses(data@, pos + 16)),
{
    let room: usize = data.len() - pos;
    room >= 16 && read_u64(data, pos) % 0x1_0000_0000_0000 != 0 && read_u16(data, pos + 6) != 0
        && check_file_name(data, pos + 16)
}

/// Tests whether reading the index entries from `pos` to `end` loops.
fn check_index(data: &[u8], pos: usize, end: usize) -> (r: bool)
    requires
        end <= data@.len(),
    ensures
        r == index_spins(data@, pos as int, end as int),
{
    assert(end <= data.len());
    let mut p: usize = pos;
    while p < end
        invariant
            end <= data@.len(),
            end <= data.len(),
            index_spins(data@, pos as int, end as int) == index_spins(data@, p as int, end as int),
        decreases end - p,
    {
        if !check_index_entry(data, p) {
            return false;
        }
        let step: usize = read_u16(data, p + 8) as usize;
        if step == 0 {
            return true;
        }
        if step >= end - p {
            assert(!index_spins(data@, p + step, end as int));
            return false;
        }
        p = p + step;
    }
    false
}

/// Tests whether reading the index root at `pos` loops.
fn check_index_root(data: &[u8], pos: usize) -> (r: bool)
    requires
        pos <= data@.len(),
    ensures
        r == index_root_spins(data@, pos as int),
{
    let room: usize = data.len() - pos;
    if room < 32 {
        return false;
    }
    let rule: u32 = read_u32(data, pos + 4);
    if !(rule <= 2 || (0x10 <= rule && rule <= 0x13)) {
        return false;
    }
    let node: u64 = read_u32(data, pos + 20) as u64;
    let end: usize = if node > (room - 16) as u64 {
        data.len()
    } else {
        pos + 16 + node as usize
    };
    proof {
        if node > room - 16 {
            lemma_index_end(data@, pos + 32, pos + 16 + node);
        }
    }
    check_index(data, pos + 32, end)
}

/// The little-endian value of the `n` bytes at `pos`, and 256 to the power of `n`.
fn read_le(data: &[u8], pos: usize, n: usize) -> (r: (i128, i128))
    requires
        n <= 8,
        pos + n <= data@.len(),
    ensures
        r.0 == le_value(data@, pos as int, n as nat),
        r.1 == pow256(n as nat),
        0 <= r.0 < r.1 <= 0x1_0000_0000_0000_0000,
    decreases n,
{
    proof {
        reveal_with_fuel(pow256, 9);
    }
    if n == 0 {
        (0, 1)
    } else {
        assert(pos + n <= data.len());
        let rest = read_le(data, pos + 1, n - 1);
        (data[pos] as i128 + 0x100 * rest.0, 0x100 * rest.1)
    }
}

/// Tests whether decoding the data runs from `pos` to `end` overflows.
fn check_runs(data: &[u8], pos: usize, end: usize) -> (r: bool)
    requires
        end <= data@.len(),
    ensures
        r == runs_overflow(data@, pos as int, end as int, None),
{
    assert(end <= data.len());
    let mut p: usize = pos;
    let mut last: Option<i128> = None;
    let ghost mut seen: Option<int> = None;
    while p < end
        invariant
            end <= data@.len(),
            end <= data.len(),
            last is Some == seen is Some,
            last matches Some(l) ==> seen == Some(l as int) && 0 <= l < 0x1_0000_0000_0000_0000,
            runs_overflow(data@, pos as int, end as int, None) == runs_overflow(
                data@,
                p as int,
                end as int,
                seen,
            ),
        decreases end - p,
    {
        let head: u8 = data[p];
        if head == 0 {
            return false;
        }
        let lengths: usize = (head % 16) as usize;
        let offsets: usize = (head / 16) as usize;
        if lengths > 8 || offsets > 8 {
            return false;
        }
        if lengths == 0 {
            return true;
        }
        if 1 + lengths + offsets > end - p {
            return false;
        }
        if offsets == 0 {
            last = Some(0);
            proof {
                seen = Some(0);
            }
        } else {
            let at: usize = p + 1 + lengths;
            let value = read_le(data, at, offsets);
            match last {
                None => {
                    last = Some(value.0);
                    proof {
                        seen = Some(value.0 as int);
                    }
                },
                Some(l) => {
                    let base: i128 = if l >= 0x8000_0000_0000_0000 {
                        l - 0x1_0000_0000_0000_0000
                    } else {
                        l
                    };
                    let step: i128 = if data[at + offsets - 1] >= 0x80 {
                        value.0 - value.1
                    } else {
                        value.0
                    };
                    let sum: i128 = base + step;
                    if sum < -0x8000_0000_0000_0000 || sum > 0x7FFF_FFFF_FFFF_FFFF {
                        return true;
                    }
                    let pattern: i128 = if sum < 0 {
                        sum + 0x1_0000_0000_0000_0000
                    } else {
                        sum
                    };
                    last = Some(pattern);
                    proof {
                        seen = Some(pattern as int);
                    }
                },
            }
        }
        p = p + 1 + lengths + offsets;
    }
    false
}

/// Tests whether parsing the attribute at `off` fails to come back. The attribute's
/// common header and its claimed length lie in the buffer.
pub fn check_hazard(data: &[u8], off: usize) -> (r: bool)
    requires
        off + 16 <= data@.len(),
        off + u32_at(data@, off as int + 4) <= data@.len(),
    ensures
        r == hazardous(data@, off as int),
{
    if !check_header(data, off) {
        return false;
    }
    let len: usize = data.len();
    let code: u32 = read_u32(data, off);
    if data[off + 8] == 0 {
        let units: usize = data[off + 9] as usize;
        let start: usize = if units == 0 {
            off + 24
        } else {
            off + read_u16(data, off + 10) as usize + 2 * units
        };
        if code == 0x20 {
            let size: u64 = read_u32(data, off + 16) as u64;
            size <= (len - start) as u64 && check_list(data, start, start + size as usize)
        } else if code == 0x90 {
            check_index_root(data, start)
        } else {
            false
        }
    } else {
        let runs: usize = read_u16(data, off + 32) as usize;
        let length: usize = read_u32(data, off + 4) as usize;
        if runs >= length {
            false
        } else {
            check_runs(data, off + runs, off + length)
        }
    }
}

/// Of resident attributes only an attribute list and a directory index can be hazardous;
/// nothing is that the parser turns away at its header.
pub proof fn law_only_lists_and_indexes_loop(data: Seq<u8>, off: int)
    requires
        hazardous(data, off),
        data[off + 8] == 0,
    ensures
        u32_at(data, off) == 0x20 || u32_at(data, off) == 0x90,
        header_parses(data, off),
{
}

/// An attribute list loops only over an entry of length zero.
pub proof fn law_looping_list_has_an_empty_entry(data: Seq<u8>, pos: int, end: int)
    requires
        list_spins(data, pos, end),
    ensures
        exists|p: int| pos <= p < end && #[trigger] u16_at(data, p + 4) == 0,
    decreases gap(pos, end),
{
    if u16_at(data, pos + 4) == 0 {
        assert(pos <= pos < end);
    } else {
        let next = pos + u16_at(data, pos + 4);
        law_looping_list_has_an_empty_entry(data, next, end);
        let p = choose|p: int| next <= p < end && #[trigger] u16_at(data, p + 4) == 0;
        assert(pos <= p < end && u16_at(data, p + 4) == 0);
    }
}

/// A directory index loops only over an entry of length zero.
pub proof fn law_looping_index_has_an_empty_entry(data: Seq<u8>, pos: int, end: int)
    requires
        index_spins(data, pos, end),
    ensures
        exists|p: int| pos <= p < end && #[trigger] u16_at(data, p + 8) == 0,
    decreases gap(pos, end),
{
    if u16_at(data, pos + 8) == 0 {
        assert(pos <= pos < end);
    } else {
        let next = pos + u16_at(data, pos + 8);
        law_looping_index_has_an_empty_entry(data, next, end);
        let p = choose|p: int| next <= p < end && #[trigger] u16_at(data, p + 8) == 0;
        assert(pos <= p < end && u16_at(data, p + 8) == 0);
    }
}

/// Data runs that end at once, and a single run with a length, do not overflow.
pub proof fn law_single_run_does_not_overflow(data: Seq<u8>, pos: int, end: int)
    ensures
        pos >= end || data[pos] == 0 ==> !runs_overflow(data, pos, end, None),
        ({
            let next = pos + 1 + data[pos] as int % 16 + data[pos] as int / 16;
            data[pos] as int % 16 > 0 && (next >= end || data[next] == 0)
        }) ==> !runs_overflow(data, pos, end, None),
{
    let next = pos + 1 + data[pos] as int % 16 + data[pos] as int / 16;
    reveal_with_fuel(runs_overflow, 3);
}

/// An attribute list is read entry by entry, each as long as it claims: an entry of length
/// zero is never left, one that cannot be read ends the list, and so does its end.
pub proof fn law_list_is_read_by_entries(data: Seq<u8>, pos: int, end: int)
    ensures
        ({
            let step = u16_at(data, pos + 4);
            let units = data[pos + 6];
            let readable = pos + 26 <= end && (units == 0 || pos + data[pos + 7] + 2 * units
                <= end);
            &&& !readable ==> !list_spins(data, pos, end)
            &&& readable && step == 0 ==> list_spins(data, pos, end)
            &&& readable && step > 0 ==> list_spins(data, pos, end) == list_spins(
                data,
                pos + step,
                end,
            )
        }),
{
}

/// Data runs are read one by one. A run without length bytes overflows, and so does an
/// offset, counted from that of the run before, that leaves the signed 64-bit range. The
/// end marker, a field of more than eight bytes and a run that is cut off end the list. A
/// sparse run, without offset bytes, starts the counting anew.
pub proof fn law_runs_are_read_one_by_one(data: Seq<u8>, pos: int, end: int, last: Option<int>)
    ensures
        ({
            let lengths = data[pos] as int % 16;
            let offsets = data[pos] as int / 16;
            let next = pos + 1 + lengths + offsets;
            let at = pos + 1 + lengths;
            let over = runs_overflow(data, pos, end, last);
            let ends = pos >= end || data[pos] == 0 || lengths > 8 || offsets > 8;
            &&& ends ==> !over
            &&& !ends && lengths == 0 ==> over
            &&& !ends && lengths > 0 && next > end ==> !over
            &&& !ends && lengths > 0 && next <= end && offsets == 0 ==> over == runs_overflow(
                data,
                next,
                end,
                Some(0),
            )
            &&& !ends && lengths > 0 && next <= end && offsets > 0 && last is None ==> over
                == runs_overflow(data, next, end, Some(le_value(data, at, offsets as nat)))
            &&& !ends && lengths > 0 && next <= end && offsets > 0 ==> (last matches Some(l) ==> {
                let sum = as_signed(l) + signed_le_value(data, at, offsets as nat);
                let fits = -0x8000_0000_0000_0000 <= sum <= 0x7FFF_FFFF_FFFF_FFFF;
                &&& !fits ==> over
                &&& fits ==> over == runs_overflow(data, next, end, Some(as_unsigned(sum)))
            })
        }),
{
}

/// Run values are little-endian, and negative where the top bit of the last byte is set.
pub proof fn law_run_values(data: Seq<u8>, pos: int, n: nat)
    ensures
        le_value(data, pos, 0) == 0,
        le_value(data, pos, n + 1) == data[pos] + 256 * le_value(data, pos + 1, n),
        pow256(0) == 1,
        pow256(n + 1) == 256 * pow256(n),
        n > 0 && data[pos + n - 1] < 128 ==> signed_le_value(data, pos, n) == le_value(data, pos, n),
        n > 0 && data[pos + n - 1] >= 128 ==> signed_le_value(data, pos, n) == le_value(
            data,
            pos,
            n,
        ) - pow256(n),
{
}

} // verus!
