//! Synthetic `$MFT` builder: byte-accurate FILE-record construction for
//! deterministic fixtures (resident and non-resident `$DATA`, multiple
//! `$FILE_NAME`s, timestomp cases, orphans).
//!
//! Records are 1024 bytes, with a valid update sequence array (fixup), so they parse
//! exactly as a real on-disk record would. The builder lays out attributes, writes
//! the `0xFFFFFFFF` terminator, then applies the fixup (saving the real sector-tail
//! bytes into the array and writing the update-sequence word into the tails).

pub mod ns;

use vstd::prelude::*;

use crate::attribute::instant_of;
use crate::bytes::{u16_at, u32_at, u64_at};
use crate::entry::{
    baad_signature, entry_of, file_signature, fixed_up, fixup_fits, fixup_matches, full_entry, reference_entry, signature_of,
    tail_matches, usa_offset, usa_size, zero_signature, EntryModel,
};
use crate::errors::EntryErrorModel;
use crate::parse::{outcome_of, OutcomeModel};

verus! {

/// Bytes of a synthetic record.
pub const RECORD_SIZE: usize = 1024;

/// Offset of the first attribute.
pub const FIRST_ATTR_OFFSET: usize = 0x38;

/// Seconds between the FILETIME epoch (1601) and the Unix epoch (1970).
pub const FILETIME_UNIX_DELTA: i64 = 11_644_473_600;

/// Build a Windows `FILETIME` (100 ns since 1601) from whole Unix seconds: a **zero
/// sub-second** value (the timestomp tell).
pub fn filetime_secs(unix_secs: i64) -> (r: u64)
    requires
        i64::MIN <= (unix_secs + FILETIME_UNIX_DELTA) * 10_000_000 <= i64::MAX,
    ensures
        r == ((unix_secs + FILETIME_UNIX_DELTA) * 10_000_000) as u64,
        unix_secs >= -11_644_473_600 ==> instant_of(r) == unix_secs * 1_000_000,
{
    ((unix_secs + FILETIME_UNIX_DELTA) * 10_000_000) as u64
}

/// Build a `FILETIME` from Unix microseconds (carries a sub-second fraction).
pub fn filetime_micros(unix_micros: i64) -> (r: u64)
    requires
        i64::MIN <= (unix_micros + FILETIME_UNIX_DELTA * 1_000_000) * 10 <= i64::MAX,
    ensures
        r == ((unix_micros + FILETIME_UNIX_DELTA * 1_000_000) * 10) as u64,
        unix_micros >= -11_644_473_600_000_000 ==> instant_of(r) == unix_micros,
{
    ((unix_micros + FILETIME_UNIX_DELTA * 1_000_000) * 10) as u64
}

/// A MACB quad in raw `FILETIME` units.
#[derive(Clone, Copy, Debug, PartialEq, Eq, Structural)]
pub struct Times {
    pub created: u64,
    pub modified: u64,
    pub mft_modified: u64,
    pub accessed: u64,
}

/// The quad whose four times are equal.
pub open spec fn uniform(f: u64) -> Times {
    Times { created: f, modified: f, mft_modified: f, accessed: f }
}

impl Times {
    /// All four equal, from whole Unix seconds.
    pub fn uniform_secs(unix_secs: i64) -> (r: Self)
        requires
            i64::MIN <= (unix_secs + FILETIME_UNIX_DELTA) * 10_000_000 <= i64::MAX,
        ensures
            r == uniform(((unix_secs + FILETIME_UNIX_DELTA) * 10_000_000) as u64),
    {
        let f: u64 = filetime_secs(unix_secs);
        Times { created: f, modified: f, mft_modified: f, accessed: f }
    }

    /// All four equal, from Unix microseconds (sub-second fraction preserved).
    pub fn uniform_micros(unix_micros: i64) -> (r: Self)
        requires
            i64::MIN <= (unix_micros + FILETIME_UNIX_DELTA * 1_000_000) * 10 <= i64::MAX,
        ensures
            r == uniform(((unix_micros + FILETIME_UNIX_DELTA * 1_000_000) * 10) as u64),
    {
        let f: u64 = filetime_micros(unix_micros);
        Times { created: f, modified: f, mft_modified: f, accessed: f }
    }

    /// Appends the four times.
    fn write_into(&self, out: &mut Vec<u8>)
        ensures
            final(out)@ == old(out)@ + times_bytes(*self),
    {
        push_u64(out, self.created);
        push_u64(out, self.modified);
        push_u64(out, self.mft_modified);
        push_u64(out, self.accessed);
        assert(out@ =~= old(out)@ + times_bytes(*self)) by {
            reveal(times_bytes);
        }
    }
}

/// The two bytes of `v`, low first.
pub open spec fn le2(v: u16) -> Seq<u8> {
    seq![(v % 0x100) as u8, (v / 0x100) as u8]
}

/// The four bytes of `v`, low first.
pub open spec fn le4(v: u32) -> Seq<u8> {
    le2((v % 0x1_0000) as u16) + le2((v / 0x1_0000) as u16)
}

/// The eight bytes of `v`, low first.
pub open spec fn le8(v: u64) -> Seq<u8> {
    le4((v % 0x1_0000_0000) as u32) + le4((v / 0x1_0000_0000) as u32)
}

/// The bytes of four times: created, modified, record changed, accessed.
#[verifier::opaque]
pub open spec fn times_bytes(t: Times) -> Seq<u8> {
    le8(t.created) + le8(t.modified) + le8(t.mft_modified) + le8(t.accessed)
}

/// Appends the two bytes of `v`.
fn push_u16(out: &mut Vec<u8>, v: u16)
    ensures
        final(out)@ == old(out)@ + le2(v),
{
    out.push((v % 0x100) as u8);
    out.push((v / 0x100) as u8);
    assert(out@ =~= old(out)@ + le2(v));
}

/// Appends the four bytes of `v`.
fn push_u32(out: &mut Vec<u8>, v: u32)
    ensures
        final(out)@ == old(out)@ + le4(v),
{
    push_u16(out, (v % 0x1_0000) as u16);
    push_u16(out, (v / 0x1_0000) as u16);
    assert(out@ =~= old(out)@ + le4(v));
}

/// Appends the eight bytes of `v`.
fn push_u64(out: &mut Vec<u8>, v: u64)
    ensures
        final(out)@ == old(out)@ + le8(v),
{
    push_u32(out, (v % 0x1_0000_0000) as u32);
    push_u32(out, (v / 0x1_0000_0000) as u32);
    assert(out@ =~= old(out)@ + le8(v));
}

/// The UTF-16 little-endian bytes of a character: one unit, or a surrogate pair.
pub open spec fn char_utf16le(c: char) -> Seq<u8> {
    let v = c as u32;
    if v < 0x1_0000 {
        le2(v as u16)
    } else {
        le2((0xD800 + (v - 0x1_0000) / 0x400) as u16) + le2(
            (0xDC00 + (v - 0x1_0000) % 0x400) as u16,
        )
    }
}

/// The UTF-16 little-endian bytes of a text.
pub open spec fn utf16le_bytes(s: Seq<char>) -> Seq<u8>
    decreases s.len(),
{
    if s.len() == 0 {
        Seq::empty()
    } else {
        utf16le_bytes(s.drop_last()) + char_utf16le(s.last())
    }
}

/// The bytes of an optional name; none where there is no name.
pub open spec fn opt_utf16le(name: Option<Seq<char>>) -> Seq<u8> {
    match name {
        Some(n) => utf16le_bytes(n),
        None => Seq::empty(),
    }
}

/// Encodes a text as UTF-16 little-endian bytes.
fn utf16le(s: &str) -> (r: Vec<u8>)
    ensures
        r@ == utf16le_bytes(s@),
{
    let mut out: Vec<u8> = Vec::new();
    for c in it: s.chars()
        invariant
            it.seq() == s@,
            out@ == utf16le_bytes(s@.take(it.index())),
    {
        let v: u32 = c as u32;
        if v < 0x1_0000 {
            push_u16(&mut out, v as u16);
        } else {
            push_u16(&mut out, (0xD800 + (v - 0x1_0000) / 0x400) as u16);
            push_u16(&mut out, (0xDC00 + (v - 0x1_0000) % 0x400) as u16);
        }
        proof {
            let done = s@.take(it.index() as int + 1);
            assert(done.drop_last() =~= s@.take(it.index() as int));
            assert(done.last() == c);
            assert(out@ =~= utf16le_bytes(done));
        }
    }
    assert(s@.take(s@.len() as int) =~= s@);
    out
}

/// `n` rounded up to a multiple of eight.
pub open spec fn rounded8(n: int) -> int {
    (n + 7) / 8 * 8
}

fn round8(n: usize) -> (r: usize)
    requires
        n + 7 <= usize::MAX,
    ensures
        r == rounded8(n as int),
{
    (n + 7) / 8 * 8
}

/// `s` followed by zeros up to `len` bytes.
pub open spec fn zero_padded(s: Seq<u8>, len: int) -> Seq<u8> {
    s + Seq::new((len - s.len()) as nat, |i: int| 0u8)
}

/// Appends zeros up to `len` bytes.
fn pad_zeros(out: &mut Vec<u8>, len: usize)
    requires
        old(out)@.len() <= len,
    ensures
        final(out)@ == zero_padded(old(out)@, len as int),
{
    out.resize(len, 0);
    assert(out@ =~= zero_padded(old(out)@, len as int)) by {
        let n = old(out)@.len() as int;
        assert forall|i: int| 0 <= i < n implies out@[i] == old(out)@[i] by {
            if n < len {
                assert(out@.subrange(0, n)[i] == old(out)@[i]);
            }
        }
    }
}

/// The bytes of a resident attribute before padding: common header, resident header,
/// name, content.
pub open spec fn resident_attr_body(
    type_id: u32,
    instance: u16,
    name: Option<Seq<char>>,
    content: Seq<u8>,
) -> Seq<u8> {
    let name_bytes = opt_utf16le(name);
    let name_units = (name_bytes.len() / 2) as u8;
    let data_offset = 24 + name_bytes.len();
    let name_offset: u16 = if name_units > 0 {
        24
    } else {
        0
    };
    le4(type_id) + le4(rounded8((data_offset + content.len()) as int) as u32) + seq![0u8, name_units] + le2(
        name_offset,
    ) + le2(0) + le2(instance) + le4(content.len() as u32) + le2(data_offset as u16) + seq![
        0u8,
        0u8,
    ] + name_bytes + content
}

/// The bytes of a resident attribute, padded to a multiple of eight.
#[verifier::opaque]
pub open spec fn resident_attr_bytes(
    type_id: u32,
    instance: u16,
    name: Option<Seq<char>>,
    content: Seq<u8>,
) -> Seq<u8> {
    zero_padded(
        resident_attr_body(type_id, instance, name, content),
        rounded8((24 + opt_utf16le(name).len() + content.len()) as int),
    )
}

/// The text of an optional string slice.
pub open spec fn opt_str(s: Option<&str>) -> Option<Seq<char>> {
    match s {
        Some(t) => Some(t@),
        None => None,
    }
}

/// Encode a resident attribute (header, resident header, optional name, content),
/// padded to an 8-byte multiple.
fn resident_attr(type_id: u32, instance: u16, name: Option<&str>, content: &[u8]) -> (r: Vec<u8>)
    requires
        24 + opt_utf16le(opt_str(name)).len() + content@.len() + 7 <= usize::MAX,
    ensures
        r@ == resident_attr_bytes(type_id, instance, opt_str(name), content@),
{
    let name_bytes: Vec<u8> = match name {
        Some(n) => utf16le(n),
        None => Vec::new(),
    };
    let name_units: u8 = (name_bytes.len() / 2) as u8;
    let name_offset: u16 = if name_units > 0 {
        24
    } else {
        0
    };
    let data_offset: usize = 24 + name_bytes.len();
    let record_length: usize = round8(data_offset + content.len());
    let mut a: Vec<u8> = Vec::with_capacity(record_length);
    push_u32(&mut a, type_id);
    push_u32(&mut a, record_length as u32);
    a.push(0);
    a.push(name_units);
    push_u16(&mut a, name_offset);
    push_u16(&mut a, 0);
    push_u16(&mut a, instance);
    push_u32(&mut a, content.len() as u32);
    push_u16(&mut a, data_offset as u16);
    a.push(0);
    a.push(0);
    assert(a@.len() == 24);
    a.extend_from_slice(name_bytes.as_slice());
    a.extend_from_slice(content);
    proof {
        reveal(resident_attr_bytes);
    }
    assert(a@ =~= resident_attr_body(type_id, instance, opt_str(name), content@));
    pad_zeros(&mut a, record_length);
    a
}

/// The bytes of a non-resident attribute (an empty data-run list), padded to a
/// multiple of eight.
#[verifier::opaque]
pub open spec fn non_resident_attr_bytes(
    type_id: u32,
    instance: u16,
    logical_size: u64,
    physical_size: u64,
) -> Seq<u8> {
    zero_padded(
        le4(type_id) + le4(72) + seq![1u8, 0u8] + le2(0) + le2(0) + le2(instance) + le8(0) + le8(0)
            + le2(64) + le2(0) + le4(0) + le8(physical_size) + le8(logical_size) + le8(
            logical_size,
        ),
        72,
    )
}

/// Encode an unnamed non-resident attribute (size-only; an empty data-run list):
/// 16-byte common header, 48-byte non-resident header, then the data runs (a single
/// 0x00 end marker).
fn non_resident_attr(type_id: u32, instance: u16, logical_size: u64, physical_size: u64) -> (r: Vec<
    u8,
>)
    ensures
        r@ == non_resident_attr_bytes(type_id, instance, logical_size, physical_size),
{
    let mut a: Vec<u8> = Vec::with_capacity(72);
    push_u32(&mut a, type_id);
    push_u32(&mut a, 72);
    a.push(1);
    a.push(0);
    push_u16(&mut a, 0);
    push_u16(&mut a, 0);
    push_u16(&mut a, instance);
    push_u64(&mut a, 0);
    push_u64(&mut a, 0);
    push_u16(&mut a, 64);
    push_u16(&mut a, 0);
    push_u32(&mut a, 0);
    push_u64(&mut a, physical_size);
    push_u64(&mut a, logical_size);
    push_u64(&mut a, logical_size);
    proof {
        reveal(non_resident_attr_bytes);
    }
    assert(a@ =~= le4(type_id) + le4(72) + seq![1u8, 0u8] + le2(0) + le2(0) + le2(instance) + le8(0)
        + le8(0) + le2(64) + le2(0) + le4(0) + le8(physical_size) + le8(logical_size) + le8(
        logical_size,
    ));
    pad_zeros(&mut a, 72);
    a
}

/// `$STANDARD_INFORMATION` (0x10) content: times, flags, five zero words, quota, USN.
#[verifier::opaque]
pub open spec fn standard_info_bytes(t: Times, dos_flags: u32, usn: u64) -> Seq<u8> {
    times_bytes(t) + le4(dos_flags) + le4(0) + le4(0) + le4(0) + le4(0) + le4(0) + le8(0) + le8(usn)
}

fn standard_info_content(t: &Times, dos_flags: u32, usn: u64) -> (r: Vec<u8>)
    ensures
        r@ == standard_info_bytes(*t, dos_flags, usn),
        r@.len() == 72,
{
    let mut c: Vec<u8> = Vec::with_capacity(72);
    t.write_into(&mut c);
    push_u32(&mut c, dos_flags);
    push_u32(&mut c, 0);
    push_u32(&mut c, 0);
    push_u32(&mut c, 0);
    push_u32(&mut c, 0);
    push_u32(&mut c, 0);
    push_u64(&mut c, 0);
    push_u64(&mut c, usn);
    proof {
        reveal(times_bytes);
        reveal(standard_info_bytes);
    }
    assert(c@ =~= standard_info_bytes(*t, dos_flags, usn));
    c
}

/// A file reference: the low six bytes of the entry number, then the sequence.
pub open spec fn reference(entry: u64, seq: u16) -> int {
    entry % 0x1_0000_0000_0000 + seq * 0x1_0000_0000_0000
}

/// `$FILE_NAME` (0x30) content: parent reference, times, sizes, flags, reparse value,
/// name length in units, namespace, name.
#[verifier::opaque]
pub open spec fn file_name_bytes(
    parent_entry: u64,
    parent_seq: u16,
    t: Times,
    logical: u64,
    physical: u64,
    flags: u32,
    namespace: u8,
    name: Seq<char>,
) -> Seq<u8> {
    le8(reference(parent_entry, parent_seq) as u64) + times_bytes(t) + le8(logical) + le8(physical)
        + le4(flags) + le4(0) + seq![(utf16le_bytes(name).len() / 2) as u8, namespace]
        + utf16le_bytes(name)
}

fn file_name_content(
    parent_entry: u64,
    parent_seq: u16,
    t: &Times,
    logical: u64,
    physical: u64,
    flags: u32,
    namespace: u8,
    name: &str,
) -> (r: Vec<u8>)
    ensures
        r@ == file_name_bytes(
            parent_entry,
            parent_seq,
            *t,
            logical,
            physical,
            flags,
            namespace,
            name@,
        ),
        r@.len() == 66 + utf16le_bytes(name@).len(),
{
    let mut c: Vec<u8> = Vec::new();
    let parent_ref: u64 = parent_entry % 0x1_0000_0000_0000 + parent_seq as u64
        * 0x1_0000_0000_0000;
    push_u64(&mut c, parent_ref);
    t.write_into(&mut c);
    push_u64(&mut c, logical);
    push_u64(&mut c, physical);
    push_u32(&mut c, flags);
    push_u32(&mut c, 0);
    let name_bytes = utf16le(name);
    c.push((name_bytes.len() / 2) as u8);
    c.push(namespace);
    c.extend_from_slice(name_bytes.as_slice());
    proof {
        reveal(times_bytes);
        reveal(file_name_bytes);
    }
    assert(c@ =~= file_name_bytes(
        parent_entry,
        parent_seq,
        *t,
        logical,
        physical,
        flags,
        namespace,
        name@,
    ));
    c
}

/// A FILE record under construction.
pub struct RecordBuilder {
    entry: u64,
    sequence: u16,
    hard_link_count: u16,
    flags: u16,
    base_ref: u64,
    lsn: u64,
    next_instance: u16,
    attrs: Vec<u8>,
    /// `FILE`, or another signature for malformed fixtures.
    signature: [u8; 4],
    break_fixup: bool,
}

/// The contents of a [`RecordBuilder`].
#[verifier::ext_equal]
pub struct BuilderModel {
    pub entry: u64,
    pub sequence: u16,
    pub hard_link_count: u16,
    pub flags: u16,
    pub base_ref: u64,
    pub lsn: u64,
    pub next_instance: u16,
    pub attrs: Seq<u8>,
    pub signature: Seq<u8>,
    pub break_fixup: bool,
}

impl View for RecordBuilder {
    type V = BuilderModel;

    closed spec fn view(&self) -> BuilderModel {
        BuilderModel {
            entry: self.entry,
            sequence: self.sequence,
            hard_link_count: self.hard_link_count,
            flags: self.flags,
            base_ref: self.base_ref,
            lsn: self.lsn,
            next_instance: self.next_instance,
            attrs: self.attrs@,
            signature: self.signature@,
            break_fixup: self.break_fixup,
        }
    }
}

impl BuilderModel {
    /// This record with one more attribute.
    pub open spec fn with_attr(self, bytes: Seq<u8>) -> BuilderModel {
        BuilderModel {
            next_instance: (self.next_instance + 1) as u16,
            attrs: self.attrs + bytes,
            ..self
        }
    }
}

/// The signature that no parser knows.
pub open spec fn junk_signature() -> Seq<u8> {
    seq![0x4Au8, 0x55u8, 0x4Eu8, 0x4Bu8]
}

/// Some flags with `bit` set or cleared.
pub open spec fn flagged(flags: u16, bit: u16, yes: bool) -> u16 {
    if yes {
        flags | bit
    } else {
        flags & !bit
    }
}

impl RecordBuilder {
    /// An allocated record with one hard link and no attributes.
    pub fn new(entry: u64, sequence: u16) -> (r: Self)
        ensures
            r@ == (BuilderModel {
                entry,
                sequence,
                hard_link_count: 1,
                flags: 1,
                base_ref: 0,
                lsn: 0,
                next_instance: 0,
                attrs: Seq::empty(),
                signature: file_signature(),
                break_fixup: false,
            }),
    {
        let r = RecordBuilder {
            entry,
            sequence,
            hard_link_count: 1,
            flags: 0x01,
            base_ref: 0,
            lsn: 0,
            next_instance: 0,
            attrs: Vec::new(),
            signature: [0x46, 0x49, 0x4C, 0x45],
            break_fixup: false,
        };
        assert(r@.signature =~= file_signature());
        r
    }

    pub fn allocated(self, yes: bool) -> (r: Self)
        ensures
            r@.flags == flagged(self@.flags, 0x01, yes),
            r@ == (BuilderModel {
                flags: if yes {
                    self@.flags | 0x01
                } else {
                    self@.flags & !0x01u16
                },
                ..self@
            }),
    {
        let mut b = self;
        if yes {
            b.flags = b.flags | 0x01;
        } else {
            b.flags = b.flags & !0x01u16;
        }
        b
    }

    pub fn directory(self, yes: bool) -> (r: Self)
        ensures
            r@.flags == flagged(self@.flags, 0x02, yes),
            r@ == (BuilderModel {
                flags: if yes {
                    self@.flags | 0x02
                } else {
                    self@.flags & !0x02u16
                },
                ..self@
            }),
    {
        let mut b = self;
        if yes {
            b.flags = b.flags | 0x02;
        } else {
            b.flags = b.flags & !0x02u16;
        }
        b
    }

    pub fn hard_links(self, n: u16) -> (r: Self)
        ensures
            r@ == (BuilderModel { hard_link_count: n, ..self@ }),
    {
        let mut b = self;
        b.hard_link_count = n;
        b
    }

    pub fn lsn(self, lsn: u64) -> (r: Self)
        ensures
            r@ == (BuilderModel { lsn, ..self@ }),
    {
        let mut b = self;
        b.lsn = lsn;
        b
    }

    pub fn baad(self) -> (r: Self)
        ensures
            r@ == (BuilderModel { signature: baad_signature(), ..self@ }),
    {
        let mut b = self;
        b.signature = [0x42, 0x41, 0x41, 0x44];
        assert(b@.signature =~= baad_signature());
        b
    }

    pub fn bad_signature(self) -> (r: Self)
        ensures
            r@ == (BuilderModel { signature: junk_signature(), ..self@ }),
    {
        let mut b = self;
        b.signature = [0x4A, 0x55, 0x4E, 0x4B];
        assert(b@.signature =~= junk_signature());
        b
    }

    pub fn break_fixup(self) -> (r: Self)
        ensures
            r@ == (BuilderModel { break_fixup: true, ..self@ }),
    {
        let mut b = self;
        b.break_fixup = true;
        b
    }

    /// This record with one more attribute.
    fn push_attr(self, bytes: Vec<u8>) -> (r: Self)
        requires
            self@.next_instance < u16::MAX,
        ensures
            r@ == self@.with_attr(bytes@),
    {
        let mut b = self;
        b.next_instance = b.next_instance + 1;
        b.attrs.extend_from_slice(bytes.as_slice());
        assert(b@.attrs =~= self@.attrs + bytes@);
        b
    }

    pub fn standard_info(self, t: Times, dos_flags: u32, usn: u64) -> (r: Self)
        requires
            self@.next_instance < u16::MAX,
        ensures
            r@ == self@.with_attr(
                resident_attr_bytes(
                    0x10,
                    self@.next_instance,
                    None,
                    standard_info_bytes(t, dos_flags, usn),
                ),
            ),
    {
        let content = standard_info_content(&t, dos_flags, usn);
        let bytes = resident_attr(0x10, self.next_instance, None, content.as_slice());
        self.push_attr(bytes)
    }

    pub fn file_name(
        self,
        parent_entry: u64,
        parent_seq: u16,
        t: Times,
        logical: u64,
        physical: u64,
        flags: u32,
        namespace: u8,
        name: &str,
    ) -> (r: Self)
        requires
            self@.next_instance < u16::MAX,
            97 + utf16le_bytes(name@).len() <= usize::MAX,
        ensures
            r@ == self@.with_attr(
                resident_attr_bytes(
                    0x30,
                    self@.next_instance,
                    None,
                    file_name_bytes(
                        parent_entry,
                        parent_seq,
                        t,
                        logical,
                        physical,
                        flags,
                        namespace,
                        name@,
                    ),
                ),
            ),
    {
        let content = file_name_content(
            parent_entry,
            parent_seq,
            &t,
            logical,
            physical,
            flags,
            namespace,
            name,
        );
        let bytes = resident_attr(0x30, self.next_instance, None, content.as_slice());
        self.push_attr(bytes)
    }

    /// A resident unnamed `$DATA` (inline file content).
    pub fn data_resident(self, content: &[u8]) -> (r: Self)
        requires
            self@.next_instance < u16::MAX,
            31 + content@.len() <= usize::MAX,
        ensures
            r@ == self@.with_attr(
                resident_attr_bytes(0x80, self@.next_instance, None, content@),
            ),
    {
        let bytes = resident_attr(0x80, self.next_instance, None, content);
        self.push_attr(bytes)
    }

    /// A non-resident unnamed `$DATA` (size only).
    pub fn data_non_resident(self, logical: u64, physical: u64) -> (r: Self)
        requires
            self@.next_instance < u16::MAX,
        ensures
            r@ == self@.with_attr(
                non_resident_attr_bytes(0x80, self@.next_instance, logical, physical),
            ),
    {
        let bytes = non_resident_attr(0x80, self.next_instance, logical, physical);
        self.push_attr(bytes)
    }

    /// A named `$DATA` (an alternate data stream) carrying resident bytes.
    pub fn ads_resident(self, name: &str, content: &[u8]) -> (r: Self)
        requires
            self@.next_instance < u16::MAX,
            31 + utf16le_bytes(name@).len() + content@.len() <= usize::MAX,
        ensures
            r@ == self@.with_attr(
                resident_attr_bytes(0x80, self@.next_instance, Some(name@), content@),
            ),
    {
        let bytes = resident_attr(0x80, self.next_instance, Some(name), content);
        self.push_attr(bytes)
    }
}

/// The attribute terminator.
pub open spec fn terminator() -> Seq<u8> {
    seq![0xFFu8, 0xFFu8, 0xFFu8, 0xFFu8]
}

/// Whether a record's attributes and their terminator fit in its 1024 bytes.
pub open spec fn fits(b: BuilderModel) -> bool {
    FIRST_ATTR_OFFSET + b.attrs.len() + 4 <= RECORD_SIZE
}

/// The 56 bytes in front of the attributes, with an empty update sequence array.
#[verifier::opaque]
pub open spec fn header_bytes(b: BuilderModel) -> Seq<u8> {
    b.signature + le2(0x30) + le2(3) + le8(b.lsn) + le2(b.sequence) + le2(b.hard_link_count) + le2(
        0x38,
    ) + le2(b.flags) + le4((FIRST_ATTR_OFFSET + b.attrs.len() + 4) as u32) + le4(1024) + le8(
        b.base_ref,
    ) + le2(b.next_instance) + Seq::new(14, |i: int| 0u8)
}

/// The record as it is before the fixup.
pub open spec fn plain_bytes(b: BuilderModel) -> Seq<u8> {
    zero_padded(header_bytes(b) + b.attrs + terminator(), RECORD_SIZE as int)
}

/// A record with its fixup: the update-sequence word (1) and the two saved sector
/// tails in the array, and the word in the tails. A broken fixup spoils the last
/// byte.
pub open spec fn with_fixup(s: Seq<u8>, broken: bool) -> Seq<u8> {
    s.update(0x30, 1).update(0x31, 0).update(0x32, s[510]).update(0x33, s[511]).update(
        0x34,
        s[1022],
    ).update(0x35, s[1023]).update(510, 1).update(511, 0).update(1022, 1).update(
        1023,
        if broken {
            0xEE
        } else {
            0
        },
    )
}

/// The bytes of a finished record: only a `FILE` record gets a fixup.
pub open spec fn record_bytes(b: BuilderModel) -> Seq<u8> {
    if b.signature == file_signature() {
        with_fixup(plain_bytes(b), b.break_fixup)
    } else {
        plain_bytes(b)
    }
}

impl RecordBuilder {
    /// The record before the fixup.
    fn plain(&self) -> (r: Vec<u8>)
        requires
            fits(self@),
        ensures
            r@ == plain_bytes(self@),
            r@.len() == RECORD_SIZE,
    {
        let mut buf: Vec<u8> = Vec::with_capacity(RECORD_SIZE);
        buf.push(self.signature[0]);
        buf.push(self.signature[1]);
        buf.push(self.signature[2]);
        buf.push(self.signature[3]);
        assert(buf@ =~= self@.signature);
        push_u16(&mut buf, 0x30);
        push_u16(&mut buf, 3);
        push_u64(&mut buf, self.lsn);
        push_u16(&mut buf, self.sequence);
        push_u16(&mut buf, self.hard_link_count);
        push_u16(&mut buf, 0x38);
        push_u16(&mut buf, self.flags);
        push_u32(&mut buf, (FIRST_ATTR_OFFSET + self.attrs.len() + 4) as u32);
        push_u32(&mut buf, 1024);
        push_u64(&mut buf, self.base_ref);
        push_u16(&mut buf, self.next_instance);
        assert(buf@.len() == 42);
        pad_zeros(&mut buf, FIRST_ATTR_OFFSET);
        assert(buf@ =~= header_bytes(self@)) by {
            reveal(header_bytes);
        }
        buf.extend_from_slice(self.attrs.as_slice());
        buf.push(0xFF);
        buf.push(0xFF);
        buf.push(0xFF);
        buf.push(0xFF);
        assert(buf@ =~= header_bytes(self@) + self@.attrs + terminator());
        pad_zeros(&mut buf, RECORD_SIZE);
        buf
    }

    /// Serialize this record to its 1024 fixed bytes. Its attributes must fit.
    pub fn build(&self) -> (r: Vec<u8>)
        requires
            fits(self@),
        ensures
            r@ == record_bytes(self@),
            r@.len() == RECORD_SIZE,
    {
        let mut buf = self.plain();
        let sig = &self.signature;
        let file = sig[0] == 0x46 && sig[1] == 0x49 && sig[2] == 0x4C && sig[3] == 0x45;
        proof {
            let want = file_signature();
            assert(want[0] == 0x46 && want[1] == 0x49 && want[2] == 0x4C && want[3] == 0x45);
            if file {
                assert(self@.signature =~= want);
            }
        }
        // Save the real sector-tail bytes into the array's slots, then write the
        // update-sequence word into the array and the tails.
        if file {
            let tail1 = (buf[510], buf[511]);
            let tail2 = (buf[1022], buf[1023]);
            buf[0x30] = 1;
            buf[0x31] = 0;
            buf[0x32] = tail1.0;
            buf[0x33] = tail1.1;
            buf[0x34] = tail2.0;
            buf[0x35] = tail2.1;
            buf[510] = 1;
            buf[511] = 0;
            buf[1022] = 1;
            buf[1023] = if self.break_fixup {
                0xEE
            } else {
                0
            };
        }
        buf
    }

    /// The entry number of this record.
    pub fn entry(&self) -> (r: u64)
        ensures
            r == self@.entry,
    {
        self.entry
    }
}

/// Records (ordered by entry number, gaps zero-filled) to be concatenated into a
/// single `$MFT` byte image.
pub struct MftBuilder {
    records: Vec<(u64, Vec<u8>)>,
}

/// The contents of a list of records.
pub open spec fn records_model(records: Seq<(u64, Vec<u8>)>) -> Seq<(u64, Seq<u8>)> {
    records.map_values(|r: (u64, Vec<u8>)| (r.0, r.1@))
}

impl View for MftBuilder {
    type V = Seq<(u64, Seq<u8>)>;

    closed spec fn view(&self) -> Seq<(u64, Seq<u8>)> {
        records_model(self.records@)
    }
}

/// The largest entry number of some records; 0 where there are none.
pub open spec fn max_entry(records: Seq<(u64, Seq<u8>)>) -> u64
    decreases records.len(),
{
    if records.len() == 0 {
        0
    } else if records.last().0 > max_entry(records.drop_last()) {
        records.last().0
    } else {
        max_entry(records.drop_last())
    }
}

/// The bytes of the last record added under number `entry`; zeros where there is
/// none.
pub open spec fn record_for(records: Seq<(u64, Seq<u8>)>, entry: int) -> Seq<u8>
    decreases records.len(),
{
    if records.len() == 0 {
        Seq::new(1024, |i: int| 0u8)
    } else if records.last().0 == entry {
        records.last().1
    } else {
        record_for(records.drop_last(), entry)
    }
}

/// The first `slots` slots of the image of some records.
pub open spec fn image_of(records: Seq<(u64, Seq<u8>)>, slots: nat) -> Seq<u8> {
    Seq::new(slots * 1024, |i: int| record_for(records, i / 1024)[i % 1024])
}

impl MftBuilder {
    #[verifier::type_invariant]
    spec fn wf(self) -> bool {
        forall|i: int| 0 <= i < self.records@.len() ==> (#[trigger] self.records@[i]).1@.len() == 1024
    }

    pub fn new() -> (r: Self)
        ensures
            r@ == Seq::<(u64, Seq<u8>)>::empty(),
    {
        let r = MftBuilder { records: Vec::new() };
        assert(r@ =~= Seq::empty());
        r
    }

    /// Adds a record. A later record with the same number replaces an earlier one.
    pub fn add(self, rec: &RecordBuilder) -> (r: Self)
        requires
            fits(rec@),
        ensures
            r@ == self@.push((rec@.entry, record_bytes(rec@))),
    {
        proof {
            use_type_invariant(&self);
        }
        let mut records = self.records;
        records.push((rec.entry(), rec.build()));
        let r = MftBuilder { records };
        assert(r@ =~= self@.push((rec@.entry, record_bytes(rec@))));
        r
    }

    /// Build the contiguous `$MFT` image. Entry 0 should be present (the stride is
    /// read from it); missing entries below the largest are zero-filled empty slots.
    pub fn finish(self) -> (r: Vec<u8>)
        requires
            (max_entry(self@) + 1) * 1024 <= usize::MAX,
        ensures
            r@ == image_of(self@, (max_entry(self@) + 1) as nat),
    {
        proof {
            use_type_invariant(&self);
        }
        let ghost all = self@;
        let mut max: u64 = 0;
        let mut i: usize = 0;
        while i < self.records.len()
            invariant
                i <= self.records@.len(),
                all == records_model(self.records@),
                max == max_entry(all.take(i as int)),
            decreases self.records@.len() - i,
        {
            proof {
                let done = all.take(i + 1);
                assert(done.drop_last() =~= all.take(i as int));
                assert(done.last() == all[i as int]);
            }
            if self.records[i].0 > max {
                max = self.records[i].0;
            }
            i = i + 1;
        }
        assert(all.take(all.len() as int) =~= all);
        let size: usize = (max as usize + 1) * 1024;
        let mut out: Vec<u8> = Vec::new();
        out.resize(size, 0);
        let ghost slots = (max + 1) as nat;
        proof {
            assert(out@ =~= image_of(all.take(0), slots));
        }
        let mut j: usize = 0;
        while j < self.records.len()
            invariant
                j <= self.records@.len(),
                all == records_model(self.records@),
                forall|k: int| 0 <= k < all.len() ==> (#[trigger] all[k]).1.len() == 1024,
                max == max_entry(all),
                slots == max + 1,
                slots * 1024 <= usize::MAX,
                out@ == image_of(all.take(j as int), slots),
            decreases self.records@.len() - j,
        {
            proof {
                lemma_max_entry(all, j as int);
            }
            let entry: u64 = self.records[j].0;
            assert(all[j as int].0 == entry);
            assert((entry + 1) * 1024 <= slots * 1024);
            let start: usize = entry as usize * 1024;
            let ghost before = out@;
            let mut i: usize = 0;
            assert(all[j as int].1.len() == 1024);
            assert(self.records@[j as int].1@ == all[j as int].1);
            while i < 1024
                invariant
                    i <= 1024,
                    j < self.records@.len(),
                    self.records@[j as int].1@.len() == 1024,
                    start + 1024 <= out@.len() <= usize::MAX,
                    out@.len() == before.len(),
                    forall|k: int| 0 <= k < out@.len() ==> #[trigger] out@[k] == (if start <= k < start
                        + i {
                        self.records@[j as int].1@[k - start]
                    } else {
                        before[k]
                    }),
                decreases 1024 - i,
            {
                out[start + i] = self.records[j].1[i];
                i = i + 1;
            }
            proof {
                let done = all.take(j + 1);
                assert(done.drop_last() =~= all.take(j as int));
                assert(done.last() == all[j as int]);
                assert forall|k: int| 0 <= k < out@.len() implies out@[k] == image_of(
                    done,
                    slots,
                )[k] by {
                    if start <= k < start + 1024 {
                        assert(k / 1024 == entry);
                        assert(k % 1024 == k - start);
                    } else {
                        assert(k / 1024 != entry);
                    }
                }
                assert(out@ =~= image_of(done, slots));
            }
            j = j + 1;
        }
        out
    }
}

impl Default for MftBuilder {
    fn default() -> (r: Self)
        ensures
            r@ == Seq::<(u64, Seq<u8>)>::empty(),
    {
        Self::new()
    }
}

/// No record has a number above the largest.
proof fn lemma_max_entry(records: Seq<(u64, Seq<u8>)>, i: int)
    requires
        0 <= i < records.len(),
    ensures
        records[i].0 <= max_entry(records),
    decreases records.len(),
{
    if i < records.len() - 1 {
        lemma_max_entry(records.drop_last(), i);
    }
}

/// Reading a 16-bit field back where it was written.
pub proof fn lemma_read_le2(s: Seq<u8>, i: int, v: u16)
    requires
        0 <= i,
        i + 2 <= s.len(),
        s.subrange(i, i + 2) == le2(v),
    ensures
        u16_at(s, i) == v,
{
    assert(s[i] == s.subrange(i, i + 2)[0]);
    assert(s[i + 1] == s.subrange(i, i + 2)[1]);
}

/// Reading a 32-bit field back where it was written.
pub proof fn lemma_read_le4(s: Seq<u8>, i: int, v: u32)
    requires
        0 <= i,
        i + 4 <= s.len(),
        s.subrange(i, i + 4) == le4(v),
    ensures
        u32_at(s, i) == v,
{
    let w = s.subrange(i, i + 4);
    assert(s.subrange(i, i + 2) =~= w.subrange(0, 2));
    assert(w.subrange(0, 2) =~= le2((v % 0x1_0000) as u16));
    assert(s.subrange(i + 2, i + 4) =~= w.subrange(2, 4));
    assert(w.subrange(2, 4) =~= le2((v / 0x1_0000) as u16));
    lemma_read_le2(s, i, (v % 0x1_0000) as u16);
    lemma_read_le2(s, i + 2, (v / 0x1_0000) as u16);
}

/// Reading a 64-bit field back where it was written.
pub proof fn lemma_read_le8(s: Seq<u8>, i: int, v: u64)
    requires
        0 <= i,
        i + 8 <= s.len(),
        s.subrange(i, i + 8) == le8(v),
    ensures
        u64_at(s, i) == v,
{
    let w = s.subrange(i, i + 8);
    assert(s.subrange(i, i + 4) =~= w.subrange(0, 4));
    assert(w.subrange(0, 4) =~= le4((v % 0x1_0000_0000) as u32));
    assert(s.subrange(i + 4, i + 8) =~= w.subrange(4, 8));
    assert(w.subrange(4, 8) =~= le4((v / 0x1_0000_0000) as u32));
    lemma_read_le4(s, i, (v % 0x1_0000_0000) as u32);
    lemma_read_le4(s, i + 4, (v / 0x1_0000_0000) as u32);
}

/// The header fields of a finished record are where the parser reads them.
#[verifier::spinoff_prover]
#[verifier::rlimit(40)]
pub proof fn lemma_header_fields(b: BuilderModel)
    requires
        fits(b),
        b.signature.len() == 4,
    ensures
        record_bytes(b).len() == 1024,
        signature_of(record_bytes(b)) == b.signature,
        u16_at(record_bytes(b), 4) == 0x30,
        u16_at(record_bytes(b), 6) == 3,
        u64_at(record_bytes(b), 8) == b.lsn,
        u16_at(record_bytes(b), 0x10) == b.sequence,
        u16_at(record_bytes(b), 0x12) == b.hard_link_count,
        u16_at(record_bytes(b), 0x14) == 0x38,
        u16_at(record_bytes(b), 0x16) == b.flags,
        u32_at(record_bytes(b), 0x18) == 0x38 + b.attrs.len() + 4,
        u32_at(record_bytes(b), 0x1C) == 1024,
        u64_at(record_bytes(b), 0x20) == b.base_ref,
{
    reveal(header_bytes);
    let s = record_bytes(b);
    let h = header_bytes(b);
    assert(s.len() == 1024);
    assert forall|i: int| 0 <= i < 0x2A implies s[i] == h[i] by {}
    assert(signature_of(s) =~= b.signature);
    let used = (FIRST_ATTR_OFFSET + b.attrs.len() + 4) as u32;
    assert(s.subrange(4, 6) =~= le2(0x30));
    lemma_read_le2(s, 4, 0x30);
    assert(s.subrange(6, 8) =~= le2(3));
    lemma_read_le2(s, 6, 3);
    assert(s.subrange(8, 0x10) =~= le8(b.lsn));
    lemma_read_le8(s, 8, b.lsn);
    assert(s.subrange(0x10, 0x12) =~= le2(b.sequence));
    lemma_read_le2(s, 0x10, b.sequence);
    assert(s.subrange(0x12, 0x14) =~= le2(b.hard_link_count));
    lemma_read_le2(s, 0x12, b.hard_link_count);
    assert(s.subrange(0x14, 0x16) =~= le2(0x38));
    lemma_read_le2(s, 0x14, 0x38);
    assert(s.subrange(0x16, 0x18) =~= le2(b.flags));
    lemma_read_le2(s, 0x16, b.flags);
    assert(s.subrange(0x18, 0x1C) =~= le4(used));
    lemma_read_le4(s, 0x18, used);
    assert(s.subrange(0x1C, 0x20) =~= le4(1024));
    lemma_read_le4(s, 0x1C, 1024);
    assert(s.subrange(0x20, 0x28) =~= le8(b.base_ref));
    lemma_read_le8(s, 0x20, b.base_ref);
}

/// The array fields of a record before its fixup.
proof fn lemma_plain_header(b: BuilderModel)
    requires
        fits(b),
        b.signature.len() == 4,
    ensures
        plain_bytes(b).len() == 1024,
        u16_at(plain_bytes(b), 4) == 0x30,
        u16_at(plain_bytes(b), 6) == 3,
{
    reveal(header_bytes);
    let s = plain_bytes(b);
    let h = header_bytes(b);
    assert forall|i: int| 0 <= i < 0x2A implies s[i] == h[i] by {}
    assert(s.subrange(4, 6) =~= le2(0x30));
    lemma_read_le2(s, 4, 0x30);
    assert(s.subrange(6, 8) =~= le2(3));
    lemma_read_le2(s, 6, 3);
}

/// Undoing a fixup restores the bytes outside the array, and tells whether the fixup
/// was broken.
proof fn lemma_fixup_undone(plain: Seq<u8>, broken: bool)
    requires
        plain.len() == 1024,
        u16_at(plain, 4) == 0x30,
        u16_at(plain, 6) == 3,
    ensures
        usa_offset(with_fixup(plain, broken)) == 0x30,
        usa_size(with_fixup(plain, broken)) == 3,
        fixup_matches(with_fixup(plain, broken)) == !broken,
        fixed_up(with_fixup(plain, broken)).len() == 1024,
        forall|i: int|
            0 <= i < 1024 && !(0x30 <= i < 0x36) ==> #[trigger] fixed_up(
                with_fixup(plain, broken),
            )[i] == plain[i],
{
    let s = with_fixup(plain, broken);
    assert(tail_matches(s, 0));
    if broken {
        assert(!tail_matches(s, 1));
    } else {
        assert(tail_matches(s, 1));
        assert forall|k: int| 0 <= k < usa_size(s) - 1 implies #[trigger] tail_matches(s, k) by {
            assert(k == 0 || k == 1);
        }
    }
    assert forall|i: int| 0 <= i < 1024 && !(0x30 <= i < 0x36) implies #[trigger] fixed_up(s)[i]
        == plain[i] by {
        if i == 510 {
            assert(i / 512 == 0 && i % 512 == 510);
        } else if i == 511 {
            assert(i / 512 == 0 && i % 512 == 511);
        } else if i == 1022 {
            assert(i / 512 == 1 && i % 512 == 510);
        } else if i == 1023 {
            assert(i / 512 == 1 && i % 512 == 511);
        } else {
            assert(!(i % 512 >= 510 && i / 512 < 2));
        }
    }
}

/// The three signatures differ.
pub proof fn lemma_signatures_differ()
    ensures
        file_signature() != baad_signature(),
        file_signature() != zero_signature(),
        baad_signature() != zero_signature(),
        file_signature()[0] != 0,
        baad_signature()[0] != 0,
        file_signature().len() == 4,
        baad_signature().len() == 4,
{
    assert(file_signature()[0] == 0x46);
    assert(baad_signature()[0] == 0x42);
    assert(zero_signature()[0] == 0);
}

/// What is written is read back: a finished `FILE` record parses, its header fields
/// come back (of the flags the four known ones), the sector tails that the fixup
/// overwrote are restored, and the fixup matches unless it was broken.
pub proof fn law_file_record_reads_back(b: BuilderModel, n: u64)
    requires
        fits(b),
        b.signature == file_signature(),
    ensures
        fixup_fits(record_bytes(b)),
        entry_of(record_bytes(b), n) is Ok,
        ({
            let e = entry_of(record_bytes(b), n)->Ok_0;
            &&& e.signature == b.signature
            &&& e.record_number == n
            &&& e.sequence == b.sequence
            &&& e.hard_link_count == b.hard_link_count
            &&& e.first_attribute == FIRST_ATTR_OFFSET
            &&& e.flags == b.flags & 0x0F
            &&& e.used_size == FIRST_ATTR_OFFSET + b.attrs.len() + 4
            &&& e.allocated_size == RECORD_SIZE
            &&& e.base_entry == reference_entry(b.base_ref)
            &&& e.lsn == b.lsn
            &&& e.valid_fixup == Some(!b.break_fixup)
            &&& e.data.len() == RECORD_SIZE
            &&& forall|i: int|
                0 <= i < 1024 && !(0x30 <= i < 0x36) ==> #[trigger] e.data[i] == plain_bytes(b)[i]
        }),
{
    let s = record_bytes(b);
    lemma_signatures_differ();
    lemma_header_fields(b);
    lemma_plain_header(b);
    lemma_fixup_undone(plain_bytes(b), b.break_fixup);
    assert(entry_of(s, n) == Ok::<EntryModel, EntryErrorModel>(full_entry(s, n)));
}

/// A finished record parses: with its signature, and, where it is a `FILE` record, with
/// the verdict on its fixup.
pub proof fn lemma_built_record_parses(b: BuilderModel, n: u64)
    requires
        fits(b),
        b.signature == file_signature() || b.signature == baad_signature(),
    ensures
        entry_of(record_bytes(b), n) is Ok,
        outcome_of(record_bytes(b), n) == OutcomeModel::Parsed(entry_of(record_bytes(b), n)->Ok_0),
        ({
            let e = entry_of(record_bytes(b), n)->Ok_0;
            &&& e.signature == b.signature
            &&& b.signature == file_signature() ==> e.valid_fixup == Some(!b.break_fixup)
        }),
{
    let s = record_bytes(b);
    lemma_signatures_differ();
    lemma_header_fields(b);
    assert(signature_of(s)[0] == s[0]);
    if b.signature == file_signature() {
        law_file_record_reads_back(b, n);
    } else {
        assert(entry_of(s, n) == Ok::<EntryModel, EntryErrorModel>(full_entry(s, n)));
    }
}

/// The largest number of some records is that of one of them, and none is larger.
pub proof fn law_max_entry_is_the_largest(records: Seq<(u64, Seq<u8>)>, i: int)
    requires
        0 <= i < records.len(),
    ensures
        records[i].0 <= max_entry(records),
        max_entry(records) > 0 ==> exists|j: int|
            0 <= j < records.len() && (#[trigger] records[j]).0 == max_entry(records),
    decreases records.len(),
{
    let before = records.drop_last();
    if i < before.len() {
        law_max_entry_is_the_largest(before, i);
    } else if before.len() > 0 {
        law_max_entry_is_the_largest(before, 0);
    }
    if records.last().0 > max_entry(before) {
        assert(records[records.len() - 1].0 == max_entry(records));
    } else if max_entry(records) > 0 {
        let j = choose|j: int|
            0 <= j < before.len() && (#[trigger] before[j]).0 == max_entry(before);
        assert(records[j].0 == max_entry(records));
    }
}

/// A later record replaces an earlier one of the same number, and leaves the others alone.
pub proof fn law_later_record_replaces(records: Seq<(u64, Seq<u8>)>, n: u64, bytes: Seq<u8>, m: int)
    ensures
        record_for(records.push((n, bytes)), n as int) == bytes,
        m != n ==> record_for(records.push((n, bytes)), m) == record_for(records, m),
        record_for(Seq::empty(), m) == Seq::new(1024, |i: int| 0u8),
{
    assert(records.push((n, bytes)).drop_last() =~= records);
}

/// The lowest flag is that of a record in use and the next one that of a directory: either
/// is set as asked for, and the other one stays as it is.
pub proof fn law_flags_are_set_apart(flags: u16, yes: bool)
    ensures
        flagged(flags, 1, yes) % 2 == 1 <==> yes,
        flagged(flags, 1, yes) / 2 == flags / 2,
        flagged(flags, 2, yes) / 2 % 2 == 1 <==> yes,
        flagged(flags, 2, yes) % 2 == flags % 2,
        flagged(flags, 2, yes) / 4 == flags / 4,
{
    assert((flags | 1) % 2 == 1 && (flags | 1) / 2 == flags / 2) by (bit_vector);
    assert((flags & !1u16) % 2 == 0 && (flags & !1u16) / 2 == flags / 2) by (bit_vector);
    assert((flags | 2) / 2 % 2 == 1 && (flags | 2) % 2 == flags % 2 && (flags | 2) / 4 == flags / 4)
        by (bit_vector);
    assert((flags & !2u16) / 2 % 2 == 0 && (flags & !2u16) % 2 == flags % 2 && (flags & !2u16) / 4
        == flags / 4) by (bit_vector);
}

} // verus!
