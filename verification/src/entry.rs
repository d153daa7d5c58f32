//! One FILE record as the `mft` crate parses it: the header fields, the record
//! bytes after the update-sequence fixup, and whether that fixup matched.

use vstd::prelude::*;

use mft::err::Error;
use mft::MftEntry;

use crate::bytes::{read_u16, u16_at, u32_at, u64_at};
use crate::errors::{EntryError, EntryErrorKind, EntryErrorModel};

verus! {

/// Bytes between two update-sequence words.
pub const SECTOR: usize = 512;

/// Bytes of the fixed part of a FILE record header.
pub const HEADER_LEN: usize = 42;

/// A parsed record.
#[derive(Clone, Debug, PartialEq, Eq)]
pub struct ParsedEntry {
    /// `FILE`, `BAAD`, or four zero bytes.
    pub signature: [u8; 4],
    pub record_number: u64,
    pub sequence: u16,
    pub hard_link_count: u16,
    /// Offset of the first attribute.
    pub first_attribute: u16,
    /// The known header flags: 1 in use, 2 directory, 4 extension, 8 special index.
    pub flags: u16,
    pub used_size: u32,
    pub allocated_size: u32,
    /// Entry number of the base record.
    pub base_entry: u64,
    /// `$LogFile` sequence number.
    pub lsn: u64,
    /// The record bytes, with the sector tails restored.
    pub data: Vec<u8>,
    /// Whether every sector tail held the update-sequence word; `None` where no
    /// fixup was applied.
    pub valid_fixup: Option<bool>,
}

/// The contents of a [`ParsedEntry`].
#[verifier::ext_equal]
pub struct EntryModel {
    pub signature: Seq<u8>,
    pub record_number: u64,
    pub sequence: u16,
    pub hard_link_count: u16,
    pub first_attribute: u16,
    pub flags: u16,
    pub used_size: u32,
    pub allocated_size: u32,
    pub base_entry: u64,
    pub lsn: u64,
    pub data: Seq<u8>,
    pub valid_fixup: Option<bool>,
}

impl View for ParsedEntry {
    type V = EntryModel;

    open spec fn view(&self) -> EntryModel {
        EntryModel {
            signature: self.signature@,
            record_number: self.record_number,
            sequence: self.sequence,
            hard_link_count: self.hard_link_count,
            first_attribute: self.first_attribute,
            flags: self.flags,
            used_size: self.used_size,
            allocated_size: self.allocated_size,
            base_entry: self.base_entry,
            lsn: self.lsn,
            data: self.data@,
            valid_fixup: self.valid_fixup,
        }
    }
}

/// The signature `FILE`.
pub open spec fn file_signature() -> Seq<u8> {
    seq![0x46u8, 0x49u8, 0x4Cu8, 0x45u8]
}

/// The signature `BAAD`.
pub open spec fn baad_signature() -> Seq<u8> {
    seq![0x42u8, 0x41u8, 0x41u8, 0x44u8]
}

/// The signature of an empty slot.
pub open spec fn zero_signature() -> Seq<u8> {
    seq![0u8, 0u8, 0u8, 0u8]
}

/// The first four bytes of a record.
pub open spec fn signature_of(record: Seq<u8>) -> Seq<u8> {
    record.take(4)
}

/// Whether a signature is one of the three that the parser knows.
pub open spec fn known_signature(sig: Seq<u8>) -> bool {
    sig == file_signature() || sig == baad_signature() || sig == zero_signature()
}

/// Number of words in the update sequence array: the sequence word and one
/// saved tail per sector.
pub open spec fn usa_size(record: Seq<u8>) -> u16 {
    u16_at(record, 6)
}

/// Offset of the update sequence array.
pub open spec fn usa_offset(record: Seq<u8>) -> u16 {
    u16_at(record, 4)
}

/// Whether the fixup of a `FILE` record stays inside the buffer: the array has at
/// least the sequence word, lies in the record, and each sector it covers does.
/// Records of other signatures, and those too short for a header, get no fixup.
pub open spec fn fixup_fits(record: Seq<u8>) -> bool {
    record.len() >= HEADER_LEN && signature_of(record) == file_signature() ==> {
        &&& 1 <= usa_size(record) < 0x8000
        &&& usa_offset(record) + 2 * usa_size(record) <= record.len()
        &&& SECTOR * (usa_size(record) - 1) <= record.len()
    }
}

/// Whether both tail bytes of sector `s` hold the update-sequence word.
pub open spec fn tail_matches(record: Seq<u8>, s: int) -> bool {
    &&& record[SECTOR * s + 510] == record[usa_offset(record) as int]
    &&& record[SECTOR * s + 511] == record[usa_offset(record) + 1]
}

/// Whether every covered sector ends in the update-sequence word.
pub open spec fn fixup_matches(record: Seq<u8>) -> bool {
    forall|s: int| 0 <= s < usa_size(record) - 1 ==> #[trigger] tail_matches(record, s)
}

/// The record with each covered sector's tail replaced by the bytes saved in the
/// update sequence array.
pub open spec fn fixed_up(record: Seq<u8>) -> Seq<u8> {
    Seq::new(
        record.len(),
        |i: int|
            if i % 512 >= 510 && i / 512 < usa_size(record) - 1 {
                record[usa_offset(record) + 2 + 2 * (i / 512) + (i % 512 - 510)]
            } else {
                record[i]
            },
    )
}

/// The low six bytes of a file reference: the entry number.
pub open spec fn reference_entry(reference: u64) -> u64 {
    reference % 0x1_0000_0000_0000
}

/// The entry of an empty slot.
pub open spec fn empty_entry(record: Seq<u8>) -> EntryModel {
    EntryModel {
        signature: zero_signature(),
        record_number: 0,
        sequence: 0,
        hard_link_count: 0,
        first_attribute: 0,
        flags: 0,
        used_size: 0,
        allocated_size: 0,
        base_entry: 0,
        lsn: 0,
        data: record,
        valid_fixup: None,
    }
}

/// The entry of a `FILE` or `BAAD` record with a complete header. Only a `FILE`
/// record is fixed up.
pub open spec fn full_entry(record: Seq<u8>, n: u64) -> EntryModel {
    let is_file = signature_of(record) == file_signature();
    EntryModel {
        signature: signature_of(record),
        record_number: n,
        sequence: u16_at(record, 0x10),
        hard_link_count: u16_at(record, 0x12),
        first_attribute: u16_at(record, 0x14),
        flags: u16_at(record, 0x16) & 0x0F,
        used_size: u32_at(record, 0x18),
        allocated_size: u32_at(record, 0x1C),
        base_entry: reference_entry(u64_at(record, 0x20)),
        lsn: u64_at(record, 8),
        data: if is_file {
            fixed_up(record)
        } else {
            record
        },
        valid_fixup: if is_file {
            Some(fixup_matches(record))
        } else {
            None
        },
    }
}

/// The lowercase hexadecimal digit of value `d` (less than sixteen).
pub open spec fn hex_digit(d: int) -> char {
    if d < 10 {
        (48 + d) as char
    } else {
        (87 + d) as char
    }
}

/// The lowercase hexadecimal numeral of a byte, without a leading zero.
pub open spec fn hex_byte(b: u8) -> Seq<char> {
    if b < 16 {
        seq![hex_digit(b as int)]
    } else {
        seq![hex_digit(b as int / 16), hex_digit(b as int % 16)]
    }
}

/// The message for a signature that is not known.
pub open spec fn bad_signature_message(sig: Seq<u8>) -> Seq<char> {
    "Bad signature: ["@ + hex_byte(sig[0]) + ", "@ + hex_byte(sig[1]) + ", "@ + hex_byte(sig[2])
        + ", "@ + hex_byte(sig[3]) + "], expected one of [b\"FILE\", b\"BAAD\", b\"0000\"]"@
}

/// What parsing `record` as entry `n` gives: the entry, or why there is none. A
/// buffer that ends inside the base reference (bytes 32 to 39) fails on that
/// reference, one that ends inside any other field fails on the read.
pub open spec fn entry_of(record: Seq<u8>, n: u64) -> Result<EntryModel, EntryErrorModel> {
    if record.len() < 4 {
        Err(EntryErrorModel { kind: EntryErrorKind::IoError, message: "An I/O error has occurred"@ })
    } else if !known_signature(signature_of(record)) {
        Err(
            EntryErrorModel {
                kind: EntryErrorKind::InvalidEntrySignature,
                message: bad_signature_message(signature_of(record)),
            },
        )
    } else if signature_of(record) == zero_signature() {
        Ok(empty_entry(record))
    } else if 32 <= record.len() < 40 {
        Err(
            EntryErrorModel {
                kind: EntryErrorKind::FailedToReadMftReference,
                message: "Failed to read MftReference"@,
            },
        )
    } else if record.len() < HEADER_LEN {
        Err(EntryErrorModel { kind: EntryErrorKind::IoError, message: "An I/O error has occurred"@ })
    } else {
        Ok(full_entry(record, n))
    }
}

/// Calls `mft::MftEntry::from_buffer`, which reads the header, checks the
/// signature and applies the fixup. Claimed of it: the fields, the restored bytes
/// and the fixup verdict of [`entry_of`], and its failures with their messages.
/// It panics where the fixup leaves the buffer, so such records are left out.
#[verifier::external_body]
fn parse_entry(record: Vec<u8>, n: u64) -> (r: Result<ParsedEntry, EntryError>)
    requires
        fixup_fits(record@),
    ensures
        match r {
            Ok(e) => entry_of(record@, n) == Ok::<EntryModel, EntryErrorModel>(e@),
            Err(e) => entry_of(record@, n) == Err::<EntryModel, EntryErrorModel>(e@),
        },
{
    MftEntry::from_buffer(record, n).map(|e| ParsedEntry {
        signature: e.header.signature, record_number: e.header.record_number,
        sequence: e.header.sequence, hard_link_count: e.header.hard_link_count,
        first_attribute: e.header.first_attribute_record_offset, flags: e.header.flags.bits(),
        used_size: e.header.used_entry_size, allocated_size: e.header.total_entry_size,
        base_entry: e.header.base_reference.entry, lsn: e.header.metadata_transaction_journal,
        data: e.data, valid_fixup: e.valid_fixup,
    }).map_err(|e| EntryError { message: e.to_string(), kind: match e {
        Error::InvalidEntrySignature { .. } => EntryErrorKind::InvalidEntrySignature,
        Error::IoError { .. } => EntryErrorKind::IoError,
        Error::FailedToReadMftReference { .. } => EntryErrorKind::FailedToReadMftReference,
        Error::FailedToReadWindowsTime { .. } => EntryErrorKind::FailedToReadWindowsTime,
        _ => EntryErrorKind::Other,
    } })
}

/// Whether the first four bytes of `record` spell `FILE`.
pub fn has_file_signature(record: &[u8]) -> (r: bool)
    requires
        record@.len() >= 4,
    ensures
        r == (signature_of(record@) == file_signature()),
{
    let r = record[0] == 0x46 && record[1] == 0x49 && record[2] == 0x4C && record[3] == 0x45;
    proof {
        let sig = signature_of(record@);
        assert(sig[0] == record@[0] && sig[1] == record@[1] && sig[2] == record@[2] && sig[3]
            == record@[3]);
        if r {
            assert(sig =~= file_signature());
        } else {
            let want = file_signature();
            assert(want[0] == 0x46 && want[1] == 0x49 && want[2] == 0x4C && want[3] == 0x45);
        }
    }
    r
}

/// Tests whether the fixup of `record` stays inside the buffer.
pub fn check_fixup(record: &[u8]) -> (r: bool)
    ensures
        r == fixup_fits(record@),
{
    let len: usize = record.len();
    if len < HEADER_LEN || !has_file_signature(record) {
        return true;
    }
    let offset: usize = read_u16(record, 4) as usize;
    let size: usize = read_u16(record, 6) as usize;
    1 <= size && size < 0x8000 && offset + 2 * size <= len && SECTOR * (size - 1) <= len
}

/// Parse `record` as entry `n`; `None` where the fixup would leave the buffer.
pub fn read_entry(record: Vec<u8>, n: u64) -> (r: Option<Result<ParsedEntry, EntryError>>)
    ensures
        r is Some == fixup_fits(record@),
        r matches Some(Ok(e)) ==> entry_of(record@, n) == Ok::<EntryModel, EntryErrorModel>(e@),
        r matches Some(Err(e)) ==> entry_of(record@, n) == Err::<EntryModel, EntryErrorModel>(e@),
{
    if check_fixup(record.as_slice()) {
        Some(parse_entry(record, n))
    } else {
        None
    }
}

} // verus!
