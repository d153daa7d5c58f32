//! Single-record parsing that holds on any input.
//!
//! The underlying `mft` crate does not return on hostile input: applying the fixup
//! can leave the buffer on a mutilated record, and some attributes make it panic or
//! loop. Since a `$MFT` collected from a compromised or failing host is exactly that
//! kind of input, every record is examined before the parser sees it, and what the
//! parser cannot take becomes a diagnostic, never a crashed scan.

use vstd::prelude::*;

use crate::entry::{
    entry_of, fixup_fits, known_signature, read_entry, zero_signature, EntryModel, ParsedEntry,
};
use crate::errors::{classified, classify_parse_error, WellFormedKind};
use crate::record::{
    decodable, decode_entry, decoded, diagnostic_model, diagnostic_record, is_decodable,
    DecodedRecord, RecordModel,
};
use crate::text::{has_text, stands_at};

verus! {

/// The outcome of parsing one record buffer.
#[derive(Debug, PartialEq, Eq)]
pub enum ParseOutcome {
    /// An empty (zeroed) slot: not emitted as a row.
    Empty,
    /// A successfully parsed FILE / BAAD record.
    Parsed(Box<ParsedEntry>),
    /// A malformed record, classified.
    Bad(WellFormedKind, String),
}

/// What a [`ParseOutcome`] holds.
pub enum OutcomeModel {
    Empty,
    Parsed(EntryModel),
    Bad(WellFormedKind, Seq<char>),
}

impl View for ParseOutcome {
    type V = OutcomeModel;

    open spec fn view(&self) -> OutcomeModel {
        match self {
            ParseOutcome::Empty => OutcomeModel::Empty,
            ParseOutcome::Parsed(e) => OutcomeModel::Parsed((**e)@),
            ParseOutcome::Bad(kind, msg) => OutcomeModel::Bad(*kind, msg@),
        }
    }
}

/// Whether every byte of a record is zero.
pub open spec fn all_zero(record: Seq<u8>) -> bool {
    forall|i: int| 0 <= i < record.len() ==> #[trigger] record[i] == 0
}

/// The outcome of parsing `record` as entry `n`. A record that the parser cannot be
/// handed is an overrun.
pub open spec fn outcome_of(record: Seq<u8>, n: u64) -> OutcomeModel {
    if all_zero(record) {
        OutcomeModel::Empty
    } else if !fixup_fits(record) {
        OutcomeModel::Bad(
            WellFormedKind::AttrOverrun,
            "parser panicked on malformed record (caught)"@,
        )
    } else {
        match entry_of(record, n) {
            Ok(e) => if e.signature == zero_signature() {
                OutcomeModel::Empty
            } else {
                OutcomeModel::Parsed(e)
            },
            Err(e) => OutcomeModel::Bad(classified(e.kind), e.message),
        }
    }
}

/// Tests whether every byte is zero.
fn is_all_zero(record: &Vec<u8>) -> (r: bool)
    ensures
        r == all_zero(record@),
{
    let mut i: usize = 0;
    while i < record.len()
        invariant
            i <= record@.len(),
            forall|j: int| 0 <= j < i ==> #[trigger] record@[j] == 0,
        decreases record@.len() - i,
    {
        if record[i] != 0 {
            return false;
        }
        i = i + 1;
    }
    true
}

/// Parse one `record_size`-sized buffer as MFT entry `n`.
pub fn parse_record(record: Vec<u8>, n: u64) -> (r: ParseOutcome)
    ensures
        r@ == outcome_of(record@, n),
        r matches ParseOutcome::Parsed(e) ==> known_signature(e@.signature),
{
    // Zeroed slot: don't even hand it to the parser.
    if is_all_zero(&record) {
        return ParseOutcome::Empty;
    }
    match read_entry(record, n) {
        None => ParseOutcome::Bad(
            WellFormedKind::AttrOverrun,
            "parser panicked on malformed record (caught)".to_string(),
        ),
        Some(Ok(entry)) => {
            let sig = &entry.signature;
            let zero = sig[0] == 0 && sig[1] == 0 && sig[2] == 0 && sig[3] == 0;
            proof {
                let want = zero_signature();
                assert(want[0] == 0 && want[1] == 0 && want[2] == 0 && want[3] == 0);
                if zero {
                    assert(entry@.signature =~= want);
                }
            }
            if zero {
                ParseOutcome::Empty
            } else {
                ParseOutcome::Parsed(Box::new(entry))
            }
        },
        Some(Err(e)) => {
            let classified = classify_parse_error(&e);
            ParseOutcome::Bad(classified.0, classified.1)
        },
    }
}

/// The record of a parsed entry `n`: the decoded one, or a diagnostic where the
/// attribute walk does not come back.
pub open spec fn decoded_safe(e: EntryModel, n: u64, cap: usize) -> RecordModel {
    if decodable(e) {
        decoded(e, cap)
    } else {
        diagnostic_model(n, "attr-overrun:decode panicked (caught)"@)
    }
}

/// Fully decode a parsed entry. Where the attribute walk would not come back,
/// returns a diagnostic-only record so the scan continues.
pub fn decode_entry_safe(entry: &ParsedEntry, n: u64, resident_cap: usize) -> (r: DecodedRecord)
    requires
        known_signature(entry@.signature),
    ensures
        r@ == decoded_safe(entry@, n, resident_cap),
{
    if is_decodable(entry) {
        decode_entry(entry, resident_cap)
    } else {
        diagnostic_record(n, "attr-overrun:decode panicked (caught)")
    }
}

/// Whether a source file belongs to one of the record-parsing crates.
pub open spec fn parser_source(file: Seq<char>) -> bool {
    ||| exists|i: int| stands_at(file, "/mft-"@, i)
    ||| exists|i: int| stands_at(file, "/winstructs-"@, i)
    ||| exists|i: int| stands_at(file, "/jiff-"@, i)
}

/// Whether a source file belongs to one of the third-party parsing crates (`mft`,
/// `winstructs`, `jiff`), whose panics are noise.
pub fn is_parser_source(file: &str) -> (r: bool)
    ensures
        r == parser_source(file@),
{
    has_text(file, "/mft-") || has_text(file, "/winstructs-") || has_text(file, "/jiff-")
}

/// A `FILE` record whose fixup leaves it is an overrun, and the message says that the
/// parser could not take it.
pub proof fn law_runaway_fixup_is_an_overrun(record: Seq<u8>, n: u64)
    requires
        record.len() >= 4,
        record.take(4) == seq![0x46u8, 0x49, 0x4C, 0x45],
        !fixup_fits(record),
    ensures
        outcome_of(record, n) == OutcomeModel::Bad(
            WellFormedKind::AttrOverrun,
            "parser panicked on malformed record (caught)"@,
        ),
{
    assert(record.take(4)[0] == 0x46);
    assert(record[0] == 0x46);
}

/// What the parser makes of any other record is the outcome: its entry, nothing for a zero
/// signature, or its failure with the kind and the message.
pub proof fn law_outcome_is_the_parsers(record: Seq<u8>, n: u64, i: int)
    requires
        fixup_fits(record),
        0 <= i < record.len(),
        record[i] != 0,
    ensures
        match entry_of(record, n) {
            Ok(e) => outcome_of(record, n) == (if e.signature == seq![0u8, 0, 0, 0] {
                OutcomeModel::Empty
            } else {
                OutcomeModel::Parsed(e)
            }),
            Err(e) => outcome_of(record, n) == OutcomeModel::Bad(classified(e.kind), e.message),
        },
{
    assert(zero_signature() =~= seq![0u8, 0, 0, 0]);
}

/// An entry whose walk comes back decodes; one whose walk does not is a bare record under
/// its number that says so.
pub proof fn law_every_entry_decodes(e: EntryModel, n: u64, cap: usize)
    ensures
        decodable(e) ==> decoded_safe(e, n, cap) == decoded(e, cap),
        !decodable(e) ==> decoded_safe(e, n, cap).entry == n && decoded_safe(
            e,
            n,
            cap,
        ).diagnostics == seq!["attr-overrun:decode panicked (caught)"@],
{
}

/// A panic is noise exactly where its source file lies in one of the three parsing crates.
pub proof fn law_parser_sources(file: Seq<char>, i: int, j: int)
    requires
        0 <= i <= j <= file.len(),
    ensures
        file.subrange(i, j) == "/mft-"@ || file.subrange(i, j) == "/winstructs-"@ || file.subrange(
            i,
            j,
        ) == "/jiff-"@ ==> parser_source(file),
{
    if file.subrange(i, j) == "/mft-"@ {
        assert(stands_at(file, "/mft-"@, i));
    } else if file.subrange(i, j) == "/winstructs-"@ {
        assert(stands_at(file, "/winstructs-"@, i));
    } else if file.subrange(i, j) == "/jiff-"@ {
        assert(stands_at(file, "/jiff-"@, i));
    }
}

} // verus!
