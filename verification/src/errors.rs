//! `well_formed` kinds and the per-record diagnostic vocabulary.
//!
//! A `$MFT` collected from a compromised or failing host can be corrupt or
//! hostile. A malformed record yields a row (or a [`WellFormed`] value) with a
//! kind and a message, and the scan goes on.

use vstd::prelude::*;

verus! {

/// The classification of one record, also the leading token of a diagnostic.
#[derive(Clone, Copy, Debug, PartialEq, Eq, Structural)]
pub enum WellFormedKind {
    /// A clean `FILE` record.
    Clean,
    /// Signature `BAAD`: a record that NTFS itself flagged as corrupt.
    Baad,
    /// The update-sequence fixup did not match (torn or corrupt record).
    FixupMismatch,
    /// Signature is neither `FILE`, `BAAD`, nor a zero (empty) slot.
    BadSignature,
    /// An attribute's declared length runs past the record buffer.
    AttrOverrun,
    /// The record buffer is shorter than a header or a declared field.
    Truncated,
    /// The bytes are not a recognizable `$MFT` FILE record at all.
    NotAnMft,
}

impl WellFormedKind {
    /// The stable lowercase token of this kind.
    pub open spec fn token(self) -> Seq<char> {
        match self {
            WellFormedKind::Clean => "ok"@,
            WellFormedKind::Baad => "baad"@,
            WellFormedKind::FixupMismatch => "fixup-mismatch"@,
            WellFormedKind::BadSignature => "bad-signature"@,
            WellFormedKind::AttrOverrun => "attr-overrun"@,
            WellFormedKind::Truncated => "truncated"@,
            WellFormedKind::NotAnMft => "not-an-mft"@,
        }
    }

    /// The stable lowercase token used on the wire (`well_formed.kind`, and the
    /// leading word of a diagnostic).
    pub fn as_str(self) -> (r: &'static str)
        ensures
            r@ == self.token(),
    {
        match self {
            WellFormedKind::Clean => "ok",
            WellFormedKind::Baad => "baad",
            WellFormedKind::FixupMismatch => "fixup-mismatch",
            WellFormedKind::BadSignature => "bad-signature",
            WellFormedKind::AttrOverrun => "attr-overrun",
            WellFormedKind::Truncated => "truncated",
            WellFormedKind::NotAnMft => "not-an-mft",
        }
    }

    /// Whether this kind stands for a cleanly parsed record.
    pub fn is_ok(self) -> (r: bool)
        ensures
            r == (self == WellFormedKind::Clean),
    {
        matches!(self, WellFormedKind::Clean)
    }
}

/// The structured result of a validation.
#[derive(Clone, Debug, PartialEq, Eq)]
pub struct WellFormed {
    pub ok: bool,
    pub error: Option<String>,
    pub kind: WellFormedKind,
}

/// The contents of a [`WellFormed`].
pub struct WellFormedModel {
    pub ok: bool,
    pub error: Option<Seq<char>>,
    pub kind: WellFormedKind,
}

/// The text of an optional string.
pub open spec fn opt_text(s: Option<String>) -> Option<Seq<char>> {
    match s {
        Some(t) => Some(t@),
        None => None,
    }
}

impl View for WellFormed {
    type V = WellFormedModel;

    open spec fn view(&self) -> WellFormedModel {
        WellFormedModel { ok: self.ok, error: opt_text(self.error), kind: self.kind }
    }
}

/// The model of a clean record.
pub open spec fn clean() -> WellFormedModel {
    WellFormedModel { ok: true, error: None, kind: WellFormedKind::Clean }
}

/// The model of a failed validation.
pub open spec fn failed(kind: WellFormedKind, error: Seq<char>) -> WellFormedModel {
    WellFormedModel { ok: false, error: Some(error), kind }
}

impl WellFormed {
    pub fn ok() -> (r: Self)
        ensures
            r@ == clean(),
    {
        WellFormed { ok: true, error: None, kind: WellFormedKind::Clean }
    }

    pub fn bad(kind: WellFormedKind, error: String) -> (r: Self)
        ensures
            r@ == failed(kind, error@),
    {
        WellFormed { ok: false, error: Some(error), kind }
    }
}

/// The failures of the record parser that the classification tells apart.
#[derive(Clone, Copy, Debug, PartialEq, Eq, Structural)]
pub enum EntryErrorKind {
    /// The signature is not one the parser knows.
    InvalidEntrySignature,
    /// The buffer ended inside a field other than a file reference.
    IoError,
    /// The buffer ended inside a file reference.
    FailedToReadMftReference,
    /// A timestamp could not be read.
    FailedToReadWindowsTime,
    /// Any other failure.
    Other,
}

/// A failure of the record parser: what failed, and the parser's own message.
#[derive(Clone, Debug, PartialEq, Eq)]
pub struct EntryError {
    pub kind: EntryErrorKind,
    pub message: String,
}

/// The contents of an [`EntryError`].
pub struct EntryErrorModel {
    pub kind: EntryErrorKind,
    pub message: Seq<char>,
}

impl View for EntryError {
    type V = EntryErrorModel;

    open spec fn view(&self) -> EntryErrorModel {
        EntryErrorModel { kind: self.kind, message: self.message@ }
    }
}

/// The classification of a parser failure.
pub open spec fn classified(kind: EntryErrorKind) -> WellFormedKind {
    match kind {
        EntryErrorKind::InvalidEntrySignature => WellFormedKind::BadSignature,
        EntryErrorKind::IoError => WellFormedKind::Truncated,
        EntryErrorKind::FailedToReadMftReference => WellFormedKind::Truncated,
        EntryErrorKind::FailedToReadWindowsTime => WellFormedKind::AttrOverrun,
        EntryErrorKind::Other => WellFormedKind::AttrOverrun,
    }
}

/// Classify a parser failure into a [`WellFormedKind`] and its message.
pub fn classify_parse_error(err: &EntryError) -> (r: (WellFormedKind, String))
    ensures
        r.0 == classified(err.kind),
        r.1@ == err.message@,
{
    let kind = match err.kind {
        EntryErrorKind::InvalidEntrySignature => WellFormedKind::BadSignature,
        EntryErrorKind::IoError => WellFormedKind::Truncated,
        EntryErrorKind::FailedToReadMftReference => WellFormedKind::Truncated,
        EntryErrorKind::FailedToReadWindowsTime => WellFormedKind::AttrOverrun,
        EntryErrorKind::Other => WellFormedKind::AttrOverrun,
    };
    (kind, err.message.clone())
}

/// The tokens of the kinds. Each kind has one of its own.
pub proof fn law_kind_tokens(a: WellFormedKind, b: WellFormedKind)
    ensures
        WellFormedKind::Clean.token() == "ok"@,
        WellFormedKind::Baad.token() == "baad"@,
        WellFormedKind::FixupMismatch.token() == "fixup-mismatch"@,
        WellFormedKind::BadSignature.token() == "bad-signature"@,
        WellFormedKind::AttrOverrun.token() == "attr-overrun"@,
        WellFormedKind::Truncated.token() == "truncated"@,
        WellFormedKind::NotAnMft.token() == "not-an-mft"@,
        a.token() == b.token() ==> a == b,
{
    reveal_strlit("ok");
    reveal_strlit("baad");
    reveal_strlit("fixup-mismatch");
    reveal_strlit("bad-signature");
    reveal_strlit("attr-overrun");
    reveal_strlit("truncated");
    reveal_strlit("not-an-mft");
    assert("ok"@.len() == 2);
    assert("baad"@.len() == 4);
    assert("fixup-mismatch"@.len() == 14);
    assert("bad-signature"@.len() == 13);
    assert("attr-overrun"@.len() == 12);
    assert("truncated"@.len() == 9);
    assert("not-an-mft"@.len() == 10);
}

/// A signature that is not known is a bad signature, a buffer that ends inside a field is
/// truncated, and any other failure is an overrun; none is clean.
pub proof fn law_parse_failures_are_classified(kind: EntryErrorKind)
    ensures
        classified(kind) == WellFormedKind::BadSignature <==> kind
            == EntryErrorKind::InvalidEntrySignature,
        classified(kind) == WellFormedKind::Truncated <==> kind == EntryErrorKind::IoError || kind
            == EntryErrorKind::FailedToReadMftReference,
        classified(kind) == WellFormedKind::AttrOverrun <==> kind
            == EntryErrorKind::FailedToReadWindowsTime || kind == EntryErrorKind::Other,
{
}

/// A verdict is either clean, without a message, or has a kind and a message.
pub proof fn law_verdicts_say_why(kind: WellFormedKind, error: Seq<char>)
    ensures
        clean().ok && clean().error is None && clean().kind == WellFormedKind::Clean,
        !failed(kind, error).ok && failed(kind, error).error == Some(error) && failed(
            kind,
            error,
        ).kind == kind,
{
}

/// A verdict and its contents are the same value.
pub proof fn law_verdict_contents(w: WellFormed)
    ensures
        w@.ok == w.ok && w@.kind == w.kind,
        w.error is None <==> w@.error is None,
        w.error matches Some(e) ==> w@.error == Some(e@),
{
}

} // verus!
