//! The SI-vs-FN MACB timestomp heuristic.
//!
//! `$STANDARD_INFORMATION` (SI) is user-writable: the Win32 `SetFileTime` API, and
//! anti-forensic tools, rewrite it, while `$FILE_NAME` (FN) is updated only by the
//! kernel on create / rename / move. SI / FN divergence, and especially SI *earlier*
//! than FN (naturally impossible), is a strong anti-forensic signal. Several
//! **reasons** are scored rather than a single boolean, because the simple SI-vs-FN
//! compare has a documented bypass (timestomp SI *then* rename, so the kernel copies
//! the stomped SI into FN).

use vstd::prelude::*;

use crate::filetime::{is_zero_subsecond, zero_subsecond};
use crate::standard_info::Macb;

verus! {

/// A timestomp reason token. The set is stable and surfaced as
/// `timestomp(si, fn).reasons`.
#[derive(Clone, Copy, Debug, PartialEq, Eq, Structural)]
pub enum Reason {
    /// SI modified predates FN modified.
    SiBeforeFn,
    /// SI created predates FN created: impossible without tampering.
    SiCreationBeforeFnCreation,
    /// SI created and modified both fall on whole seconds (tool tell).
    ZeroSubsecond,
    /// FN created is newer than SI created (corroborating).
    FnNewerThanSi,
    /// All four SI timestamps are identical (a bulk set-all tell).
    AllFourEqual,
}

impl Reason {
    /// The stable token of this reason.
    pub open spec fn token(self) -> Seq<char> {
        match self {
            Reason::SiBeforeFn => "si-before-fn"@,
            Reason::SiCreationBeforeFnCreation => "si-creation-before-fn-creation"@,
            Reason::ZeroSubsecond => "zero-subsecond"@,
            Reason::FnNewerThanSi => "fn-newer-than-si"@,
            Reason::AllFourEqual => "all-four-equal"@,
        }
    }

    pub fn as_str(self) -> (r: &'static str)
        ensures
            r@ == self.token(),
    {
        match self {
            Reason::SiBeforeFn => "si-before-fn",
            Reason::SiCreationBeforeFnCreation => "si-creation-before-fn-creation",
            Reason::ZeroSubsecond => "zero-subsecond",
            Reason::FnNewerThanSi => "fn-newer-than-si",
            Reason::AllFourEqual => "all-four-equal",
        }
    }

    /// Whether this reason alone raises suspicion.
    pub open spec fn strong(self) -> bool {
        self == Reason::SiCreationBeforeFnCreation || self == Reason::SiBeforeFn || self
            == Reason::ZeroSubsecond
    }
}

/// The result of the heuristic: a suspect flag and the ordered reason list.
#[derive(Clone, Debug, PartialEq, Eq)]
pub struct Timestomp {
    pub suspect: bool,
    pub reasons: Vec<Reason>,
}

impl Default for Timestomp {
    fn default() -> (r: Self)
        ensures
            !r.suspect,
            r.reasons@ == Seq::<Reason>::empty(),
    {
        Timestomp { suspect: false, reasons: Vec::new() }
    }
}

/// Whether both times are present and `a` is earlier than `b`.
pub open spec fn earlier(a: Option<i64>, b: Option<i64>) -> bool {
    a is Some && b is Some && a->0 < b->0
}

/// Whether `r` applies to the two quads.
pub open spec fn applies(r: Reason, si: Macb, fna: Macb) -> bool {
    match r {
        Reason::SiCreationBeforeFnCreation => earlier(si.created, fna.created),
        Reason::SiBeforeFn => earlier(si.modified, fna.modified),
        Reason::ZeroSubsecond => zero_subsecond(si.created) && zero_subsecond(si.modified),
        Reason::FnNewerThanSi => earlier(si.created, fna.created),
        Reason::AllFourEqual => si.created is Some && si.created == si.modified && si.modified
            == si.accessed && si.accessed == si.mft_modified,
    }
}

/// The reasons in reporting order.
pub open spec fn reporting_order() -> Seq<Reason> {
    seq![
        Reason::SiCreationBeforeFnCreation,
        Reason::SiBeforeFn,
        Reason::ZeroSubsecond,
        Reason::FnNewerThanSi,
        Reason::AllFourEqual,
    ]
}

/// The reasons that apply, among the first `n` in reporting order.
pub open spec fn reasons_among(si: Macb, fna: Macb, n: nat) -> Seq<Reason>
    decreases n,
{
    if n == 0 {
        Seq::empty()
    } else if applies(reporting_order()[n - 1], si, fna) {
        reasons_among(si, fna, (n - 1) as nat).push(reporting_order()[n - 1])
    } else {
        reasons_among(si, fna, (n - 1) as nat)
    }
}

/// Every reason that applies, in reporting order.
pub open spec fn reasons_of(si: Macb, fna: Macb) -> Seq<Reason> {
    reasons_among(si, fna, 5)
}

/// Whether a strong reason applies.
pub open spec fn suspect_of(si: Macb, fna: Macb) -> bool {
    ||| applies(Reason::SiCreationBeforeFnCreation, si, fna)
    ||| applies(Reason::SiBeforeFn, si, fna)
    ||| applies(Reason::ZeroSubsecond, si, fna)
}

/// `true` if both operands are present and `a < b`.
fn before(a: Option<i64>, b: Option<i64>) -> (r: bool)
    ensures
        r == earlier(a, b),
{
    match (a, b) {
        (Some(x), Some(y)) => x < y,
        _ => false,
    }
}

/// `true` if both operands are present and `a > b`.
fn after(a: Option<i64>, b: Option<i64>) -> (r: bool)
    ensures
        r == earlier(b, a),
{
    match (a, b) {
        (Some(x), Some(y)) => x > y,
        _ => false,
    }
}

/// Score the SI-vs-FN heuristic over a record's two MACB quads.
///
/// `suspect` is set by the **strong** reasons (an impossible SI-before-FN ordering
/// or the whole-second tell), while `fn-newer-than-si` and `all-four-equal` are
/// reported as corroborating reasons but do not, on their own, raise suspicion.
pub fn evaluate(si: &Macb, fna: &Macb) -> (r: Timestomp)
    ensures
        r.suspect == suspect_of(*si, *fna),
        r.reasons@ == reasons_of(*si, *fna),
{
    proof {
        reveal_with_fuel(reasons_among, 6);
    }
    let mut reasons: Vec<Reason> = Vec::new();
    let mut suspect = false;
    if before(si.created, fna.created) {
        reasons.push(Reason::SiCreationBeforeFnCreation);
        suspect = true;
    }
    if before(si.modified, fna.modified) {
        reasons.push(Reason::SiBeforeFn);
        suspect = true;
    }
    // Whole-second SI created AND modified: the classic automated-tool tell.
    if is_zero_subsecond(si.created) && is_zero_subsecond(si.modified) {
        reasons.push(Reason::ZeroSubsecond);
        suspect = true;
    }
    if after(fna.created, si.created) {
        reasons.push(Reason::FnNewerThanSi);
    }
    if let (Some(c), Some(m), Some(a), Some(r)) = (
        si.created,
        si.modified,
        si.accessed,
        si.mft_modified,
    ) {
        if c == m && m == a && a == r {
            reasons.push(Reason::AllFourEqual);
        }
    }
    Timestomp { suspect, reasons }
}

/// Exactly the reasons that apply are reported.
pub proof fn law_reported_iff_applies(si: Macb, fna: Macb, r: Reason)
    ensures
        reasons_of(si, fna).contains(r) <==> applies(r, si, fna),
{
    lemma_reported(si, fna, r, 5);
    let order = reporting_order();
    assert(order[0] == Reason::SiCreationBeforeFnCreation);
    assert(order[1] == Reason::SiBeforeFn);
    assert(order[2] == Reason::ZeroSubsecond);
    assert(order[3] == Reason::FnNewerThanSi);
    assert(order[4] == Reason::AllFourEqual);
}

proof fn lemma_reported(si: Macb, fna: Macb, r: Reason, n: nat)
    requires
        n <= 5,
    ensures
        reasons_among(si, fna, n).contains(r) <==> applies(r, si, fna) && exists|i: int|
            0 <= i < n && #[trigger] reporting_order()[i] == r,
    decreases n,
{
    if n > 0 {
        let m = (n - 1) as nat;
        lemma_reported(si, fna, r, m);
        let shorter = reasons_among(si, fna, m);
        let last = reporting_order()[m as int];
        if applies(last, si, fna) {
            assert(reasons_among(si, fna, n) == shorter.push(last));
            assert(shorter.push(last)[shorter.len() as int] == last);
            if shorter.contains(r) {
                let i = choose|i: int| 0 <= i < shorter.len() && shorter[i] == r;
                assert(shorter.push(last)[i] == r);
            }
            if shorter.push(last).contains(r) && r != last {
                let i = choose|i: int| 0 <= i < shorter.len() + 1 && shorter.push(last)[i] == r;
                assert(shorter[i] == r);
            }
        }
    }
}

/// A record is suspect exactly when one of its reported reasons is strong: the
/// corroborating reasons alone never raise suspicion.
pub proof fn law_suspect_iff_strong_reason(si: Macb, fna: Macb)
    ensures
        suspect_of(si, fna) <==> exists|r: Reason|
            r.strong() && #[trigger] reasons_of(si, fna).contains(r),
{
    law_reported_iff_applies(si, fna, Reason::SiCreationBeforeFnCreation);
    law_reported_iff_applies(si, fna, Reason::SiBeforeFn);
    law_reported_iff_applies(si, fna, Reason::ZeroSubsecond);
}

/// A creation order that is impossible without tampering is always reported twice:
/// as the strong reason, and as the corroborating one.
pub proof fn law_creation_order_is_corroborated(si: Macb, fna: Macb)
    ensures
        reasons_of(si, fna).contains(Reason::SiCreationBeforeFnCreation) <==> reasons_of(
            si,
            fna,
        ).contains(Reason::FnNewerThanSi),
{
    law_reported_iff_applies(si, fna, Reason::SiCreationBeforeFnCreation);
    law_reported_iff_applies(si, fna, Reason::FnNewerThanSi);
}

/// Renaming after stomping does not hide whole-second times: with FN a copy of SI no
/// order is out of place, and the whole-second tell is still reported.
pub proof fn law_rename_keeps_zero_subsecond(si: Macb)
    requires
        zero_subsecond(si.created),
        zero_subsecond(si.modified),
    ensures
        suspect_of(si, si),
        reasons_of(si, si).contains(Reason::ZeroSubsecond),
        !reasons_of(si, si).contains(Reason::SiCreationBeforeFnCreation),
        !reasons_of(si, si).contains(Reason::SiBeforeFn),
{
    law_reported_iff_applies(si, si, Reason::ZeroSubsecond);
    law_reported_iff_applies(si, si, Reason::SiCreationBeforeFnCreation);
    law_reported_iff_applies(si, si, Reason::SiBeforeFn);
}

/// A modification time that predates the kernel's is always reported and always
/// suspect: with both times set, SI modified before FN modified is reported exactly
/// when it is so.
pub proof fn law_backdated_content_is_reported(si: Macb, fna: Macb, s: i64, f: i64)
    requires
        si.modified == Some(s),
        fna.modified == Some(f),
    ensures
        reasons_of(si, fna).contains(Reason::SiBeforeFn) <==> s < f,
        s < f ==> suspect_of(si, fna),
{
    law_reported_iff_applies(si, fna, Reason::SiBeforeFn);
}

/// A creation time that predates the kernel's is always reported and always suspect.
pub proof fn law_backdated_creation_is_reported(si: Macb, fna: Macb, s: i64, f: i64)
    requires
        si.created == Some(s),
        fna.created == Some(f),
    ensures
        reasons_of(si, fna).contains(Reason::SiCreationBeforeFnCreation) <==> s < f,
        reasons_of(si, fna).contains(Reason::FnNewerThanSi) <==> s < f,
        s < f ==> suspect_of(si, fna),
{
    law_reported_iff_applies(si, fna, Reason::SiCreationBeforeFnCreation);
    law_reported_iff_applies(si, fna, Reason::FnNewerThanSi);
}

/// An order cannot be out of place where one of its times is unset.
pub proof fn law_unset_times_have_no_order(si: Macb, fna: Macb)
    ensures
        si.created is None || fna.created is None ==> !reasons_of(si, fna).contains(
            Reason::SiCreationBeforeFnCreation,
        ) && !reasons_of(si, fna).contains(Reason::FnNewerThanSi),
        si.modified is None || fna.modified is None ==> !reasons_of(si, fna).contains(
            Reason::SiBeforeFn,
        ),
{
    law_reported_iff_applies(si, fna, Reason::SiCreationBeforeFnCreation);
    law_reported_iff_applies(si, fna, Reason::FnNewerThanSi);
    law_reported_iff_applies(si, fna, Reason::SiBeforeFn);
}

/// The whole-second tell needs both SI times, created and modified, on whole seconds,
/// and is then suspect whatever FN holds.
pub proof fn law_whole_seconds_are_reported(si: Macb, fna: Macb)
    ensures
        reasons_of(si, fna).contains(Reason::ZeroSubsecond) <==> (si.created matches Some(c) && c
            as int % 1_000_000 == 0) && (si.modified matches Some(m) && m as int % 1_000_000 == 0),
        reasons_of(si, fna).contains(Reason::ZeroSubsecond) ==> suspect_of(si, fna),
{
    law_reported_iff_applies(si, fna, Reason::ZeroSubsecond);
}

/// The bulk tell needs all four SI times, set and identical.
pub proof fn law_identical_times_are_reported(si: Macb, fna: Macb)
    ensures
        reasons_of(si, fna).contains(Reason::AllFourEqual) <==> (si.created matches Some(t)
            && si.modified == Some(t) && si.accessed == Some(t) && si.mft_modified == Some(t)),
{
    law_reported_iff_applies(si, fna, Reason::AllFourEqual);
}

/// The reasons come in one order, none twice: the two orders, the whole-second tell, and
/// the corroborating reasons behind them.
pub proof fn law_reasons_are_in_order(si: Macb, fna: Macb)
    ensures
        ({
            let all = reasons_of(si, fna);
            let one = |r: Reason|
                if all.contains(r) {
                    seq![r]
                } else {
                    Seq::empty()
                };
            all == one(Reason::SiCreationBeforeFnCreation) + one(Reason::SiBeforeFn) + one(
                Reason::ZeroSubsecond,
            ) + one(Reason::FnNewerThanSi) + one(Reason::AllFourEqual)
        }),
{
    law_reported_iff_applies(si, fna, Reason::SiCreationBeforeFnCreation);
    law_reported_iff_applies(si, fna, Reason::SiBeforeFn);
    law_reported_iff_applies(si, fna, Reason::ZeroSubsecond);
    law_reported_iff_applies(si, fna, Reason::FnNewerThanSi);
    law_reported_iff_applies(si, fna, Reason::AllFourEqual);
    reveal_with_fuel(reasons_among, 6);
    let all = reasons_of(si, fna);
    let one = |r: Reason|
        if all.contains(r) {
            seq![r]
        } else {
            Seq::empty()
        };
    assert(all =~= one(Reason::SiCreationBeforeFnCreation) + one(Reason::SiBeforeFn) + one(
        Reason::ZeroSubsecond,
    ) + one(Reason::FnNewerThanSi) + one(Reason::AllFourEqual));
}

/// Suspicion rests on the created and modified times alone: the other times decide on
/// nothing but the bulk tell.
pub proof fn law_other_times_raise_no_suspicion(si: Macb, fna: Macb, si2: Macb, fna2: Macb, r: Reason)
    requires
        si.created == si2.created,
        si.modified == si2.modified,
        fna.created == fna2.created,
        fna.modified == fna2.modified,
        r != Reason::AllFourEqual,
    ensures
        suspect_of(si, fna) == suspect_of(si2, fna2),
        reasons_of(si, fna).contains(r) == reasons_of(si2, fna2).contains(r),
{
    law_reported_iff_applies(si, fna, r);
    law_reported_iff_applies(si2, fna2, r);
}

/// A record without any of the three strong tells is not suspect.
pub proof fn law_plausible_times_are_not_suspect(si: Macb, fna: Macb)
    requires
        (si.created matches Some(s) ==> (fna.created matches Some(f) ==> s >= f)),
        (si.modified matches Some(s) ==> (fna.modified matches Some(f) ==> s >= f)),
        (si.created matches Some(c) ==> c as int % 1_000_000 != 0) || (si.modified matches Some(m)
            ==> m as int % 1_000_000 != 0),
    ensures
        !suspect_of(si, fna),
{
}

/// Each reason has a token of its own, and these are the tokens.
pub proof fn law_reason_tokens(r: Reason, q: Reason)
    ensures
        Reason::SiBeforeFn.token() == "si-before-fn"@,
        Reason::SiCreationBeforeFnCreation.token() == "si-creation-before-fn-creation"@,
        Reason::ZeroSubsecond.token() == "zero-subsecond"@,
        Reason::FnNewerThanSi.token() == "fn-newer-than-si"@,
        Reason::AllFourEqual.token() == "all-four-equal"@,
        r.token() == q.token() ==> r == q,
{
    reveal_strlit("si-before-fn");
    reveal_strlit("si-creation-before-fn-creation");
    reveal_strlit("zero-subsecond");
    reveal_strlit("fn-newer-than-si");
    reveal_strlit("all-four-equal");
    assert("si-before-fn"@.len() == 12);
    assert("si-creation-before-fn-creation"@.len() == 30);
    assert("zero-subsecond"@.len() == 14);
    assert("fn-newer-than-si"@.len() == 16);
    assert("all-four-equal"@.len() == 14);
    assert("zero-subsecond"@[0] == 'z');
    assert("all-four-equal"@[0] == 'a');
}

} // verus!
