//! `$STANDARD_INFORMATION` (type `0x10`): the SI MACB quad, DOS attribute
//! bitmask, and USN.

use vstd::prelude::*;

use crate::filetime::{to_micros, Timestamp};

verus! {

/// A **MACB** timestamp quad in `Option<i64>` microseconds since the Unix epoch
/// (`None` = unset `FILETIME`). Carried by both `$STANDARD_INFORMATION` (SI) and
/// each `$FILE_NAME` (FN).
#[derive(Clone, Copy, Debug, PartialEq, Eq, Structural)]
pub struct Macb {
    /// **B**orn: created.
    pub created: Option<i64>,
    /// **M**odified: data last written.
    pub modified: Option<i64>,
    /// **A**ccessed: last accessed.
    pub accessed: Option<i64>,
    /// **C**hanged: MFT record last modified.
    pub mft_modified: Option<i64>,
}

/// The quad with no time set.
pub open spec fn unset_macb() -> Macb {
    Macb { created: None, modified: None, accessed: None, mft_modified: None }
}

impl Default for Macb {
    fn default() -> (r: Self)
        ensures
            r == unset_macb(),
    {
        Macb { created: None, modified: None, accessed: None, mft_modified: None }
    }
}

/// The four instants of an attribute, in microseconds since the Unix epoch.
#[derive(Clone, Copy, Debug, PartialEq, Eq, Structural)]
pub struct AttrTimes {
    pub created: i64,
    pub modified: i64,
    pub accessed: i64,
    pub mft_modified: i64,
}

/// The wire form of four instants.
pub open spec fn macb_of(t: AttrTimes) -> Macb {
    Macb {
        created: crate::filetime::micros(Timestamp { microsecond: t.created }),
        modified: crate::filetime::micros(Timestamp { microsecond: t.modified }),
        accessed: crate::filetime::micros(Timestamp { microsecond: t.accessed }),
        mft_modified: crate::filetime::micros(Timestamp { microsecond: t.mft_modified }),
    }
}

impl Macb {
    /// The wire form of four instants, each unset one `None`.
    pub fn from_times(t: &AttrTimes) -> (r: Self)
        ensures
            r == macb_of(*t),
    {
        Macb {
            created: to_micros(Timestamp { microsecond: t.created }),
            modified: to_micros(Timestamp { microsecond: t.modified }),
            accessed: to_micros(Timestamp { microsecond: t.accessed }),
            mft_modified: to_micros(Timestamp { microsecond: t.mft_modified }),
        }
    }
}

/// A `$STANDARD_INFORMATION` attribute as the record parser reads it.
#[derive(Clone, Copy, Debug, PartialEq, Eq, Structural)]
pub struct StandardInfoAttr {
    pub times: AttrTimes,
    /// The known DOS file-attribute bits.
    pub file_flags: u32,
    pub usn: u64,
}

/// Decoded `$STANDARD_INFORMATION`.
#[derive(Clone, Copy, Debug, PartialEq, Eq, Structural)]
pub struct StandardInfo {
    pub macb: Macb,
    /// DOS file-attribute bitmask (hidden / system / read-only / ...).
    pub dos_attributes: u32,
    /// Update Sequence Number (USN) of the last change journal entry.
    pub usn: u64,
}

/// The decoded form of a `$STANDARD_INFORMATION` attribute.
pub open spec fn standard_info_of(si: StandardInfoAttr) -> StandardInfo {
    StandardInfo { macb: macb_of(si.times), dos_attributes: si.file_flags, usn: si.usn }
}

impl StandardInfo {
    /// Build from the parsed `$STANDARD_INFORMATION`.
    pub fn from_attr(si: &StandardInfoAttr) -> (r: Self)
        ensures
            r == standard_info_of(*si),
    {
        StandardInfo {
            macb: Macb::from_times(&si.times),
            dos_attributes: si.file_flags,
            usn: si.usn,
        }
    }
}

/// Each of the four times is reported under its own name: to the microsecond, or as unset
/// where it is the 1601 epoch or earlier.
pub proof fn law_times_keep_their_names(t: AttrTimes)
    ensures
        ({
            let reported = |micros: i64|
                if micros > -11_644_473_600_000_000 {
                    Some(micros)
                } else {
                    None
                };
            let q = macb_of(t);
            &&& q.created == reported(t.created)
            &&& q.modified == reported(t.modified)
            &&& q.accessed == reported(t.accessed)
            &&& q.mft_modified == reported(t.mft_modified)
        }),
{
    crate::filetime::law_only_the_epoch_is_unset(Timestamp { microsecond: t.created });
    crate::filetime::law_only_the_epoch_is_unset(Timestamp { microsecond: t.modified });
    crate::filetime::law_only_the_epoch_is_unset(Timestamp { microsecond: t.accessed });
    crate::filetime::law_only_the_epoch_is_unset(Timestamp { microsecond: t.mft_modified });
}

/// A decoded `$STANDARD_INFORMATION` keeps the flags and the USN of the attribute.
pub proof fn law_standard_info_is_kept(si: StandardInfoAttr)
    ensures
        standard_info_of(si).dos_attributes == si.file_flags,
        standard_info_of(si).usn == si.usn,
        standard_info_of(si).macb == macb_of(si.times),
        unset_macb().created is None && unset_macb().modified is None && unset_macb().accessed
            is None && unset_macb().mft_modified is None,
{
}

} // verus!
