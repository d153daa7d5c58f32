//! The NTFS `$MFT` forensic-timeline engine.
//!
//! No wire format, no I/O: this crate turns a `$MFT` byte buffer into decoded
//! records, reconstructed paths, MACB timestamp quads, and a timestomp score, and
//! holds the scan that threads them across batches. The byte-level record parse is
//! delegated to the `mft` crate (fixup application, header validation, attribute
//! slicing); this crate owns the path-reconstruction resolver, the normalized
//! timeline view, the externalized cursor, and the timestomp heuristic.

pub mod attribute;
pub mod batches;
pub mod built;
pub mod bytes;
pub mod columns;
pub mod cursor;
pub mod data;
pub mod decoder;
pub mod entry;
pub mod errors;
pub mod fan_out;
pub mod file_name;
pub mod filetime;
pub mod hazard;
pub mod json;
pub mod meta;
pub mod options;
pub mod parse;
pub mod read_back;
pub mod record;
pub mod record_table;
pub mod resolver;
pub mod scalars;
pub mod scan;
pub mod standard_info;
pub mod synth;
pub mod text;
pub mod timeline;
pub mod timestomp;

use vstd::prelude::*;

pub use crate::cursor::{MftCursor, MftScanState, ResolverNode, DEFAULT_MAX_DEPTH};
pub use crate::data::{AttrInfo, DataStream, DataStreams};
pub use crate::decoder::{decode_one, full_path, record_header, well_formed, Decoder};
pub use crate::errors::{classify_parse_error, WellFormed, WellFormedKind};
pub use crate::file_name::{FileName, Namespace};
pub use crate::parse::{parse_record, ParseOutcome};
pub use crate::record::{decode_entry, DecodedRecord, RecordHeader, RESIDENT_CAP};
pub use crate::resolver::{resolve as resolve_path, ResolvedPath, ROOT_ENTRY};
pub use crate::standard_info::{Macb, StandardInfo};
pub use crate::timestomp::{evaluate as timestomp, Reason, Timestomp};

verus! {

/// Worker and engine version (the crate version).
pub fn version() -> (r: &'static str)
    ensures
        r@ == "0.1.0"@,
{
    "0.1.0"
}

} // verus!
