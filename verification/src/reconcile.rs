//! Metadata reconciliation: what lands in a title's output directory as
//! its metadata record, given what the source tree held.

use crate::details::{spec_barebone_details, Details};
use crate::json::spec_details_json_bytes;
use vstd::prelude::*;

verus! {

/// What the application found when it looked for a title's metadata
/// record in the source tree.
pub enum MetadataSource {
    /// The record exists; these are its bytes, exactly as read.
    Found(Vec<u8>),
    /// No record file exists.  This is the normal, expected case for a
    /// title without metadata, not an error.
    Absent,
    /// The record exists but could not be read (permission, corruption).
    Unreadable,
}

/// The metadata step failed for its title; the title is reported failed,
/// the archives already produced stay as they are.
#[derive(Debug, Clone, Copy, PartialEq, Eq)]
pub struct MetadataError;

/// Decides the bytes of the metadata record written beside a title's
/// archives.  An existing record is kept byte for byte.  A missing record
/// is synthesized from the title's name alone, so two runs over the same
/// source write the same bytes.  Any other read failure is fatal to the
/// title's metadata step, and only to it.
pub fn reconcile_details(source: MetadataSource, title: &str) -> (r: Result<
    Vec<u8>,
    MetadataError,
>)
    ensures
        source matches MetadataSource::Found(b) ==> (r matches Ok(out) && out@ == b@),
        source is Absent ==> (r matches Ok(out) && out@ == spec_details_json_bytes(
            spec_barebone_details(title@),
        )),
        r is Err <==> source is Unreadable,
{
    match source {
        MetadataSource::Found(bytes) => Ok(bytes),
        MetadataSource::Absent => {
            let record = Details::barebone(String::from_str(title));
            Ok(record.to_json_bytes())
        },
        MetadataSource::Unreadable => Err(MetadataError),
    }
}

/// A synthesized record carries the title's name as its title, the
/// default "unknown" status code, and the fixed status legend.
pub proof fn lemma_synthesized_record(title: Seq<char>)
    ensures
        spec_barebone_details(title).title == title,
        spec_barebone_details(title).status == crate::details::spec_unknown_status(),
        spec_barebone_details(title).status_values == crate::details::spec_status_legend(),
{
}

/// Synthesis is idempotent: whatever two runs over the same missing
/// source each wrote for a title, the two sidecars hold the same bytes.
pub proof fn lemma_synthesis_idempotent(title: Seq<char>, first: Seq<u8>, second: Seq<u8>)
    requires
        first == spec_details_json_bytes(spec_barebone_details(title)),
        second == spec_details_json_bytes(spec_barebone_details(title)),
    ensures
        first == second,
{
}

} // verus!
