//! Classification of one step of a record scan.
//!
//! A scan over n = 1..max_n keeps two running maxima: `record_z`, the largest
//! z value seen so far, and `record_ratio`, the largest ratio z/ln(tau) seen
//! so far. Both start at the sentinel 0.0, meaning "no baseline yet". A step
//! breaks the z record when the baseline is set (`record_z > 0.0`) and the new
//! z strictly exceeds it, and likewise for the ratio; the step then emits one
//! event naming which metric broke, or a single combined event when both
//! broke at once. The caller evaluates the two floating-point comparisons and
//! hands the outcomes in as booleans.

use vstd::prelude::*;

verus! {

/// Which running maximum a scanned n has beaten: the z sum, the z/ln(tau)
/// ratio, or both at once.
#[derive(Clone, Copy, Debug, PartialEq, Eq, Structural)]
pub enum RecordKind {
    Z,
    Ratio,
    Both,
}

impl RecordKind {
    /// The tag under which a record event of this kind is reported.
    pub fn label(&self) -> (s: &'static str)
        ensures
            *self == RecordKind::Z ==> s@ == "z"@,
            *self == RecordKind::Ratio ==> s@ == "ratio"@,
            *self == RecordKind::Both ==> s@ == "both"@,
    {
        match self {
            RecordKind::Z => "z",
            RecordKind::Ratio => "ratio",
            RecordKind::Both => "both",
        }
    }
}

/// The event a scan step emits, given whether the step broke the z record
/// and whether it broke the ratio record: a combined event when both broke,
/// the single metric's event when one did, and no event otherwise.
pub open spec fn record_event(is_record_z: bool, is_record_ratio: bool) -> Option<RecordKind> {
    if is_record_z && is_record_ratio {
        Some(RecordKind::Both)
    } else if is_record_z {
        Some(RecordKind::Z)
    } else if is_record_ratio {
        Some(RecordKind::Ratio)
    } else {
        None
    }
}

/// Exactly one outcome occurs at each scan step: no event, a z event, a
/// ratio event, or one combined event — never two separate events for the
/// same n.
pub proof fn lemma_record_event_exclusive(is_record_z: bool, is_record_ratio: bool)
    ensures
        record_event(is_record_z, is_record_ratio) == Some(RecordKind::Both) <==> (is_record_z
            && is_record_ratio),
        record_event(is_record_z, is_record_ratio) == Some(RecordKind::Z) <==> (is_record_z
            && !is_record_ratio),
        record_event(is_record_z, is_record_ratio) == Some(RecordKind::Ratio) <==> (!is_record_z
            && is_record_ratio),
        record_event(is_record_z, is_record_ratio) is None <==> (!is_record_z && !is_record_ratio),
{
}

/// Decide which record event, if any, one scan step emits.
///
/// `z_baseline_set` and `ratio_baseline_set` say whether the running maxima
/// are past their 0.0 sentinels; `z_exceeds` and `ratio_exceeds` say whether
/// the step's values strictly beat the running maxima. A metric's record
/// breaks only when its baseline is set and its value exceeds the maximum:
/// the very first value evaluated establishes the baseline silently.
pub fn classify_record(
    z_baseline_set: bool,
    z_exceeds: bool,
    ratio_baseline_set: bool,
    ratio_exceeds: bool,
) -> (r: Option<RecordKind>)
    ensures
        r == record_event(z_baseline_set && z_exceeds, ratio_baseline_set && ratio_exceeds),
{
    let is_record_z: bool = z_baseline_set && z_exceeds;
    let is_record_ratio: bool = ratio_baseline_set && ratio_exceeds;
    if is_record_z && is_record_ratio {
        Some(RecordKind::Both)
    } else if is_record_z {
        Some(RecordKind::Z)
    } else if is_record_ratio {
        Some(RecordKind::Ratio)
    } else {
        None
    }
}

} // verus!
