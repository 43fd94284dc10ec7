//! Failure taxonomy and the final disposition of a message.

use vstd::prelude::*;

verus! {

/// One failure kind per stage of the core.  Only a parse failure and a total
/// delivery failure ever surface to the mail-transfer layer; the rest are
/// recovered locally.
#[derive(Clone, Copy, Debug, PartialEq, Eq, Structural)]
pub enum Failure {
    /// The raw mail could not be turned into a parsed message view.
    Parse,
    /// Text contains the platform's closing fence and was rejected.
    Validation,
    /// A per-channel send failed.
    Delivery,
    /// Reporting a diagnostic to the fallback channel itself failed.
    Diagnostic,
}

/// The word handed back to the mail-transfer layer about one message:
/// accepted, or temporarily failed (the sender may retry).  This core never
/// rejects a message permanently.
#[derive(Clone, Copy, Debug, PartialEq, Eq, Structural)]
pub enum Disposition {
    Accepted,
    TempFailed,
}

/// Decides the disposition of a message after delivery was attempted.
///
/// A message is accepted unless its mail could not be parsed or every single
/// channel send failed; partial delivery still counts as accepted, since
/// diagnostics are best-effort.
pub fn disposition(parsed: bool, attempted: usize, failed: usize) -> (d: Disposition)
    requires
        failed <= attempted,
    ensures
        d is Accepted <==> (parsed && !(attempted > 0 && failed == attempted)),
{
    if parsed && (attempted == 0 || failed < attempted) {
        Disposition::Accepted
    } else {
        Disposition::TempFailed
    }
}

} // verus!
