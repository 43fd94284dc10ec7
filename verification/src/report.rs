//! Preparation of diagnostics for the default channel.
//!
//! Diagnostics travel the same escaping path as any other rendered content,
//! so a report can never inject markup of its own; whoever performs the send
//! and finds it failing writes the error locally and drops it, so reporting
//! never surfaces an error back into the mail-transfer session.

use vstd::prelude::*;

use crate::markup::{encode, encoded, has_marker, lemma_encoded_no_marker};
use crate::resolver::Settings;

verus! {

impl Settings {
    /// Renders a diagnostic and names the channel it goes to: the escaped
    /// text, destined for the default channel.  Escaping alone already
    /// guarantees the text passes validation.
    pub fn prepare_report(&self, msg: &str) -> (r: (String, i64))
        ensures
            r.0@ == encoded(msg@),
            !has_marker(r.0@),
            r.1 == self.fallback,
    {
        let text = encode(msg);
        proof {
            lemma_encoded_no_marker(msg@);
        }
        (text, self.fallback)
    }
}

} // verus!
