//! The whole path of one message through the core.
//!
//! One call resolves the channel set, composes the rendered text, collects
//! the files and plans the delivery; the caller performs the planned send
//! for every channel and forwards the collected diagnostics to the default
//! channel.

use vstd::prelude::*;

use crate::collect::{collect_attachments, spec_attach_name, spec_collect_notes, spec_collected};
use crate::compose::{compose, spec_body_used, spec_compose_notes, spec_rendered, Composed};
use crate::dispatch::{action_for, plan_delivery, DeliveryAction};
use crate::message::{Envelope, MailMessage, MailPart};
use crate::resolver::{spec_no_destination_note, spec_resolve, Settings};

verus! {

/// Everything the caller needs to deliver one message: the distinct resolved
/// channels, the one send each channel receives, and the diagnostics raised
/// along the way, in stage order.
pub struct Outcome {
    pub channels: Vec<i64>,
    pub action: DeliveryAction,
    pub notes: Vec<String>,
}

/// The diagnostics one message raises, in stage order: resolution first,
/// then composition, then collection.
pub open spec fn spec_all_notes(s: Settings, env: Envelope, m: MailMessage) -> Seq<Seq<char>> {
    (if env.to@.len() == 0 {
        seq![spec_no_destination_note()]
    } else {
        Seq::<Seq<char>>::empty()
    }) + spec_compose_notes(s.fields, m, env.from@) + spec_collect_notes(
        spec_collected(m, spec_body_used(s.fields, m, env.from@)),
    )
}

impl Settings {
    /// Runs one accepted message through the core: the channel set is never
    /// empty, the planned action carries the rendered text and the collected
    /// files in order, and every diagnostic is handed back rather than
    /// raised.
    pub fn process_message(&self, env: &Envelope, m: &MailMessage) -> (r: Outcome)
        ensures
            r.channels@.no_duplicates(),
            r.channels@.len() >= 1,
            env.to@.len() == 0 ==> r.channels@ == seq![self.fallback],
            env.to@.len() > 0 ==> forall|c: i64|
                r.channels@.contains(c) <==> (exists|i: int|
                    0 <= i < env.to@.len() && c == spec_resolve(*self, (#[trigger] env.to@[i])@)),
            action_for(
                r.action,
                spec_collected(*m, spec_body_used(self.fields, *m, env.from@)).map_values(
                    |p: MailPart| p.data@,
                ),
                spec_collected(*m, spec_body_used(self.fields, *m, env.from@)).map_values(
                    |p: MailPart| spec_attach_name(p.name),
                ),
                spec_rendered(self.fields, *m, env.from@),
            ),
            r.notes.deep_view() == spec_all_notes(*self, *env, *m),
    {
        let (channels, notes) = self.resolve_all(&env.to);
        let mut notes = notes;
        let composed = compose(self.fields, m, env);
        let Composed { text, body_used, notes: cnotes } = composed;
        let mut cnotes = cnotes;
        let (files, knotes) = collect_attachments(m, body_used);
        let mut knotes = knotes;
        let ghost dv_resolve = notes.deep_view();
        let ghost dv_compose = cnotes.deep_view();
        let ghost dv_collect = knotes.deep_view();
        notes.append(&mut cnotes);
        notes.append(&mut knotes);
        proof {
            assert(notes.deep_view() =~= (dv_resolve + dv_compose) + dv_collect);
            assert((dv_resolve + dv_compose) + dv_collect =~= spec_all_notes(*self, *env, *m));
        }
        let action = plan_delivery(files, &text);
        proof {
            let parts = spec_collected(*m, spec_body_used(self.fields, *m, env.from@));
            assert(files@.map_values(|f: crate::message::Attachment| f.data@) =~= parts.map_values(
                |p: MailPart| p.data@,
            ));
            assert(files@.map_values(|f: crate::message::Attachment| f.name@) =~= parts.map_values(
                |p: MailPart| spec_attach_name(p.name),
            ));
        }
        Outcome { channels, action, notes }
    }
}

} // verus!
