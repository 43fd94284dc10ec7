//! Message-translation core of a mail-to-messenger gateway.
//!
//! Inbound mail arrives over a mail-transfer session handled elsewhere; this
//! crate holds the part worth proving: deciding which chat channels a message
//! goes to, escaping and validating text for the platform's markup, composing
//! a size-bounded message, collecting attachments in a fixed order, and
//! planning the per-channel delivery together with its fallback diagnostics.
//! The surrounding process hands the core plain values (an envelope, a parsed
//! message view, validated settings) and carries out the planned sends.

pub mod address;
pub mod collect;
pub mod compose;
pub mod decimal;
pub mod dispatch;
pub mod errors;
pub mod markup;
pub mod message;
pub mod pipeline;
pub mod report;
pub mod resolver;
