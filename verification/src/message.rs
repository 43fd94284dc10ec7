//! The plain-value view of one inbound mail.
//!
//! The mail-transfer session and the MIME parser live outside the core; they
//! hand it an envelope and a parsed message view holding only plain values:
//! optional header strings, part counts, and each part's raw bytes together
//! with what its content-type header declared as a file name.

use vstd::prelude::*;

verus! {

/// The envelope of one mail-transfer session: the declared sender and the
/// ordered list of recipient addresses.
#[derive(Debug)]
pub struct Envelope {
    pub from: String,
    pub to: Vec<String>,
}

/// What a part's content-type header says about its file name: a well-formed
/// name, no name at all, or a header too malformed to read.
#[derive(Debug)]
pub enum NameHeader {
    Declared(String),
    Missing,
    Malformed,
}

/// One body part or declared attachment: its raw bytes and its declared name.
#[derive(Debug)]
pub struct MailPart {
    pub data: Vec<u8>,
    pub name: NameHeader,
}

/// The parsed view of one mail, as the MIME parser reports it: optional
/// subject, thread name and date, the count of HTML body parts, the decoded
/// text of the first text body part when one exists, and the raw text parts
/// and declared attachments in extraction order.
#[derive(Debug)]
pub struct MailMessage {
    pub subject: Option<String>,
    pub thread: Option<String>,
    pub date: Option<String>,
    pub html_count: usize,
    pub body_text: Option<String>,
    pub text_parts: Vec<MailPart>,
    pub file_parts: Vec<MailPart>,
}

/// A file ready to send: raw bytes and the name to display for them.
#[derive(Debug)]
pub struct Attachment {
    pub data: Vec<u8>,
    pub name: String,
}

} // verus!
