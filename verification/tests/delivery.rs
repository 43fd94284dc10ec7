use smtp2tg::collect::collect_attachments;
use smtp2tg::compose::compose;
use smtp2tg::dispatch::{plan_delivery, DeliveryAction};
use smtp2tg::message::{Attachment, Envelope, MailMessage, MailPart, NameHeader};
use smtp2tg::resolver::{Fields, Recipient, Settings};

fn fields_all() -> Fields {
    Fields { subject: true, from: true, date: true }
}

fn empty_mail() -> MailMessage {
    MailMessage {
        subject: None,
        thread: None,
        date: None,
        html_count: 0,
        body_text: None,
        text_parts: vec![],
        file_parts: vec![],
    }
}

fn envelope(from: &str, to: &[&str]) -> Envelope {
    Envelope { from: from.to_string(), to: to.iter().map(|a| a.to_string()).collect() }
}

fn text_part(text: &str) -> MailPart {
    MailPart { data: text.as_bytes().to_vec(), name: NameHeader::Missing }
}

fn file_part(data: &[u8], name: &str) -> MailPart {
    MailPart { data: data.to_vec(), name: NameHeader::Declared(name.to_string()) }
}

#[test]
fn compose_full_message() {
    let mut m = empty_mail();
    m.subject = Some("Hi".to_string());
    m.date = Some("2024-01-01".to_string());
    m.html_count = 1;
    m.body_text = Some("hello".to_string());
    m.text_parts = vec![text_part("hello")];
    let env = envelope("a@b.c", &["alice@example.com"]);
    let r = compose(fields_all(), &m, &env);
    assert!(r.body_used);
    assert!(r.notes.is_empty());
    assert_eq!(
        r.text,
        "__*Subject:*__ `Hi`\n__*From:*__ `a@b\\.c` __*Date:*__ `2024-01-01`\n```\nhello\n```"
    );
}

#[test]
fn compose_thread_when_no_subject() {
    let mut m = empty_mail();
    m.thread = Some("some topic".to_string());
    let env = envelope("x@y.z", &[]);
    let f = Fields { subject: true, from: false, date: false };
    let r = compose(f, &m, &env);
    assert!(!r.body_used);
    assert_eq!(r.text, "__*Thread:*__ `some topic`\n");
}

#[test]
fn compose_subject_preferred_over_thread() {
    let mut m = empty_mail();
    m.subject = Some("s".to_string());
    m.thread = Some("t".to_string());
    let env = envelope("x@y.z", &[]);
    let f = Fields { subject: true, from: false, date: false };
    let r = compose(f, &m, &env);
    assert_eq!(r.text, "__*Subject:*__ `s`\n");
}

#[test]
fn compose_body_size_boundary() {
    // With every field disabled the header block is empty, so the header
    // size is 1 and a body fits only strictly under 4095 characters.
    let f = Fields { subject: false, from: false, date: false };
    let env = envelope("x@y.z", &[]);

    let mut m = empty_mail();
    m.body_text = Some("a".repeat(4094));
    m.text_parts = vec![text_part("ignored")];
    let r = compose(f, &m, &env);
    assert!(r.body_used);

    let mut m2 = empty_mail();
    m2.body_text = Some("a".repeat(4095));
    m2.text_parts = vec![text_part("ignored")];
    let r2 = compose(f, &m2, &env);
    assert!(!r2.body_used);
    assert_eq!(r2.text, "");
}

#[test]
fn compose_headers_only_when_body_too_big() {
    let mut m = empty_mail();
    m.subject = Some("big".to_string());
    m.html_count = 1;
    m.body_text = Some("x".repeat(5000));
    m.text_parts = vec![text_part("ignored")];
    let env = envelope("a@b.c", &[]);
    let f = Fields { subject: true, from: false, date: false };
    let r = compose(f, &m, &env);
    assert!(!r.body_used);
    assert_eq!(r.text, "__*Subject:*__ `big`\n");
    assert!(r.notes.is_empty());
}

#[test]
fn compose_mismatch_note() {
    let mut m = empty_mail();
    m.subject = Some("s".to_string());
    m.html_count = 1;
    let env = envelope("a@b.c", &[]);
    let f = Fields { subject: true, from: false, date: false };
    let r = compose(f, &m, &env);
    assert_eq!(r.notes.len(), 1);
    assert_eq!(r.notes[0], "Hm, we have 1 HTML parts and 0 text parts.");
    assert!(!r.body_used);
    assert_eq!(r.text, "__*Subject:*__ `s`\n");
}

#[test]
fn compose_body_with_fence_dropped_and_reported() {
    let mut m = empty_mail();
    m.subject = Some("s".to_string());
    m.html_count = 1;
    m.body_text = Some("breaking ``` out".to_string());
    m.text_parts = vec![text_part("breaking ``` out")];
    let env = envelope("a@b.c", &[]);
    let f = Fields { subject: true, from: false, date: false };
    let r = compose(f, &m, &env);
    assert!(!r.body_used);
    assert_eq!(r.text, "__*Subject:*__ `s`\n");
    assert_eq!(r.notes.len(), 1);
    assert_eq!(r.notes[0], "Message body failed validation.");
}

#[test]
fn compose_normalizes_line_endings() {
    let mut m = empty_mail();
    m.body_text = Some("a\r\nb\n".to_string());
    m.text_parts = vec![text_part("a\r\nb\n")];
    let env = envelope("x@y.z", &[]);
    let f = Fields { subject: false, from: false, date: false };
    let r = compose(f, &m, &env);
    assert!(r.body_used);
    assert_eq!(r.text, "\n```\na\nb\n```");
}

#[test]
fn compose_empty_body_keeps_fences() {
    let mut m = empty_mail();
    m.body_text = Some(String::new());
    let env = envelope("x@y.z", &[]);
    let f = Fields { subject: false, from: false, date: false };
    let r = compose(f, &m, &env);
    assert!(r.body_used);
    assert_eq!(r.text, "\n```\n```");
}

#[test]
fn collect_skips_consumed_body_part() {
    let mut m = empty_mail();
    m.text_parts = vec![text_part("the body"), text_part("extra")];
    m.file_parts = vec![file_part(b"data", "a.txt")];
    let (files, notes) = collect_attachments(&m, true);
    assert_eq!(files.len(), 2);
    assert_eq!(files[0].data, b"extra".to_vec());
    assert_eq!(files[0].name, "Attachment.txt");
    assert_eq!(files[1].data, b"data".to_vec());
    assert_eq!(files[1].name, "a.txt");
    assert!(notes.is_empty());
}

#[test]
fn collect_keeps_unconsumed_body_part() {
    let mut m = empty_mail();
    m.text_parts = vec![text_part("too big body")];
    let (files, _) = collect_attachments(&m, false);
    assert_eq!(files.len(), 1);
    assert_eq!(files[0].data, b"too big body".to_vec());
}

#[test]
fn collect_reports_malformed_content_type() {
    let mut m = empty_mail();
    m.file_parts = vec![MailPart { data: b"x".to_vec(), name: NameHeader::Malformed }];
    let (files, notes) = collect_attachments(&m, false);
    assert_eq!(files.len(), 1);
    assert_eq!(files[0].name, "Attachment.txt");
    assert_eq!(notes.len(), 1);
    assert_eq!(notes[0], "Attachment has bad ContentType header.");
}

#[test]
fn plan_text_when_no_files() {
    let text = "message".to_string();
    match plan_delivery(vec![], &text) {
        DeliveryAction::SendText { text: t } => assert_eq!(t, "message"),
        _ => panic!("expected a plain text send"),
    }
}

#[test]
fn plan_single_document_with_caption() {
    let text = "caption".to_string();
    let files = vec![Attachment { data: b"abc".to_vec(), name: "a.txt".to_string() }];
    match plan_delivery(files, &text) {
        DeliveryAction::SendDocument { file, caption } => {
            assert_eq!(file.name, "a.txt");
            assert_eq!(file.data, b"abc".to_vec());
            assert_eq!(caption, "caption");
        },
        _ => panic!("expected a single document send"),
    }
}

#[test]
fn plan_batch_caption_on_last_item_only() {
    let text = "the caption".to_string();
    let files = vec![
        Attachment { data: b"first".to_vec(), name: "a.txt".to_string() },
        Attachment { data: b"second".to_vec(), name: "b.txt".to_string() },
    ];
    match plan_delivery(files, &text) {
        DeliveryAction::SendBatch { items } => {
            assert_eq!(items.len(), 2);
            assert_eq!(items[0].file.name, "a.txt");
            assert!(items[0].caption.is_none());
            assert_eq!(items[1].file.name, "b.txt");
            assert_eq!(items[1].caption.as_deref(), Some("the caption"));
        },
        _ => panic!("expected a batched send"),
    }
}

#[test]
fn process_message_batches_attachments() {
    let s = Settings::new(
        vec![Recipient { key: "alice".to_string(), chat: 111 }],
        999,
        vec!["example.com".to_string()],
        Fields { subject: true, from: false, date: false },
        "relay",
    )
    .unwrap();
    let mut m = empty_mail();
    m.subject = Some("files".to_string());
    m.html_count = 1;
    m.body_text = Some("short body".to_string());
    m.text_parts = vec![text_part("short body")];
    m.file_parts = vec![file_part(b"one", "a.txt"), file_part(b"two", "b.txt")];
    let env = envelope("sender@elsewhere.org", &["alice@example.com"]);
    let outcome = s.process_message(&env, &m);
    assert_eq!(outcome.channels, vec![111]);
    assert!(outcome.notes.is_empty());
    match outcome.action {
        DeliveryAction::SendBatch { items } => {
            assert_eq!(items.len(), 2);
            assert_eq!(items[0].file.name, "a.txt");
            assert!(items[0].caption.is_none());
            assert_eq!(items[1].file.name, "b.txt");
            let caption = items[1].caption.as_deref().unwrap();
            assert_eq!(caption, "__*Subject:*__ `files`\n\n```\nshort body\n```");
        },
        _ => panic!("expected a batched send"),
    }
}

#[test]
fn process_message_without_recipients_uses_default() {
    let s = Settings::new(
        vec![],
        999,
        vec![],
        Fields { subject: false, from: false, date: false },
        "relay",
    )
    .unwrap();
    let m = empty_mail();
    let env = envelope("sender@elsewhere.org", &[]);
    let outcome = s.process_message(&env, &m);
    assert_eq!(outcome.channels, vec![999]);
    assert_eq!(outcome.notes.len(), 1);
    assert_eq!(outcome.notes[0], "No recipient or envelope address.");
    match outcome.action {
        DeliveryAction::SendText { text } => assert_eq!(text, ""),
        _ => panic!("expected a plain text send"),
    }
}
