use smtp2tg::address::match_address;
use smtp2tg::decimal::dec_string;
use smtp2tg::errors::{disposition, Disposition, Failure};
use smtp2tg::markup::{encode, validate};
use smtp2tg::resolver::{ConfigError, Fields, Recipient, Settings};

fn fields_all() -> Fields {
    Fields { subject: true, from: true, date: true }
}

fn example_settings(policy: &str) -> Settings {
    Settings::new(
        vec![
            Recipient { key: "alice".to_string(), chat: 111 },
            Recipient { key: "bob@other.net".to_string(), chat: 222 },
        ],
        999,
        vec!["example.com".to_string()],
        fields_all(),
        policy,
    )
    .unwrap()
}

#[test]
fn check_regex() {
    let res = encode("-_*[]()~`>#+|{}.!");
    assert_eq!(res, "\\-\\_\\*\\[\\]\\(\\)\\~\\`\\>\\#\\+\\|\\{\\}\\.\\!");
}

#[test]
fn encode_plain_text_unchanged() {
    assert_eq!(encode("hello world"), "hello world");
}

#[test]
fn encode_empty() {
    assert_eq!(encode(""), "");
}

#[test]
fn validate_clean_text_passes_unchanged() {
    let text = "some `inline` text, no fence";
    assert_eq!(validate(text).unwrap(), text);
}

#[test]
fn validate_fence_fails() {
    let res = validate("evil```*[injected](link)*");
    assert_eq!(res.unwrap_err(), Failure::Validation);
}

#[test]
fn validate_two_backticks_pass() {
    assert!(validate("a``b").is_ok());
}

#[test]
fn validate_fence_at_start_and_end() {
    assert!(validate("```x").is_err());
    assert!(validate("x```").is_err());
    assert!(validate("``").is_ok());
}

#[test]
fn encoded_text_always_validates() {
    let escaped = encode("fence ``` inside");
    assert!(validate(escaped.as_str()).is_ok());
}

#[test]
fn dec_string_values() {
    assert_eq!(dec_string(0), "0");
    assert_eq!(dec_string(7), "7");
    assert_eq!(dec_string(42), "42");
    assert_eq!(dec_string(120), "120");
    assert_eq!(dec_string(4096), "4096");
}

#[test]
fn match_address_extracts_local_part() {
    let domains = vec!["example.com".to_string()];
    let local = match_address("alice@example.com", &domains);
    assert_eq!(local.unwrap(), "alice");
}

#[test]
fn match_address_is_exact_not_substring() {
    let domains = vec!["example.com".to_string()];
    assert!(match_address("alice@subexample.com", &domains).is_none());
    assert!(match_address("alice@example.com.evil", &domains).is_none());
}

#[test]
fn match_address_without_at_sign() {
    let domains = vec!["example.com".to_string()];
    assert!(match_address("alice", &domains).is_none());
}

#[test]
fn resolve_mapped_local_part() {
    let s = example_settings("deny");
    assert_eq!(s.resolve("alice@example.com"), 111);
}

#[test]
fn resolve_unmapped_local_part_falls_back() {
    let s = example_settings("deny");
    assert_eq!(s.resolve("bob@example.com"), 999);
}

#[test]
fn resolve_raw_key_without_domain_match() {
    let s = example_settings("deny");
    assert_eq!(s.resolve("bob@other.net"), 222);
}

#[test]
fn resolve_domain_matching_ignores_case() {
    let s = example_settings("deny");
    assert_eq!(s.resolve("alice@EXAMPLE.Com"), 111);
}

#[test]
fn resolve_all_empty_yields_default_and_note() {
    let s = example_settings("relay");
    let (channels, notes) = s.resolve_all(&vec![]);
    assert_eq!(channels, vec![999]);
    assert_eq!(notes.len(), 1);
    assert_eq!(notes[0], "No recipient or envelope address.");
}

#[test]
fn resolve_all_deduplicates_channels() {
    let s = example_settings("relay");
    let (channels, notes) = s.resolve_all(&vec![
        "alice@example.com".to_string(),
        "alice@example.com".to_string(),
        "unknown@example.com".to_string(),
    ]);
    assert_eq!(channels.len(), 2);
    assert!(channels.contains(&111));
    assert!(channels.contains(&999));
    assert!(notes.is_empty());
}

#[test]
fn rcpt_accept_relay_policy_accepts_unknown() {
    let s = example_settings("relay");
    assert!(s.rcpt_accept("nobody@nowhere.org"));
}

#[test]
fn rcpt_accept_deny_policy_rejects_unknown() {
    let s = example_settings("deny");
    assert!(!s.rcpt_accept("nobody@nowhere.org"));
    assert!(!s.rcpt_accept("bob@example.com"));
}

#[test]
fn rcpt_accept_deny_policy_accepts_known() {
    let s = example_settings("deny");
    assert!(s.rcpt_accept("alice@example.com"));
    assert!(s.rcpt_accept("bob@other.net"));
}

#[test]
fn settings_reject_duplicate_keys() {
    let err = Settings::new(
        vec![
            Recipient { key: "alice".to_string(), chat: 1 },
            Recipient { key: "alice".to_string(), chat: 2 },
        ],
        9,
        vec![],
        fields_all(),
        "relay",
    )
    .unwrap_err();
    assert_eq!(err, ConfigError::DuplicateKey);
}

#[test]
fn settings_reject_bad_domain() {
    for bad in ["-bad.com", "bad-.com", "bad..com", "Bad.com", "", ".com", "bad.com."] {
        let err = Settings::new(vec![], 9, vec![bad.to_string()], fields_all(), "relay")
            .unwrap_err();
        assert_eq!(err, ConfigError::BadDomain, "domain {:?}", bad);
    }
}

#[test]
fn settings_accept_good_domains() {
    for good in ["localhost", "example.com", "a-b.c-d.e0", "0.0.0.0", "x"] {
        assert!(
            Settings::new(vec![], 9, vec![good.to_string()], fields_all(), "deny").is_ok(),
            "domain {:?}",
            good
        );
    }
}

#[test]
fn settings_reject_bad_policy() {
    let err = Settings::new(vec![], 9, vec![], fields_all(), "maybe").unwrap_err();
    assert_eq!(err, ConfigError::BadPolicy);
}

#[test]
fn settings_policy_sets_relay_flag() {
    assert!(Settings::new(vec![], 9, vec![], fields_all(), "relay").unwrap().relay);
    assert!(!Settings::new(vec![], 9, vec![], fields_all(), "deny").unwrap().relay);
}

#[test]
fn prepare_report_escapes_and_validates() {
    let s = example_settings("relay");
    let (text, channel) = s.prepare_report("failure: ``` odd input");
    assert_eq!(channel, 999);
    assert!(validate(text.as_str()).is_ok());
    assert_eq!(text, "failure: \\`\\`\\` odd input");
}

#[test]
fn disposition_accepted_on_partial_delivery() {
    assert_eq!(disposition(true, 3, 2), Disposition::Accepted);
    assert_eq!(disposition(true, 1, 0), Disposition::Accepted);
}

#[test]
fn disposition_temp_failed_when_all_sends_fail() {
    assert_eq!(disposition(true, 2, 2), Disposition::TempFailed);
}

#[test]
fn disposition_temp_failed_on_parse_failure() {
    assert_eq!(disposition(false, 0, 0), Disposition::TempFailed);
}
