//! Composition of the rendered message text.
//!
//! The composer assembles one header line per enabled field, then embeds the
//! first text body inside a preformatted block when it passes validation and
//! fits under the platform's per-message size limit; a body that does not
//! fit is omitted entirely rather than truncated.  Body lines are kept as
//! they are, except that line endings are normalized the way the platform
//! expects and one trailing line break is dropped.

use vstd::prelude::*;

use crate::decimal::dec_of;
use crate::decimal::dec_string;
use crate::markup::{encode, encoded, has_marker, marker, validate};
use crate::message::{Envelope, MailMessage};
use crate::resolver::Fields;

verus! {

/// The platform's hard cap on the length of one message.
pub const MESSAGE_LIMIT: usize = 4096;

/// `xs` joined by the single character `sep`.
pub open spec fn join_sp(xs: Seq<Seq<char>>, sep: char) -> Seq<char>
    decreases xs.len(),
{
    if xs.len() == 0 {
        Seq::empty()
    } else if xs.len() == 1 {
        xs[0]
    } else {
        xs[0] + seq![sep] + join_sp(xs.drop_first(), sep)
    }
}

/// The subject header line.
pub open spec fn subject_line(s: Seq<char>) -> Seq<char> {
    "__*Subject:*__ `"@ + encoded(s) + "`"@
}

/// The thread header line, used when a subject is absent.
pub open spec fn thread_line(s: Seq<char>) -> Seq<char> {
    "__*Thread:*__ `"@ + encoded(s) + "`"@
}

/// The sender header line.
pub open spec fn from_line(s: Seq<char>) -> Seq<char> {
    "__*From:*__ `"@ + encoded(s) + "`"@
}

/// The date header line.
pub open spec fn date_line(s: Seq<char>) -> Seq<char> {
    "__*Date:*__ `"@ + s + "`"@
}

/// The leading header line: the subject when present, else the thread name,
/// and nothing when the field is disabled or both are absent.
pub open spec fn spec_top_lines(f: Fields, m: MailMessage) -> Seq<Seq<char>> {
    if f.subject && m.subject is Some {
        seq![subject_line(m.subject->0@)]
    } else if f.subject && m.thread is Some {
        seq![thread_line(m.thread->0@)]
    } else {
        Seq::empty()
    }
}

/// The short header line: sender and date, each when enabled and present,
/// joined by one space.
pub open spec fn spec_short_line(f: Fields, m: MailMessage, env_from: Seq<char>) -> Seq<char> {
    let fr: Seq<Seq<char>> = if f.from {
        seq![from_line(env_from)]
    } else {
        Seq::empty()
    };
    let dt: Seq<Seq<char>> = if f.date && m.date is Some {
        seq![date_line(m.date->0@)]
    } else {
        Seq::empty()
    };
    join_sp(fr + dt, ' ')
}

/// All header lines, in order.
pub open spec fn spec_header_lines(f: Fields, m: MailMessage, env_from: Seq<char>) -> Seq<
    Seq<char>,
> {
    spec_top_lines(f, m) + seq![spec_short_line(f, m, env_from)]
}

/// The header block: header lines joined by line breaks.
pub open spec fn spec_header_text(f: Fields, m: MailMessage, env_from: Seq<char>) -> Seq<char> {
    join_sp(spec_header_lines(f, m, env_from), '\n')
}

/// The size the header block counts for against the message limit.
pub open spec fn spec_header_size(f: Fields, m: MailMessage, env_from: Seq<char>) -> int {
    spec_header_text(f, m, env_from).len() as int + 1
}

/// A body candidate exists and fits under the limit.
pub open spec fn spec_body_fits(f: Fields, m: MailMessage, env_from: Seq<char>) -> bool {
    m.body_text is Some && (m.body_text->0@.len() as int) < MESSAGE_LIMIT - spec_header_size(
        f,
        m,
        env_from,
    )
}

/// The body is embedded: it exists, fits, and passes validation.
pub open spec fn spec_body_used(f: Fields, m: MailMessage, env_from: Seq<char>) -> bool {
    spec_body_fits(f, m, env_from) && !has_marker(m.body_text->0@)
}

/// Line-ending normalization of an embedded body: each carriage return
/// directly before a line feed is dropped.
pub open spec fn strip_cr(s: Seq<char>) -> Seq<char>
    decreases s.len(),
{
    if s.len() == 0 {
        Seq::empty()
    } else if s.len() >= 2 && s[0] == '\r' && s[1] == '\n' {
        seq!['\n'] + strip_cr(s.subrange(2, s.len() as int))
    } else {
        seq![s[0]] + strip_cr(s.subrange(1, s.len() as int))
    }
}

/// A body as it stands inside the preformatted block: line endings
/// normalized and one trailing line break dropped.
pub open spec fn normalize(s: Seq<char>) -> Seq<char> {
    let t = strip_cr(s);
    if t.len() > 0 && t[t.len() - 1] == '\n' {
        t.drop_last()
    } else {
        t
    }
}

/// The rendered message: the header block alone, or the header block with
/// the body wrapped in a preformatted block.
pub open spec fn spec_rendered(f: Fields, m: MailMessage, env_from: Seq<char>) -> Seq<char> {
    let h = spec_header_text(f, m, env_from);
    if spec_body_used(f, m, env_from) {
        let b = m.body_text->0@;
        if b.len() == 0 {
            h + seq!['\n'] + marker() + seq!['\n'] + marker()
        } else {
            h + seq!['\n'] + marker() + seq!['\n'] + normalize(b) + seq!['\n'] + marker()
        }
    } else {
        h
    }
}

/// The diagnostic noting a count mismatch between HTML and text parts.
pub open spec fn spec_mismatch_note(h: int, t: int) -> Seq<char> {
    "Hm, we have "@ + dec_of(h) + " HTML parts and "@ + dec_of(t) + " text parts."@
}

/// The diagnostic noting that a body candidate failed validation.
pub open spec fn spec_validation_note() -> Seq<char> {
    "Message body failed validation."@
}

/// The diagnostics the composer raises, in order: the part-count mismatch,
/// then a validation failure of a fitting body.
pub open spec fn spec_compose_notes(f: Fields, m: MailMessage, env_from: Seq<char>) -> Seq<
    Seq<char>,
> {
    let mm: Seq<Seq<char>> = if m.html_count != m.text_parts@.len() {
        seq![spec_mismatch_note(m.html_count as int, m.text_parts@.len() as int)]
    } else {
        Seq::empty()
    };
    let vv: Seq<Seq<char>> = if spec_body_fits(f, m, env_from) && has_marker(m.body_text->0@) {
        seq![spec_validation_note()]
    } else {
        Seq::empty()
    };
    mm + vv
}

proof fn lemma_strip_cr_concat(a: Seq<char>, b: Seq<char>)
    requires
        b.len() == 0 || b[0] != '\n' || a.len() == 0 || a[a.len() - 1] != '\r',
    ensures
        strip_cr(a + b) == strip_cr(a) + strip_cr(b),
    decreases a.len(),
{
    let t = a + b;
    if a.len() == 0 {
        assert(t =~= b);
        assert(strip_cr(a) + strip_cr(b) =~= strip_cr(b));
    } else if a.len() >= 2 && a[0] == '\r' && a[1] == '\n' {
        let a2 = a.subrange(2, a.len() as int);
        assert(t.len() >= 2 && t[0] == '\r' && t[1] == '\n');
        assert(t.subrange(2, t.len() as int) =~= a2 + b);
        lemma_strip_cr_concat(a2, b);
        assert(strip_cr(t) == seq!['\n'] + (strip_cr(a2) + strip_cr(b)));
        assert(strip_cr(a) == seq!['\n'] + strip_cr(a2));
        assert(seq!['\n'] + (strip_cr(a2) + strip_cr(b)) =~= (seq!['\n'] + strip_cr(a2))
            + strip_cr(b));
    } else if a.len() == 1 && a[0] == '\r' {
        assert(a.subrange(1, 1) =~= Seq::<char>::empty());
        assert(strip_cr(Seq::<char>::empty()) == Seq::<char>::empty());
        assert(strip_cr(a) =~= seq![a[0]]);
        if b.len() == 0 {
            assert(t =~= a);
            assert(strip_cr(a) + strip_cr(b) =~= strip_cr(a));
        } else {
            assert(b[0] != '\n');
            assert(t.len() >= 2 && t[1] == b[0]);
            assert(!(t.len() >= 2 && t[0] == '\r' && t[1] == '\n'));
            assert(t.subrange(1, t.len() as int) =~= b);
            assert(strip_cr(t) == seq![t[0]] + strip_cr(b));
            assert(seq![t[0]] + strip_cr(b) =~= strip_cr(a) + strip_cr(b));
        }
    } else {
        let a1 = a.subrange(1, a.len() as int);
        assert(!(a.len() >= 2 && a[0] == '\r' && a[1] == '\n'));
        if a[0] == '\r' {
            assert(a.len() >= 2 && a[1] != '\n');
            assert(t.len() >= 2 && t[1] == a[1]);
        }
        assert(!(t.len() >= 2 && t[0] == '\r' && t[1] == '\n'));
        assert(t.subrange(1, t.len() as int) =~= a1 + b);
        if a1.len() > 0 {
            assert(a1[a1.len() - 1] == a[a.len() - 1]);
        }
        lemma_strip_cr_concat(a1, b);
        assert(strip_cr(t) == seq![t[0]] + (strip_cr(a1) + strip_cr(b)));
        assert(strip_cr(a) == seq![a[0]] + strip_cr(a1));
        assert(seq![a[0]] + (strip_cr(a1) + strip_cr(b)) =~= (seq![a[0]] + strip_cr(a1))
            + strip_cr(b));
    }
}

fn normalize_text(s: &str) -> (r: String)
    ensures
        r@ == normalize(s@),
{
    let n = s.unicode_len();
    let mut out = String::new();
    let mut i: usize = 0;
    proof {
        assert(s@.subrange(0, 0) =~= Seq::<char>::empty());
    }
    while i < n
        invariant
            n == s@.len(),
            i <= n,
            out@ == strip_cr(s@.subrange(0, i as int)),
            i == 0 || i >= n || !(s@[i as int - 1] == '\r' && s@[i as int] == '\n'),
        decreases n - i,
    {
        let c = s.get_char(i);
        let ghost pre = s@.subrange(0, i as int);
        if c == '\r' && i + 1 < n && s.get_char(i + 1) == '\n' {
            out.append("\n");
            proof {
                reveal_strlit("\n");
                let pair = s@.subrange(i as int, i as int + 2);
                assert(pair.len() == 2 && pair[0] == '\r' && pair[1] == '\n');
                assert(pair.subrange(2, 2) =~= Seq::<char>::empty());
                assert(strip_cr(Seq::<char>::empty()) == Seq::<char>::empty());
                assert(strip_cr(pair) =~= seq!['\n']);
                lemma_strip_cr_concat(pre, pair);
                assert(pre + pair =~= s@.subrange(0, i as int + 2));
                assert(out@ =~= strip_cr(s@.subrange(0, i as int + 2)));
            }
            i = i + 2;
        } else {
            out.append(s.substring_char(i, i + 1));
            proof {
                let one = s@.subrange(i as int, i as int + 1);
                assert(one.len() == 1 && one[0] == s@[i as int]);
                assert(one.subrange(1, 1) =~= Seq::<char>::empty());
                assert(strip_cr(Seq::<char>::empty()) == Seq::<char>::empty());
                assert(strip_cr(one) =~= seq![s@[i as int]]);
                if one[0] == '\n' && pre.len() > 0 {
                    assert(pre[pre.len() - 1] == s@[i as int - 1]);
                }
                lemma_strip_cr_concat(pre, one);
                assert(pre + one =~= s@.subrange(0, i as int + 1));
                assert(out@ =~= strip_cr(s@.subrange(0, i as int + 1)));
            }
            i = i + 1;
        }
    }
    proof {
        assert(s@.subrange(0, n as int) =~= s@);
    }
    let m2 = out.as_str().unicode_len();
    if m2 > 0 && out.as_str().get_char(m2 - 1) == '\n' {
        let trimmed = String::from_str(out.as_str().substring_char(0, m2 - 1));
        proof {
            assert(trimmed@ =~= strip_cr(s@).drop_last());
        }
        trimmed
    } else {
        out
    }
}

/// What the composer hands on: the rendered text, whether the first text
/// body was consumed as the message body, and the diagnostics it raised.
pub struct Composed {
    pub text: String,
    pub body_used: bool,
    pub notes: Vec<String>,
}

/// Composes the rendered message for one mail: one header line per enabled
/// field, then the first text body wrapped in a preformatted block when it
/// validates and fits strictly under the limit minus the header size.  A
/// mismatch between HTML and text part counts, or a body that fails
/// validation, is reported through the returned diagnostics and never aborts
/// composition.
#[verifier::rlimit(100)]
pub fn compose(f: Fields, m: &MailMessage, env: &Envelope) -> (r: Composed)
    ensures
        r.text@ == spec_rendered(f, *m, env.from@),
        r.body_used == spec_body_used(f, *m, env.from@),
        r.notes.deep_view() == spec_compose_notes(f, *m, env.from@),
{
    let mut top = String::new();
    let mut has_top = false;
    if f.subject {
        match &m.subject {
            Some(s) => {
                top.append("__*Subject:*__ `");
                let e = encode(s.as_str());
                top.append(e.as_str());
                top.append("`");
                has_top = true;
                proof {
                    assert(top@ =~= subject_line(m.subject->0@));
                }
            },
            None => {
                match &m.thread {
                    Some(t) => {
                        top.append("__*Thread:*__ `");
                        let e = encode(t.as_str());
                        top.append(e.as_str());
                        top.append("`");
                        has_top = true;
                        proof {
                            assert(top@ =~= thread_line(m.thread->0@));
                        }
                    },
                    None => {},
                }
            },
        }
    }
    proof {
        assert(has_top <==> spec_top_lines(f, *m).len() == 1);
        if has_top {
            assert(top@ == spec_top_lines(f, *m)[0]);
        }
    }
    let mut short = String::new();
    let mut has_from = false;
    if f.from {
        short.append("__*From:*__ `");
        let e = encode(env.from.as_str());
        short.append(e.as_str());
        short.append("`");
        has_from = true;
        proof {
            assert(short@ =~= from_line(env.from@));
        }
    }
    let mut has_date = false;
    match &m.date {
        Some(d) => {
            if f.date {
                if has_from {
                    short.append(" ");
                }
                short.append("__*Date:*__ `");
                short.append(d.as_str());
                short.append("`");
                has_date = true;
                proof {
                    reveal_strlit(" ");
                    if has_from {
                        assert(short@ =~= from_line(env.from@) + seq![' '] + date_line(
                            m.date->0@,
                        ));
                    } else {
                        assert(short@ =~= date_line(m.date->0@));
                    }
                }
            }
        },
        None => {},
    }
    proof {
        let fr: Seq<Seq<char>> = if f.from {
            seq![from_line(env.from@)]
        } else {
            Seq::empty()
        };
        let dt: Seq<Seq<char>> = if f.date && m.date is Some {
            seq![date_line(m.date->0@)]
        } else {
            Seq::empty()
        };
        if has_from && has_date {
            assert((fr + dt).len() == 2);
            assert((fr + dt)[0] == from_line(env.from@));
            assert((fr + dt).drop_first() =~= dt);
            assert(join_sp(fr + dt, ' ') == from_line(env.from@) + seq![' '] + join_sp(dt, ' '));
            assert(join_sp(dt, ' ') == date_line(m.date->0@));
        } else if has_from {
            assert(fr + dt =~= seq![from_line(env.from@)]);
        } else if has_date {
            assert(fr + dt =~= seq![date_line(m.date->0@)]);
        } else {
            assert(fr + dt =~= Seq::<Seq<char>>::empty());
            assert(short@ =~= Seq::<char>::empty());
        }
        assert(short@ == spec_short_line(f, *m, env.from@));
    }
    let header_text = if has_top {
        let mut h = top;
        h.append("\n");
        h.append(short.as_str());
        proof {
            reveal_strlit("\n");
            let lines = spec_header_lines(f, *m, env.from@);
            assert(lines.len() == 2);
            assert(lines.drop_first() =~= seq![spec_short_line(f, *m, env.from@)]);
            assert(join_sp(lines, '\n') == lines[0] + seq!['\n'] + join_sp(
                lines.drop_first(),
                '\n',
            ));
            assert(h@ =~= spec_header_text(f, *m, env.from@));
        }
        h
    } else {
        proof {
            let lines = spec_header_lines(f, *m, env.from@);
            assert(lines =~= seq![spec_short_line(f, *m, env.from@)]);
            assert(short@ == spec_header_text(f, *m, env.from@));
        }
        short
    };
    let mut notes: Vec<String> = Vec::new();
    if m.html_count != m.text_parts.len() {
        let mut note = String::from_str("Hm, we have ");
        note.append(dec_string(m.html_count).as_str());
        note.append(" HTML parts and ");
        note.append(dec_string(m.text_parts.len()).as_str());
        note.append(" text parts.");
        proof {
            assert(note@ =~= spec_mismatch_note(
                m.html_count as int,
                m.text_parts@.len() as int,
            ));
        }
        notes.push(note);
    }
    let hlen = header_text.as_str().unicode_len();
    let mut body_used = false;
    let mut out = header_text;
    match &m.body_text {
        Some(b) => {
            let blen = b.as_str().unicode_len();
            let fits = hlen < MESSAGE_LIMIT - 1 && blen < MESSAGE_LIMIT - 1 - hlen;
            proof {
                assert(fits == spec_body_fits(f, *m, env.from@));
            }
            if fits {
                match validate(b.as_str()) {
                    Ok(_) => {
                        body_used = true;
                        out.append("\n```\n");
                        if blen > 0 {
                            let norm = normalize_text(b.as_str());
                            out.append(norm.as_str());
                            out.append("\n```");
                        } else {
                            out.append("```");
                        }
                        proof {
                            reveal_strlit("\n```\n");
                            reveal_strlit("\n```");
                            reveal_strlit("```");
                            assert("\n```\n"@ =~= seq!['\n'] + marker() + seq!['\n']);
                            assert("\n```"@ =~= seq!['\n'] + marker());
                            assert("```"@ =~= marker());
                            assert(out@ =~= spec_rendered(f, *m, env.from@));
                        }
                    },
                    Err(_) => {
                        notes.push(String::from_str("Message body failed validation."));
                    },
                }
            }
        },
        None => {},
    }
    proof {
        assert(body_used == spec_body_used(f, *m, env.from@));
        if !body_used {
            assert(out@ == spec_rendered(f, *m, env.from@));
        }
        assert(notes.deep_view() =~= spec_compose_notes(f, *m, env.from@));
    }
    Composed { text: out, body_used, notes }
}

proof fn lemma_strip_cr_len(s: Seq<char>)
    ensures
        strip_cr(s).len() <= s.len(),
    decreases s.len(),
{
    if s.len() == 0 {
    } else if s.len() >= 2 && s[0] == '\r' && s[1] == '\n' {
        lemma_strip_cr_len(s.subrange(2, s.len() as int));
    } else {
        lemma_strip_cr_len(s.subrange(1, s.len() as int));
    }
}

/// Whenever a body is embedded, the whole rendered text stays within the
/// platform limit up to the fixed overhead of the preformatted block: the
/// size check counts the header lines and the body, and the two fences with
/// their line breaks add at most seven characters beyond the limit.
pub proof fn lemma_rendered_size(f: Fields, m: MailMessage, env_from: Seq<char>)
    requires
        spec_body_used(f, m, env_from),
    ensures
        spec_rendered(f, m, env_from).len() <= MESSAGE_LIMIT as int + 7,
{
    let b = m.body_text->0@;
    lemma_strip_cr_len(b);
}

/// The composer embeds the body exactly when the body's length is strictly
/// under the limit minus the header size; otherwise the rendered text is the
/// header lines alone.  Stated for bodies free of the closing fence, which
/// the validator would otherwise drop.
pub proof fn lemma_body_inclusion(f: Fields, m: MailMessage, env_from: Seq<char>)
    requires
        m.body_text is Some ==> !has_marker(m.body_text->0@),
    ensures
        spec_body_used(f, m, env_from) <==> (m.body_text is Some && (m.body_text->0@.len() as int)
            < MESSAGE_LIMIT - spec_header_size(f, m, env_from)),
        !spec_body_used(f, m, env_from) ==> spec_rendered(f, m, env_from) == spec_header_text(
            f,
            m,
            env_from,
        ),
{
}

} // verus!
