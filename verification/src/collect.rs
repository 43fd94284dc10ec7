//! Collection of the parts that go out as files.
//!
//! After composition, every text body part the composer did not consume and
//! every declared attachment becomes a file to send: all remaining text
//! parts first, in index order, then all declared attachments, in index
//! order.  A part without a well-formed declared name gets a fixed
//! placeholder name, and a malformed content-type header is reported, never
//! fatal.

use vstd::prelude::*;

use crate::message::{Attachment, MailMessage, MailPart, NameHeader};

verus! {

/// The name a collected part is displayed under: its declared name when the
/// content-type header offers one, else the fixed placeholder.
pub open spec fn spec_attach_name(h: NameHeader) -> Seq<char> {
    match h {
        NameHeader::Declared(n) => n@,
        NameHeader::Missing => "Attachment.txt"@,
        NameHeader::Malformed => "Attachment.txt"@,
    }
}

/// The parts the collector walks, in order: the text parts from the first
/// unconsumed index on, then every declared attachment.
pub open spec fn spec_collected(m: MailMessage, body_used: bool) -> Seq<MailPart> {
    tail_from(m.text_parts@, if body_used { 1int } else { 0int }) + m.file_parts@
}

/// `parts` from index `start` on; empty when `start` lies past the end.
pub open spec fn tail_from(parts: Seq<MailPart>, start: int) -> Seq<MailPart> {
    if 0 <= start <= parts.len() {
        parts.subrange(start, parts.len() as int)
    } else {
        Seq::empty()
    }
}

/// The diagnostic raised for a part whose content-type header is malformed.
pub open spec fn spec_bad_header_note() -> Seq<char> {
    "Attachment has bad ContentType header."@
}

/// The diagnostics the collector raises: one note per malformed
/// content-type header, in walk order.
pub open spec fn spec_collect_notes(parts: Seq<MailPart>) -> Seq<Seq<char>>
    decreases parts.len(),
{
    if parts.len() == 0 {
        Seq::empty()
    } else {
        (if parts[0].name is Malformed {
            seq![spec_bad_header_note()]
        } else {
            Seq::empty()
        }) + spec_collect_notes(parts.drop_first())
    }
}

proof fn lemma_collect_notes_push(parts: Seq<MailPart>, p: MailPart)
    ensures
        spec_collect_notes(parts.push(p)) == spec_collect_notes(parts) + (if p.name is Malformed {
            seq![spec_bad_header_note()]
        } else {
            Seq::<Seq<char>>::empty()
        }),
    decreases parts.len(),
{
    let tail: Seq<Seq<char>> = if p.name is Malformed {
        seq![spec_bad_header_note()]
    } else {
        Seq::empty()
    };
    if parts.len() == 0 {
        let t = parts.push(p);
        assert(t.len() == 1 && t[0] == p);
        assert(t.drop_first() =~= Seq::<MailPart>::empty());
        assert(spec_collect_notes(Seq::<MailPart>::empty()) == Seq::<Seq<char>>::empty());
        assert(spec_collect_notes(t) =~= tail);
        assert(spec_collect_notes(parts) + tail =~= tail);
    } else {
        let t = parts.push(p);
        assert(t[0] == parts[0]);
        assert(t.drop_first() =~= parts.drop_first().push(p));
        lemma_collect_notes_push(parts.drop_first(), p);
        let head: Seq<Seq<char>> = if parts[0].name is Malformed {
            seq![spec_bad_header_note()]
        } else {
            Seq::empty()
        };
        assert(spec_collect_notes(t) == head + (spec_collect_notes(parts.drop_first()) + tail));
        assert(spec_collect_notes(parts) == head + spec_collect_notes(parts.drop_first()));
        assert(head + (spec_collect_notes(parts.drop_first()) + tail) =~= (head
            + spec_collect_notes(parts.drop_first())) + tail);
    }
}

fn copy_bytes(v: &Vec<u8>) -> (r: Vec<u8>)
    ensures
        r@ == v@,
{
    let mut r: Vec<u8> = Vec::new();
    let n = v.len();
    let mut i: usize = 0;
    while i < n
        invariant
            n == v@.len(),
            i <= n,
            r@ == v@.subrange(0, i as int),
        decreases n - i,
    {
        r.push(v[i]);
        proof {
            assert(r@ =~= v@.subrange(0, i as int + 1));
        }
        i = i + 1;
    }
    proof {
        assert(v@.subrange(0, n as int) =~= v@);
    }
    r
}

fn push_one(out: &mut Vec<Attachment>, notes: &mut Vec<String>, p: &MailPart)
    ensures
        final(out)@.len() == old(out)@.len() + 1,
        forall|t: int| 0 <= t < old(out)@.len() ==> final(out)@[t] == old(out)@[t],
        (#[trigger] final(out)@[old(out)@.len() as int]).data@ == p.data@,
        final(out)@[old(out)@.len() as int].name@ == spec_attach_name(p.name),
        final(notes).deep_view() == old(notes).deep_view() + (if p.name is Malformed {
            seq![spec_bad_header_note()]
        } else {
            Seq::<Seq<char>>::empty()
        }),
{
    let ghost notes_before = notes.deep_view();
    let name: String = match &p.name {
        NameHeader::Declared(declared) => declared.clone(),
        NameHeader::Missing => String::from_str("Attachment.txt"),
        NameHeader::Malformed => {
            notes.push(String::from_str("Attachment has bad ContentType header."));
            proof {
                assert(notes.deep_view() =~= notes_before + seq![spec_bad_header_note()]);
            }
            String::from_str("Attachment.txt")
        },
    };
    let data = copy_bytes(&p.data);
    out.push(Attachment { data, name });
    proof {
        if !(p.name is Malformed) {
            assert(notes.deep_view() =~= notes_before + Seq::<Seq<char>>::empty());
        }
    }
}

/// Gathers the files to send for one message: the unconsumed text parts in
/// index order, then the declared attachments in index order, each with its
/// display name, together with one diagnostic per malformed content-type
/// header.
pub fn collect_attachments(m: &MailMessage, body_used: bool) -> (r: (Vec<Attachment>, Vec<String>))
    ensures
        ({
            let parts = spec_collected(*m, body_used);
            &&& r.0@.len() == parts.len()
            &&& forall|i: int|
                0 <= i < parts.len() ==> ((#[trigger] r.0@[i]).data@ == parts[i].data@
                    && r.0@[i].name@ == spec_attach_name(parts[i].name))
            &&& r.1.deep_view() == spec_collect_notes(parts)
        }),
{
    let ghost coll = spec_collected(*m, body_used);
    let mut out: Vec<Attachment> = Vec::new();
    let mut notes: Vec<String> = Vec::new();
    let tn = m.text_parts.len();
    let mut i: usize = if body_used {
        if tn < 1 {
            tn
        } else {
            1
        }
    } else {
        0
    };
    let ghost s0 = i as int;
    let ghost tcount = tn as int - s0;
    proof {
        assert(coll.subrange(0, 0) =~= Seq::<MailPart>::empty());
        assert(notes.deep_view() =~= Seq::<Seq<char>>::empty() + spec_collect_notes(
            coll.subrange(0, 0),
        ));
        assert(notes.deep_view() =~= spec_collect_notes(coll.subrange(0, 0)));
    }
    while i < tn
        invariant
            tn == m.text_parts@.len(),
            0 <= s0 <= i <= tn,
            tcount == tn - s0,
            coll == spec_collected(*m, body_used),
            coll.len() == tcount + m.file_parts@.len(),
            forall|t: int| s0 <= t < tn ==> coll[t - s0] == m.text_parts@[t],
            out@.len() == i - s0,
            forall|t: int|
                0 <= t < i - s0 ==> ((#[trigger] out@[t]).data@ == coll[t].data@ && out@[t].name@
                    == spec_attach_name(coll[t].name)),
            notes.deep_view() == spec_collect_notes(coll.subrange(0, i - s0)),
        decreases tn - i,
    {
        let ghost g = i - s0;
        push_one(&mut out, &mut notes, &m.text_parts[i]);
        proof {
            assert(coll[g as int] == m.text_parts@[i as int]);
            assert(coll.subrange(0, g as int + 1) =~= coll.subrange(0, g as int).push(
                coll[g as int],
            ));
            lemma_collect_notes_push(coll.subrange(0, g as int), coll[g as int]);
        }
        i = i + 1;
    }
    let fnum = m.file_parts.len();
    let mut j: usize = 0;
    while j < fnum
        invariant
            fnum == m.file_parts@.len(),
            0 <= tcount,
            j <= fnum,
            coll == spec_collected(*m, body_used),
            coll.len() == tcount + fnum,
            forall|t: int| 0 <= t < fnum ==> coll[tcount + t] == m.file_parts@[t],
            out@.len() == tcount + j,
            forall|t: int|
                0 <= t < tcount + j ==> ((#[trigger] out@[t]).data@ == coll[t].data@ && out@[t].name@
                    == spec_attach_name(coll[t].name)),
            notes.deep_view() == spec_collect_notes(coll.subrange(0, tcount + j)),
        decreases fnum - j,
    {
        let ghost g = tcount + j;
        push_one(&mut out, &mut notes, &m.file_parts[j]);
        proof {
            assert(coll[g] == m.file_parts@[j as int]);
            assert(coll.subrange(0, g + 1) =~= coll.subrange(0, g).push(coll[g]));
            lemma_collect_notes_push(coll.subrange(0, g), coll[g]);
        }
        j = j + 1;
    }
    proof {
        assert(coll.subrange(0, coll.len() as int) =~= coll);
    }
    (out, notes)
}

} // verus!
