//! Escaping and validation of text for the messaging platform's markup.
//!
//! Raw mail content ends up inside platform messages, so every structural
//! markup character must be escaped, and text embedded in a preformatted
//! block must not contain the block's closing fence (the injection vector
//! this core guards against).

use vstd::prelude::*;

use crate::errors::Failure;

verus! {

/// Characters the platform's markup treats as structural.
pub open spec fn is_special(c: char) -> bool {
    ||| c == '-'
    ||| c == '_'
    ||| c == '*'
    ||| c == '['
    ||| c == ']'
    ||| c == '('
    ||| c == ')'
    ||| c == '~'
    ||| c == '`'
    ||| c == '>'
    ||| c == '#'
    ||| c == '+'
    ||| c == '|'
    ||| c == '{'
    ||| c == '}'
    ||| c == '.'
    ||| c == '!'
}

/// The escape of one character: structural characters gain a leading backslash.
pub open spec fn encoded_char(c: char) -> Seq<char> {
    if is_special(c) {
        seq!['\\', c]
    } else {
        seq![c]
    }
}

/// The escape of a whole text, character by character.
pub open spec fn encoded(s: Seq<char>) -> Seq<char>
    decreases s.len(),
{
    if s.len() == 0 {
        Seq::empty()
    } else {
        encoded_char(s[0]) + encoded(s.subrange(1, s.len() as int))
    }
}

proof fn lemma_encoded_push(s: Seq<char>, c: char)
    ensures
        encoded(s.push(c)) == encoded(s) + encoded_char(c),
    decreases s.len(),
{
    if s.len() == 0 {
        let t = s.push(c);
        assert(t.len() == 1 && t[0] == c);
        assert(encoded(t) == encoded_char(c) + encoded(t.subrange(1, 1)));
        assert(t.subrange(1, 1) =~= Seq::<char>::empty());
        assert(encoded(Seq::<char>::empty()) == Seq::<char>::empty());
        assert(encoded_char(c) + Seq::<char>::empty() =~= encoded_char(c));
        assert(encoded(s) == Seq::<char>::empty());
        assert(Seq::<char>::empty() + encoded_char(c) =~= encoded_char(c));
    } else {
        let tail = s.subrange(1, s.len() as int);
        let t = s.push(c);
        assert(t.subrange(1, t.len() as int) =~= tail.push(c));
        lemma_encoded_push(tail, c);
        assert(t[0] == s[0]);
        assert(encoded(t) == encoded_char(s[0]) + (encoded(tail) + encoded_char(c)));
        assert(encoded(s) == encoded_char(s[0]) + encoded(tail));
        assert(encoded_char(s[0]) + (encoded(tail) + encoded_char(c)) =~= (encoded_char(s[0])
            + encoded(tail)) + encoded_char(c));
        assert(encoded(s.push(c)) =~= encoded(s) + encoded_char(c));
    }
}

fn special(c: char) -> (r: bool)
    ensures
        r == is_special(c),
{
    c == '-' || c == '_' || c == '*' || c == '[' || c == ']' || c == '(' || c == ')' || c == '~'
        || c == '`' || c == '>' || c == '#' || c == '+' || c == '|' || c == '{' || c == '}'
        || c == '.' || c == '!'
}

/// Escapes every structural markup character in `text` with a backslash, so
/// that raw mail content can stand in a platform message without being read
/// as markup.
pub fn encode(text: &str) -> (r: String)
    ensures
        r@ == encoded(text@),
{
    let n = text.unicode_len();
    let mut out = String::new();
    let mut i: usize = 0;
    while i < n
        invariant
            n == text@.len(),
            i <= n,
            out@ == encoded(text@.subrange(0, i as int)),
        decreases n - i,
    {
        let c = text.get_char(i);
        if special(c) {
            out.append("\\");
        }
        out.append(text.substring_char(i, i + 1));
        proof {
            reveal_strlit("\\");
            assert(text@.subrange(i as int, i as int + 1) =~= seq![text@[i as int]]);
            lemma_encoded_push(text@.subrange(0, i as int), text@[i as int]);
            assert(text@.subrange(0, i as int).push(text@[i as int]) =~= text@.subrange(
                0,
                i as int + 1,
            ));
            assert(out@ =~= encoded(text@.subrange(0, i as int + 1)));
        }
        i = i + 1;
    }
    proof {
        assert(text@.subrange(0, n as int) =~= text@);
    }
    out
}

/// The closing fence of the platform's preformatted block.
pub open spec fn marker() -> Seq<char> {
    seq!['`', '`', '`']
}

/// True when the closing fence occurs anywhere in `s`.
pub open spec fn has_marker(s: Seq<char>) -> bool {
    exists|i: int| 0 <= i && i + 3 <= s.len() && #[trigger] s.subrange(i, i + 3) == marker()
}

/// Checks that `text` is free of the preformatted-block closing fence and
/// passes it through unchanged; text containing the fence is rejected, since
/// embedding it would end the block early and let injected markup render.
pub fn validate(text: &str) -> (r: Result<&str, Failure>)
    ensures
        r is Ok <==> !has_marker(text@),
        r is Ok ==> r->Ok_0@ == text@,
        r is Err ==> r->Err_0 is Validation,
{
    let n = text.unicode_len();
    if n < 3 {
        return Ok(text);
    }
    let mut i: usize = 0;
    while i <= n - 3
        invariant
            3 <= n == text@.len(),
            i <= n - 2,
            forall|j: int| 0 <= j < i ==> #[trigger] text@.subrange(j, j + 3) != marker(),
        decreases n - i,
    {
        let a = text.get_char(i);
        let b = text.get_char(i + 1);
        let c = text.get_char(i + 2);
        if a == '`' && b == '`' && c == '`' {
            proof {
                assert(text@.subrange(i as int, i as int + 3) =~= marker());
            }
            return Err(Failure::Validation);
        }
        proof {
            let sub = text@.subrange(i as int, i as int + 3);
            assert(sub[0] == a && sub[1] == b && sub[2] == c);
            assert(sub != marker());
        }
        i = i + 1;
    }
    Ok(text)
}

/// In escaped text every backtick is immediately preceded by a backslash.
spec fn backticks_escaped(t: Seq<char>) -> bool {
    forall|k: int| 0 <= k < t.len() && #[trigger] t[k] == '`' ==> k > 0 && t[k - 1] == '\\'
}

proof fn lemma_backticks_escaped(s: Seq<char>)
    ensures
        backticks_escaped(encoded(s)),
    decreases s.len(),
{
    if s.len() == 0 {
    } else {
        let head = encoded_char(s[0]);
        let rest = encoded(s.subrange(1, s.len() as int));
        lemma_backticks_escaped(s.subrange(1, s.len() as int));
        let t = encoded(s);
        assert(t =~= head + rest);
        assert forall|k: int| 0 <= k < t.len() && #[trigger] t[k] == '`' implies k > 0 && t[k - 1]
            == '\\' by {
            if k < head.len() {
                assert(is_special('`'));
                assert(t[k] == head[k]);
            } else {
                let m = k - head.len();
                assert(t[k] == rest[m]);
                assert(m > 0 && rest[m - 1] == '\\');
                assert(t[k - 1] == rest[m - 1]);
            }
        }
    }
}

/// Escaping is injection-safe: the escape of any text is free of the
/// preformatted-block closing fence, so an escaped diagnostic or header can
/// never break out of the platform's markup.
pub proof fn lemma_encoded_no_marker(s: Seq<char>)
    ensures
        !has_marker(encoded(s)),
{
    let t = encoded(s);
    lemma_backticks_escaped(s);
    assert forall|i: int| 0 <= i && i + 3 <= t.len() implies #[trigger] t.subrange(i, i + 3)
        != marker() by {
        let sub = t.subrange(i, i + 3);
        if sub == marker() {
            assert(sub[0] == t[i] && sub[1] == t[i + 1]);
            assert(t[i + 1] == '`');
            assert(t[i] == '\\');
            assert(marker()[0] == '`');
        }
    }
}

} // verus!
