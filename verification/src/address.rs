//! Recognition of locally addressed recipients.
//!
//! An address is locally addressed when the portion after its last `@`
//! equals one of the configured domains, ignoring letter case; the portion
//! before that `@` is the local part used as a mapping key.  The module also
//! checks the shape of a configured domain: dot-separated labels of
//! lower-case letters, digits and inner hyphens.

use vstd::prelude::*;

verus! {

/// A lower-case letter or a digit.
pub open spec fn is_lower_alnum(c: char) -> bool {
    (97 <= c as u32 && c as u32 <= 122) || (48 <= c as u32 && c as u32 <= 57)
}

/// A character a configured domain may contain.
pub open spec fn is_domain_char(c: char) -> bool {
    is_lower_alnum(c) || c == '-' || c == '.'
}

/// A well-shaped domain: nonempty, dot-separated labels over lower-case
/// letters, digits and hyphens, where no label starts or ends with a hyphen
/// and no label is empty.
pub open spec fn valid_domain(s: Seq<char>) -> bool {
    &&& s.len() > 0
    &&& is_lower_alnum(s[0])
    &&& is_lower_alnum(s[s.len() - 1])
    &&& forall|i: int| 0 <= i < s.len() ==> is_domain_char(#[trigger] s[i])
    &&& forall|i: int|
        0 <= i < s.len() && #[trigger] s[i] == '.' ==> 0 < i && i + 1 < s.len() && is_lower_alnum(
            s[i - 1],
        ) && is_lower_alnum(s[i + 1])
}

fn lower_alnum(c: char) -> (r: bool)
    ensures
        r == is_lower_alnum(c),
{
    let u = c as u32;
    (97 <= u && u <= 122) || (48 <= u && u <= 57)
}

/// Checks that `s` is a well-shaped domain.
pub fn check_domain(s: &str) -> (r: bool)
    ensures
        r == valid_domain(s@),
{
    let n = s.unicode_len();
    if n == 0 {
        return false;
    }
    if !lower_alnum(s.get_char(0)) {
        return false;
    }
    if !lower_alnum(s.get_char(n - 1)) {
        return false;
    }
    let mut i: usize = 0;
    while i < n
        invariant
            n == s@.len(),
            0 < n,
            i <= n,
            is_lower_alnum(s@[0]),
            is_lower_alnum(s@[n - 1]),
            forall|j: int| 0 <= j < i ==> is_domain_char(#[trigger] s@[j]),
            forall|j: int|
                0 <= j < i && #[trigger] s@[j] == '.' ==> 0 < j && j + 1 < n && is_lower_alnum(
                    s@[j - 1],
                ) && is_lower_alnum(s@[j + 1]),
        decreases n - i,
    {
        let c = s.get_char(i);
        if !(lower_alnum(c) || c == '-' || c == '.') {
            return false;
        }
        if c == '.' {
            if i == 0 || i + 1 >= n {
                return false;
            }
            if !lower_alnum(s.get_char(i - 1)) || !lower_alnum(s.get_char(i + 1)) {
                return false;
            }
        }
        i = i + 1;
    }
    true
}

/// Case-folding for domain comparison: ASCII capitals stand for their
/// lower-case forms, every other character for itself.
pub open spec fn fold_char(c: char) -> int {
    if 65 <= c as int && c as int <= 90 {
        c as int + 32
    } else {
        c as int
    }
}

/// Equality of two texts up to ASCII letter case.
pub open spec fn eq_fold(a: Seq<char>, b: Seq<char>) -> bool {
    a.len() == b.len() && forall|i: int| 0 <= i < a.len() ==> fold_char(#[trigger] a[i])
        == fold_char(b[i])
}

fn fold(c: char) -> (r: u32)
    ensures
        r as int == fold_char(c),
{
    let u = c as u32;
    if 65 <= u && u <= 90 {
        u + 32
    } else {
        u
    }
}

/// Compares two texts up to ASCII letter case.
pub fn str_eq_fold(a: &str, b: &str) -> (r: bool)
    ensures
        r == eq_fold(a@, b@),
{
    let n = a.unicode_len();
    if n != b.unicode_len() {
        return false;
    }
    let mut i: usize = 0;
    while i < n
        invariant
            n == a@.len() && n == b@.len(),
            i <= n,
            forall|j: int| 0 <= j < i ==> fold_char(#[trigger] a@[j]) == fold_char(b@[j]),
        decreases n - i,
    {
        if fold(a.get_char(i)) != fold(b.get_char(i)) {
            return false;
        }
        i = i + 1;
    }
    true
}

/// Exact equality of two texts.
pub fn str_eq(a: &str, b: &str) -> (r: bool)
    ensures
        r == (a@ == b@),
{
    let n = a.unicode_len();
    if n != b.unicode_len() {
        return false;
    }
    let mut i: usize = 0;
    while i < n
        invariant
            n == a@.len() && n == b@.len(),
            i <= n,
            forall|j: int| 0 <= j < i ==> #[trigger] a@[j] == b@[j],
        decreases n - i,
    {
        if a.get_char(i) != b.get_char(i) {
            return false;
        }
        i = i + 1;
    }
    proof {
        assert(a@ =~= b@);
    }
    true
}

/// Index of the last `@` in `s`, or -1 when there is none.
pub open spec fn last_at(s: Seq<char>) -> int
    decreases s.len(),
{
    if s.len() == 0 {
        -1
    } else if s[s.len() - 1] == '@' {
        s.len() - 1
    } else {
        last_at(s.drop_last())
    }
}

pub proof fn lemma_last_at(s: Seq<char>)
    ensures
        -1 <= last_at(s) < s.len(),
        last_at(s) >= 0 ==> s[last_at(s)] == '@',
    decreases s.len(),
{
    if s.len() == 0 {
    } else if s[s.len() - 1] == '@' {
    } else {
        lemma_last_at(s.drop_last());
    }
}

fn find_last_at(s: &str) -> (r: Option<usize>)
    ensures
        match r {
            Some(k) => last_at(s@) == k as int,
            None => last_at(s@) == -1,
        },
{
    let n = s.unicode_len();
    let mut j: usize = n;
    proof {
        assert(s@.subrange(0, n as int) =~= s@);
    }
    while j > 0
        invariant
            n == s@.len(),
            j <= n,
            last_at(s@) == last_at(s@.subrange(0, j as int)),
        decreases j,
    {
        let c = s.get_char(j - 1);
        proof {
            let pre = s@.subrange(0, j as int);
            assert(pre[j - 1] == s@[j - 1]);
            assert(pre.drop_last() =~= s@.subrange(0, j - 1));
        }
        if c == '@' {
            return Some(j - 1);
        }
        j = j - 1;
    }
    proof {
        assert(s@.subrange(0, 0) =~= Seq::<char>::empty());
    }
    None
}

/// The local part: everything before the last `@`.
pub open spec fn local_of(addr: Seq<char>) -> Seq<char> {
    addr.subrange(0, last_at(addr))
}

/// The domain portion: everything after the last `@`.
pub open spec fn domain_of(addr: Seq<char>) -> Seq<char> {
    addr.subrange(last_at(addr) + 1, addr.len() as int)
}

/// True when `addr` is locally addressed: it has an `@` and its full domain
/// portion equals one of the configured domains, ignoring letter case.
pub open spec fn matches_domains(addr: Seq<char>, domains: Seq<String>) -> bool {
    last_at(addr) >= 0 && exists|j: int|
        0 <= j < domains.len() && eq_fold(domain_of(addr), #[trigger] domains[j]@)
}

/// The address matcher: `Some(local_part)` when the domain suffix of `addr`
/// is one of the configured domains, `None` otherwise.  Matching is exact on
/// the full domain portion after the last `@`, never on a substring.
pub fn match_address(addr: &str, domains: &Vec<String>) -> (r: Option<String>)
    ensures
        r is Some <==> matches_domains(addr@, domains@),
        r is Some ==> r->0@ == local_of(addr@),
{
    let k = match find_last_at(addr) {
        Some(k) => k,
        None => {
            return None;
        },
    };
    proof {
        lemma_last_at(addr@);
    }
    let n = addr.unicode_len();
    let dom = addr.substring_char(k + 1, n);
    proof {
        assert(dom@ == domain_of(addr@));
    }
    let mut j: usize = 0;
    let dlen = domains.len();
    while j < dlen
        invariant
            dlen == domains@.len(),
            j <= dlen,
            dom@ == domain_of(addr@),
            k as int == last_at(addr@),
            (k as int) < addr@.len(),
            forall|t: int| 0 <= t < j ==> !eq_fold(domain_of(addr@), #[trigger] domains@[t]@),
        decreases dlen - j,
    {
        if str_eq_fold(dom, domains[j].as_str()) {
            let local = addr.substring_char(0, k);
            return Some(String::from_str(local));
        }
        j = j + 1;
    }
    None
}

} // verus!
