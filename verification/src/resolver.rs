//! Settings and recipient resolution.
//!
//! The settings object is built once at startup from already-loaded
//! configuration values and never changes: the recipient mapping, the default
//! channel, the domain set, the enabled header fields and the unknown-address
//! policy.  Resolution maps every envelope address to a concrete channel,
//! falling back to the default channel when nothing else applies.

use vstd::prelude::*;

use crate::address::{check_domain, local_of, match_address, matches_domains, str_eq, valid_domain};

verus! {

/// One entry of the recipient mapping: a key and the channel it stands for.
#[derive(Debug)]
pub struct Recipient {
    pub key: String,
    pub chat: i64,
}

/// Which optional header fields the composer renders.
#[derive(Clone, Copy, PartialEq, Eq, Structural, Debug)]
pub struct Fields {
    pub subject: bool,
    pub from: bool,
    pub date: bool,
}

/// Why a settings value could not be built.
#[derive(Clone, Copy, PartialEq, Eq, Structural, Debug)]
pub enum ConfigError {
    /// Two recipient entries share a key.
    DuplicateKey,
    /// A configured domain is not well-shaped.
    BadDomain,
    /// The unknown-address policy is neither `relay` nor `deny`.
    BadPolicy,
}

/// The immutable settings of the core.
#[derive(Debug)]
pub struct Settings {
    pub recipients: Vec<Recipient>,
    pub fallback: i64,
    pub domains: Vec<String>,
    pub fields: Fields,
    pub relay: bool,
}

/// No two recipient entries share a key.
pub open spec fn keys_unique(rs: Seq<Recipient>) -> bool {
    forall|i: int, j: int| 0 <= i < j < rs.len() ==> (#[trigger] rs[i].key@) != (#[trigger] rs[j].key@)
}

/// Every configured domain is well-shaped.
pub open spec fn domains_valid(ds: Seq<String>) -> bool {
    forall|i: int| 0 <= i < ds.len() ==> valid_domain((#[trigger] ds[i])@)
}

/// The channel mapped to `key`, scanning entries in order.
pub open spec fn lookup(rs: Seq<Recipient>, key: Seq<char>) -> Option<i64>
    decreases rs.len(),
{
    if rs.len() == 0 {
        None
    } else if rs[0].key@ == key {
        Some(rs[0].chat)
    } else {
        lookup(rs.drop_first(), key)
    }
}

/// The channel an address resolves to: the mapping of its local part when it
/// is locally addressed, the mapping of the raw address otherwise, and the
/// default channel whenever the mapping has no entry.
pub open spec fn spec_resolve(s: Settings, addr: Seq<char>) -> i64 {
    match spec_lookup_of(s, addr) {
        Some(c) => c,
        None => s.fallback,
    }
}

/// The mapping entry an address reaches, if any.
pub open spec fn spec_lookup_of(s: Settings, addr: Seq<char>) -> Option<i64> {
    if matches_domains(addr, s.domains@) {
        lookup(s.recipients@, local_of(addr))
    } else {
        lookup(s.recipients@, addr)
    }
}

/// An address is known when it reaches a configured mapping entry.
pub open spec fn spec_known(s: Settings, addr: Seq<char>) -> bool {
    spec_lookup_of(s, addr) is Some
}

/// The diagnostic raised when a message names no destination at all.
pub open spec fn spec_no_destination_note() -> Seq<char> {
    "No recipient or envelope address."@
}

fn lookup_key(rs: &Vec<Recipient>, key: &str) -> (r: Option<i64>)
    ensures
        r == lookup(rs@, key@),
{
    let n = rs.len();
    let mut i: usize = 0;
    proof {
        assert(rs@.subrange(0, n as int) =~= rs@);
    }
    while i < n
        invariant
            n == rs@.len(),
            i <= n,
            lookup(rs@, key@) == lookup(rs@.subrange(i as int, n as int), key@),
        decreases n - i,
    {
        proof {
            let tail = rs@.subrange(i as int, n as int);
            assert(tail[0] == rs@[i as int]);
            assert(tail.drop_first() =~= rs@.subrange(i as int + 1, n as int));
        }
        if str_eq(rs[i].key.as_str(), key) {
            return Some(rs[i].chat);
        }
        i = i + 1;
    }
    proof {
        assert(rs@.subrange(n as int, n as int) =~= Seq::<Recipient>::empty());
    }
    None
}

fn contains_i64(v: &Vec<i64>, x: i64) -> (r: bool)
    ensures
        r == v@.contains(x),
{
    let n = v.len();
    let mut i: usize = 0;
    while i < n
        invariant
            n == v@.len(),
            i <= n,
            forall|j: int| 0 <= j < i ==> v@[j] != x,
        decreases n - i,
    {
        if v[i] == x {
            return true;
        }
        i = i + 1;
    }
    false
}

impl Settings {
    /// Builds the settings, checking what the excluded configuration loader
    /// cannot: recipient keys must be distinct, every domain well-shaped, and
    /// the unknown-address policy one of `relay` and `deny`.
    pub fn new(
        recipients: Vec<Recipient>,
        fallback: i64,
        domains: Vec<String>,
        fields: Fields,
        policy: &str,
    ) -> (r: Result<Settings, ConfigError>)
        ensures
            r is Ok <==> (keys_unique(recipients@) && domains_valid(domains@) && (policy@
                == "relay"@ || policy@ == "deny"@)),
            r is Err && !keys_unique(recipients@) ==> r->Err_0 is DuplicateKey,
            r is Err && keys_unique(recipients@) && !domains_valid(domains@) ==> r->Err_0 is BadDomain,
            r is Err && keys_unique(recipients@) && domains_valid(domains@) ==> r->Err_0 is BadPolicy,
            r is Ok ==> r->Ok_0.recipients == recipients && r->Ok_0.fallback == fallback
                && r->Ok_0.domains == domains && r->Ok_0.fields == fields && r->Ok_0.relay == (
            policy@ == "relay"@),
    {
        let n = recipients.len();
        let mut i: usize = 0;
        while i < n
            invariant
                n == recipients@.len(),
                i <= n,
                forall|a: int, b: int|
                    0 <= a < b < n && a < i ==> (#[trigger] recipients@[a].key@)
                        != (#[trigger] recipients@[b].key@),
            decreases n - i,
        {
            let mut j: usize = i + 1;
            while j < n
                invariant
                    n == recipients@.len(),
                    i < j <= n,
                    forall|b: int| i < b < j ==> (#[trigger] recipients@[b].key@) != recipients@[i as int].key@,
                decreases n - j,
            {
                if str_eq(recipients[i].key.as_str(), recipients[j].key.as_str()) {
                    return Err(ConfigError::DuplicateKey);
                }
                j = j + 1;
            }
            i = i + 1;
        }
        proof {
            assert(keys_unique(recipients@));
        }
        let dn = domains.len();
        let mut d: usize = 0;
        while d < dn
            invariant
                dn == domains@.len(),
                d <= dn,
                keys_unique(recipients@),
                forall|t: int| 0 <= t < d ==> valid_domain((#[trigger] domains@[t])@),
            decreases dn - d,
        {
            if !check_domain(domains[d].as_str()) {
                return Err(ConfigError::BadDomain);
            }
            d = d + 1;
        }
        proof {
            assert(domains_valid(domains@));
        }
        let relay = if str_eq(policy, "relay") {
            true
        } else if str_eq(policy, "deny") {
            false
        } else {
            return Err(ConfigError::BadPolicy);
        };
        Ok(Settings { recipients, fallback, domains, fields, relay })
    }

    /// Maps one envelope address to a channel.  Resolution never fails: an
    /// address that is not locally addressed is looked up as a raw key, and
    /// any miss falls back to the default channel.
    pub fn resolve(&self, addr: &str) -> (r: i64)
        ensures
            r == spec_resolve(*self, addr@),
    {
        let looked = match match_address(addr, &self.domains) {
            Some(local) => lookup_key(&self.recipients, local.as_str()),
            None => lookup_key(&self.recipients, addr),
        };
        match looked {
            Some(c) => c,
            None => self.fallback,
        }
    }

    /// Decides the mail-transfer RCPT stage: under the `relay` policy every
    /// address is deliverable; under `deny`, only one that reaches a
    /// configured mapping entry.
    pub fn rcpt_accept(&self, addr: &str) -> (r: bool)
        ensures
            r == (self.relay || spec_known(*self, addr@)),
    {
        if self.relay {
            return true;
        }
        let looked = match match_address(addr, &self.domains) {
            Some(local) => lookup_key(&self.recipients, local.as_str()),
            None => lookup_key(&self.recipients, addr),
        };
        looked.is_some()
    }

    /// Resolves every envelope address to the set of distinct channels the
    /// message goes to.  The set is never empty: a message with no recipient
    /// address at all goes to the default channel, with a diagnostic noting
    /// that no destination was present.
    pub fn resolve_all(&self, addrs: &Vec<String>) -> (r: (Vec<i64>, Vec<String>))
        ensures
            r.0@.no_duplicates(),
            r.0@.len() >= 1,
            addrs@.len() == 0 ==> r.0@ == seq![self.fallback],
            addrs@.len() > 0 ==> forall|c: i64|
                r.0@.contains(c) <==> (exists|i: int|
                    0 <= i < addrs@.len() && c == spec_resolve(*self, (#[trigger] addrs@[i])@)),
            r.1.deep_view() == if addrs@.len() == 0 {
                seq![spec_no_destination_note()]
            } else {
                Seq::<Seq<char>>::empty()
            },
    {
        let mut out: Vec<i64> = Vec::new();
        let mut notes: Vec<String> = Vec::new();
        if addrs.len() == 0 {
            out.push(self.fallback);
            notes.push(String::from_str("No recipient or envelope address."));
            proof {
                assert(out@ =~= seq![self.fallback]);
                assert(out@[0] == self.fallback);
                assert(notes.deep_view() =~= seq![spec_no_destination_note()]);
            }
            return (out, notes);
        }
        let n = addrs.len();
        let mut i: usize = 0;
        while i < n
            invariant
                n == addrs@.len(),
                i <= n,
                out@.no_duplicates(),
                i > 0 ==> out@.len() >= 1,
                notes@.len() == 0,
                forall|c: i64|
                    out@.contains(c) <==> (exists|t: int|
                        0 <= t < i && c == spec_resolve(*self, (#[trigger] addrs@[t])@)),
            decreases n - i,
        {
            let ch = self.resolve(addrs[i].as_str());
            let ghost old_out = out@;
            if !contains_i64(&out, ch) {
                out.push(ch);
                proof {
                    assert forall|a: int, b: int| 0 <= a < b < out@.len() implies out@[a] != out@[b] by {
                        if b < old_out.len() {
                        } else {
                            assert(out@[b] == ch);
                            if out@[a] == ch {
                                assert(old_out[a] == ch);
                                assert(old_out.contains(ch));
                            }
                        }
                    }
                }
            }
            proof {
                assert forall|c: i64|
                    out@.contains(c) <==> (exists|t: int|
                        0 <= t < i + 1 && c == spec_resolve(*self, (#[trigger] addrs@[t])@)) by {
                    if out@.contains(c) {
                        let k = choose|k: int| 0 <= k < out@.len() && out@[k] == c;
                        if k < old_out.len() {
                            assert(old_out[k] == c);
                            assert(old_out.contains(c));
                        } else {
                            assert(c == ch);
                            assert(spec_resolve(*self, addrs@[i as int]@) == c);
                        }
                    }
                    if exists|t: int|
                        0 <= t < i + 1 && c == spec_resolve(*self, (#[trigger] addrs@[t])@) {
                        let t = choose|t: int|
                            0 <= t < i + 1 && c == spec_resolve(*self, (#[trigger] addrs@[t])@);
                        if t < i {
                            assert(old_out.contains(c));
                            let k = choose|k: int| 0 <= k < old_out.len() && old_out[k] == c;
                            assert(out@[k] == c);
                        } else {
                            assert(c == ch);
                            if old_out.contains(ch) {
                                let k = choose|k: int| 0 <= k < old_out.len() && old_out[k] == ch;
                                assert(out@[k] == c);
                            } else {
                                assert(out@[out@.len() - 1] == ch);
                            }
                        }
                        assert(out@.contains(c));
                    }
                }
            }
            i = i + 1;
        }
        proof {
            assert(out@.contains(spec_resolve(*self, addrs@[0]@)));
            assert(out@.len() >= 1);
        }
        (out, notes)
    }
}

/// For every locally addressed recipient whose local part is a key of the
/// mapping, resolution returns exactly that entry's channel.
pub proof fn lemma_resolve_mapped(s: Settings, addr: Seq<char>, k: int)
    requires
        keys_unique(s.recipients@),
        matches_domains(addr, s.domains@),
        0 <= k < s.recipients@.len(),
        s.recipients@[k].key@ == local_of(addr),
    ensures
        spec_resolve(s, addr) == s.recipients@[k].chat,
{
    lemma_lookup_unique(s.recipients@, local_of(addr), k);
}

/// An address that is not locally addressed, or whose key has no mapping
/// entry, always resolves to the default channel.
pub proof fn lemma_resolve_fallback(s: Settings, addr: Seq<char>)
    requires
        matches_domains(addr, s.domains@) ==> lookup(s.recipients@, local_of(addr)) is None,
        !matches_domains(addr, s.domains@) ==> lookup(s.recipients@, addr) is None,
    ensures
        spec_resolve(s, addr) == s.fallback,
{
}

proof fn lemma_lookup_unique(rs: Seq<Recipient>, key: Seq<char>, k: int)
    requires
        keys_unique(rs),
        0 <= k < rs.len(),
        rs[k].key@ == key,
    ensures
        lookup(rs, key) == Some(rs[k].chat),
    decreases rs.len(),
{
    if k == 0 {
    } else {
        assert(rs[0].key@ != rs[k].key@);
        let tail = rs.drop_first();
        assert(keys_unique(tail)) by {
            assert forall|a: int, b: int| 0 <= a < b < tail.len() implies (#[trigger] tail[a].key@)
                != (#[trigger] tail[b].key@) by {
                assert(tail[a] == rs[a + 1] && tail[b] == rs[b + 1]);
            }
        }
        assert(tail[k - 1] == rs[k]);
        lemma_lookup_unique(tail, key, k - 1);
    }
}

} // verus!
