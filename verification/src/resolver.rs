//! The live certificate resolver: the holder of "the current certificate
//! for domain D", consulted on every incoming handshake.
//!
//! `publish` replaces the active record for a domain as a single swap: a
//! lookup sees either the record published before or the one published
//! after, always whole — the chain and the key pair that entered together
//! leave together. The orchestrator is the only writer.

use vstd::prelude::*;
use vstd::pervasive::VecAdditionalExecFns;
use crate::cert::CertView;
use crate::cert::CertificateRecord;

verus! {

/// Finds the record held for domain `d`, scanning from the front.
pub open spec fn resolver_find(s: Seq<(String, CertificateRecord)>, d: Seq<char>) -> Option<
    CertView,
>
    decreases s.len(),
{
    if s.len() == 0 {
        None
    } else if s[0].0@ == d {
        Some(s[0].1@)
    } else {
        resolver_find(s.drop_first(), d)
    }
}

/// Domains in the table are pairwise distinct.
pub open spec fn resolver_keys_unique(s: Seq<(String, CertificateRecord)>) -> bool {
    forall|i: int, j: int| 0 <= i < j < s.len() ==> s[i].0@ != s[j].0@
}

proof fn lemma_resolver_find_skip(s: Seq<(String, CertificateRecord)>, i: int, d: Seq<char>)
    requires
        0 <= i <= s.len(),
        forall|j: int| 0 <= j < i ==> s[j].0@ != d,
    ensures
        resolver_find(s, d) == resolver_find(s.skip(i), d),
    decreases i,
{
    if i > 0 {
        assert(s.skip(1) =~= s.drop_first());
        lemma_resolver_find_skip(s.drop_first(), i - 1, d);
        assert(s.drop_first().skip(i - 1) =~= s.skip(i));
    } else {
        assert(s.skip(0) =~= s);
    }
}

proof fn lemma_resolver_find_none(s: Seq<(String, CertificateRecord)>, d: Seq<char>)
    requires
        forall|j: int| 0 <= j < s.len() ==> s[j].0@ != d,
    ensures
        resolver_find(s, d) is None,
    decreases s.len(),
{
    if s.len() > 0 {
        lemma_resolver_find_none(s.drop_first(), d);
    }
}

proof fn lemma_resolver_find_push(
    s: Seq<(String, CertificateRecord)>,
    e: (String, CertificateRecord),
    d: Seq<char>,
)
    ensures
        resolver_find(s, d) is None && e.0@ == d ==> resolver_find(s.push(e), d) == Some(e.1@),
        e.0@ != d ==> resolver_find(s.push(e), d) == resolver_find(s, d),
    decreases s.len(),
{
    if s.len() == 0 {
        assert(s.push(e)[0] == e);
        assert(s.push(e).drop_first() =~= Seq::<(String, CertificateRecord)>::empty());
        assert(resolver_find(Seq::<(String, CertificateRecord)>::empty(), d) is None);
        assert(resolver_find(s, d) is None);
    } else {
        assert(s.push(e)[0] == s[0]);
        assert(s.push(e).drop_first() =~= s.drop_first().push(e));
        lemma_resolver_find_push(s.drop_first(), e, d);
    }
}

proof fn lemma_resolver_find_update(
    s: Seq<(String, CertificateRecord)>,
    i: int,
    e: (String, CertificateRecord),
    d: Seq<char>,
)
    requires
        0 <= i < s.len(),
        resolver_keys_unique(s),
        s[i].0@ == e.0@,
    ensures
        e.0@ == d ==> resolver_find(s.update(i, e), d) == Some(e.1@),
        e.0@ != d ==> resolver_find(s.update(i, e), d) == resolver_find(s, d),
    decreases s.len(),
{
    if i == 0 {
        assert(s.update(0, e)[0] == e);
        assert(s.update(0, e).drop_first() =~= s.drop_first());
    } else {
        assert(s.update(i, e)[0] == s[0]);
        assert(s.update(i, e).drop_first() =~= s.drop_first().update(i - 1, e));
        assert(resolver_keys_unique(s.drop_first())) by {
            assert(forall|p: int, q: int|
                0 <= p < q < s.drop_first().len() ==> s.drop_first()[p] == s[p + 1]
                    && s.drop_first()[q] == s[q + 1]);
        }
        lemma_resolver_find_update(s.drop_first(), i - 1, e, d);
    }
}

/// The per-domain table of live certificates, with a counter of how many
/// publishes ever happened.
pub struct Resolver {
    pub entries: Vec<(String, CertificateRecord)>,
    pub publish_count: u64,
}

impl Resolver {
    /// The table never holds two records for one domain.
    pub open spec fn wf(self) -> bool {
        resolver_keys_unique(self.entries@)
    }

    /// The record currently in effect for domain `d`, if any.
    pub open spec fn spec_current(self, d: Seq<char>) -> Option<CertView> {
        resolver_find(self.entries@, d)
    }

    /// A fresh resolver: nothing published yet, every handshake is refused.
    pub fn new() -> (r: Resolver)
        ensures
            r.wf(),
            forall|d: Seq<char>| r.spec_current(d) is None,
            r.publish_count == 0,
    {
        let r = Resolver { entries: Vec::new(), publish_count: 0 };
        proof {
            assert forall|d: Seq<char>| r.spec_current(d) is None by {
                lemma_resolver_find_none(r.entries@, d);
            }
        }
        r
    }

    /// The handshake-path query: the certificate to serve for `domain`, or
    /// `None` when none was ever published — the caller must then reject the
    /// handshake rather than serve nothing.
    pub fn current(&self, domain: &String) -> (r: Option<&CertificateRecord>)
        ensures
            match r {
                Some(c) => self.spec_current(domain@) == Some(c@),
                None => self.spec_current(domain@) is None,
            },
    {
        let mut i: usize = 0;
        while i < self.entries.len()
            invariant
                i <= self.entries@.len(),
                forall|j: int| 0 <= j < i ==> self.entries@[j].0@ != domain@,
            decreases self.entries@.len() - i,
        {
            if self.entries[i].0 == *domain {
                proof {
                    lemma_resolver_find_skip(self.entries@, i as int, domain@);
                }
                return Some(&self.entries[i].1);
            }
            i = i + 1;
        }
        proof {
            lemma_resolver_find_none(self.entries@, domain@);
        }
        None
    }

    /// Replaces the record in effect for `domain` in one swap: the new
    /// record, chain and key together, is what every later lookup returns,
    /// and no other domain's record is touched.
    pub fn publish(&mut self, domain: &String, record: CertificateRecord)
        requires
            old(self).wf(),
            old(self).publish_count < u64::MAX,
        ensures
            final(self).wf(),
            final(self).spec_current(domain@) == Some(record@),
            forall|d: Seq<char>|
                d != domain@ ==> final(self).spec_current(d) == old(self).spec_current(d),
            final(self).publish_count == old(self).publish_count + 1,
    {
        let mut i: usize = 0;
        while i < self.entries.len()
            invariant
                i <= self.entries@.len(),
                forall|j: int| 0 <= j < i ==> self.entries@[j].0@ != domain@,
                self.wf(),
                *self == *old(self),
                old(self).publish_count < u64::MAX,
            decreases self.entries@.len() - i,
        {
            if self.entries[i].0 == *domain {
                let key = self.entries[i].0.clone();
                proof {
                    let s = self.entries@;
                    lemma_resolver_find_update(s, i as int, (key, record), domain@);
                    assert forall|d: Seq<char>| d != domain@ implies resolver_find(
                        s.update(i as int, (key, record)),
                        d,
                    ) == resolver_find(s, d) by {
                        lemma_resolver_find_update(s, i as int, (key, record), d);
                    }
                    assert(resolver_keys_unique(s.update(i as int, (key, record))));
                }
                self.entries.set(i, (key, record));
                self.publish_count = self.publish_count + 1;
                return;
            }
            i = i + 1;
        }
        proof {
            lemma_resolver_find_none(self.entries@, domain@);
        }
        let owned = domain.clone();
        proof {
            let s = self.entries@;
            lemma_resolver_find_push(s, (owned, record), domain@);
            assert forall|d: Seq<char>| d != domain@ implies resolver_find(
                s.push((owned, record)),
                d,
            ) == resolver_find(s, d) by {
                lemma_resolver_find_push(s, (owned, record), d);
            }
            assert(resolver_keys_unique(s.push((owned, record))));
        }
        self.entries.push((owned, record));
        self.publish_count = self.publish_count + 1;
    }
}

} // verus!
