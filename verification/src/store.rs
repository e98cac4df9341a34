//! The key/certificate store: durable persistence for the account and for
//! issued certificate records, keyed by (authority identity, domain set).
//!
//! Writes are crash-atomic in the write-new-then-commit style: a record is
//! first staged and then committed in one step. A write that is interrupted
//! before the commit leaves the previously committed record intact; no
//! half-written record is ever returned by a load. A read failure that is
//! not "not found" is surfaced as [`StoreError`], distinct from absence, so
//! the caller does not mistake a storage outage for a fresh start.

use vstd::prelude::*;
use vstd::pervasive::VecAdditionalExecFns;
use crate::cert::CertView;
use crate::cert::CertificateRecord;
use crate::protocol::Account;

verus! {

/// A storage failure that is not "not found".
#[derive(PartialEq, Eq, Structural, Clone, Copy, Debug)]
pub enum StoreError {
    Unavailable,
}

/// One committed certificate record with its key.
pub struct StoreEntry {
    pub authority_id: u64,
    pub domains: Vec<String>,
    pub record: CertificateRecord,
}

/// Whether entry `e` is stored under `(a, d)`.
pub open spec fn entry_matches(e: StoreEntry, a: u64, d: Seq<Seq<char>>) -> bool {
    e.authority_id == a && e.domains.deep_view() == d
}

/// Finds the committed record for `(a, d)`, scanning from the front.
pub open spec fn store_find(s: Seq<StoreEntry>, a: u64, d: Seq<Seq<char>>) -> Option<CertView>
    decreases s.len(),
{
    if s.len() == 0 {
        None
    } else if entry_matches(s[0], a, d) {
        Some(s[0].record@)
    } else {
        store_find(s.drop_first(), a, d)
    }
}

/// Keys in the committed table are pairwise distinct.
pub open spec fn store_keys_unique(s: Seq<StoreEntry>) -> bool {
    forall|i: int, j: int|
        0 <= i < j < s.len() ==> !(s[i].authority_id == s[j].authority_id
            && s[i].domains.deep_view() == s[j].domains.deep_view())
}

proof fn lemma_store_find_skip(s: Seq<StoreEntry>, i: int, a: u64, d: Seq<Seq<char>>)
    requires
        0 <= i <= s.len(),
        forall|j: int| 0 <= j < i ==> !entry_matches(s[j], a, d),
    ensures
        store_find(s, a, d) == store_find(s.skip(i), a, d),
    decreases i,
{
    if i > 0 {
        assert(s.skip(1) =~= s.drop_first());
        lemma_store_find_skip(s.drop_first(), i - 1, a, d);
        assert(s.drop_first().skip(i - 1) =~= s.skip(i));
    } else {
        assert(s.skip(0) =~= s);
    }
}

proof fn lemma_store_find_none(s: Seq<StoreEntry>, a: u64, d: Seq<Seq<char>>)
    requires
        forall|j: int| 0 <= j < s.len() ==> !entry_matches(s[j], a, d),
    ensures
        store_find(s, a, d) is None,
    decreases s.len(),
{
    if s.len() > 0 {
        lemma_store_find_none(s.drop_first(), a, d);
    }
}

proof fn lemma_store_find_push(s: Seq<StoreEntry>, e: StoreEntry, a: u64, d: Seq<Seq<char>>)
    ensures
        store_find(s, a, d) is None && entry_matches(e, a, d) ==> store_find(s.push(e), a, d)
            == Some(e.record@),
        !entry_matches(e, a, d) ==> store_find(s.push(e), a, d) == store_find(s, a, d),
    decreases s.len(),
{
    if s.len() == 0 {
        assert(s.push(e)[0] == e);
        assert(s.push(e).drop_first() =~= Seq::<StoreEntry>::empty());
        assert(store_find(Seq::<StoreEntry>::empty(), a, d) is None);
        assert(store_find(s, a, d) is None);
    } else {
        assert(s.push(e)[0] == s[0]);
        assert(s.push(e).drop_first() =~= s.drop_first().push(e));
        lemma_store_find_push(s.drop_first(), e, a, d);
    }
}

proof fn lemma_store_find_update(
    s: Seq<StoreEntry>,
    i: int,
    e: StoreEntry,
    a: u64,
    d: Seq<Seq<char>>,
)
    requires
        0 <= i < s.len(),
        store_keys_unique(s),
        s[i].authority_id == e.authority_id,
        s[i].domains.deep_view() == e.domains.deep_view(),
    ensures
        entry_matches(e, a, d) ==> store_find(s.update(i, e), a, d) == Some(e.record@),
        !entry_matches(e, a, d) ==> store_find(s.update(i, e), a, d) == store_find(s, a, d),
    decreases s.len(),
{
    if i == 0 {
        assert(s.update(0, e)[0] == e);
        assert(s.update(0, e).drop_first() =~= s.drop_first());
    } else {
        assert(s.update(i, e)[0] == s[0]);
        assert(s.update(i, e).drop_first() =~= s.drop_first().update(i - 1, e));
        assert(store_keys_unique(s.drop_first())) by {
            assert(forall|p: int, q: int|
                0 <= p < q < s.drop_first().len() ==> s.drop_first()[p] == s[p + 1]
                    && s.drop_first()[q] == s[q + 1]);
        }
        lemma_store_find_update(s.drop_first(), i - 1, e, a, d);
    }
}

/// Compares two domain sets element for element.
pub fn domains_eq(a: &Vec<String>, b: &Vec<String>) -> (r: bool)
    ensures
        r == (a.deep_view() == b.deep_view()),
{
    if a.len() != b.len() {
        proof {
            assert(a.deep_view().len() != b.deep_view().len());
        }
        return false;
    }
    let mut i: usize = 0;
    while i < a.len()
        invariant
            a@.len() == b@.len(),
            i <= a@.len(),
            forall|j: int| 0 <= j < i ==> a@[j]@ == b@[j]@,
        decreases a@.len() - i,
    {
        if !(a[i] == b[i]) {
            proof {
                assert(a.deep_view()[i as int] != b.deep_view()[i as int]);
            }
            return false;
        }
        i = i + 1;
    }
    proof {
        assert(a.deep_view() =~= b.deep_view());
    }
    true
}

/// The durable store. `committed` is what a load after a restart would see;
/// `staged` is a write begun but not yet committed and is lost on a crash.
/// `read_fault` and `write_fault` model a storage outage.
pub struct Store {
    pub account: Option<Account>,
    pub committed: Vec<StoreEntry>,
    pub staged: Option<StoreEntry>,
    pub read_fault: bool,
    pub write_fault: bool,
}

impl Store {
    /// The committed table never holds two records under one key.
    pub open spec fn wf(self) -> bool {
        store_keys_unique(self.committed@)
    }

    /// The committed record for `(a, d)`, if any.
    pub open spec fn spec_load(self, a: u64, d: Seq<Seq<char>>) -> Option<CertView> {
        store_find(self.committed@, a, d)
    }

    /// A fresh, healthy store: no account, no certificate.
    pub fn new() -> (r: Store)
        ensures
            r.wf(),
            r.account is None,
            r.staged is None,
            forall|a: u64, d: Seq<Seq<char>>| r.spec_load(a, d) is None,
            !r.read_fault,
            !r.write_fault,
    {
        let r = Store {
            account: None,
            committed: Vec::new(),
            staged: None,
            read_fault: false,
            write_fault: false,
        };
        proof {
            assert forall|a: u64, d: Seq<Seq<char>>| r.spec_load(a, d) is None by {
                lemma_store_find_none(r.committed@, a, d);
            }
        }
        r
    }

    /// Loads the stored account. A faulty store answers with an error, never
    /// with a false "absent".
    pub fn load_account(&self) -> (r: Result<Option<&Account>, StoreError>)
        ensures
            self.read_fault <==> r is Err,
            !self.read_fault ==> match r {
                Ok(Some(acc)) => self.account is Some && *acc == self.account.unwrap(),
                Ok(None) => self.account is None,
                Err(_) => false,
            },
    {
        if self.read_fault {
            Err(StoreError::Unavailable)
        } else {
            Ok(self.account.as_ref())
        }
    }

    /// Stores the account, replacing any earlier one.
    pub fn save_account(&mut self, account: Account)
        ensures
            *final(self) == (Store { account: Some(account), ..*old(self) }),
    {
        self.account = Some(account);
    }

    /// Loads the committed certificate record for `(authority_id, domains)`.
    /// Absence is reported only when the store is healthy and truly holds
    /// nothing under the key; an outage is a distinct error.
    pub fn load(&self, authority_id: u64, domains: &Vec<String>) -> (r: Result<
        Option<&CertificateRecord>,
        StoreError,
    >)
        ensures
            self.read_fault <==> r is Err,
            !self.read_fault ==> match r {
                Ok(Some(c)) => self.spec_load(authority_id, domains.deep_view()) == Some(c@),
                Ok(None) => self.spec_load(authority_id, domains.deep_view()) is None,
                Err(_) => false,
            },
    {
        if self.read_fault {
            return Err(StoreError::Unavailable);
        }
        let mut i: usize = 0;
        while i < self.committed.len()
            invariant
                i <= self.committed@.len(),
                forall|j: int|
                    0 <= j < i ==> !entry_matches(
                        self.committed@[j],
                        authority_id,
                        domains.deep_view(),
                    ),
                !self.read_fault,
            decreases self.committed@.len() - i,
        {
            if self.committed[i].authority_id == authority_id && domains_eq(
                &self.committed[i].domains,
                domains,
            ) {
                proof {
                    lemma_store_find_skip(
                        self.committed@,
                        i as int,
                        authority_id,
                        domains.deep_view(),
                    );
                }
                return Ok(Some(&self.committed[i].record));
            }
            i = i + 1;
        }
        proof {
            lemma_store_find_none(self.committed@, authority_id, domains.deep_view());
        }
        Ok(None)
    }

    /// Begins a write: the record is staged but not yet visible to loads.
    pub fn stage(&mut self, authority_id: u64, domains: Vec<String>, record: CertificateRecord)
        ensures
            *final(self) == (Store {
                staged: Some(StoreEntry { authority_id, domains, record }),
                ..*old(self)
            }),
    {
        self.staged = Some(StoreEntry { authority_id, domains, record });
    }

    /// An interrupted write: the process stopped between write and commit.
    /// The staged record is lost; everything committed stays intact.
    pub fn interrupt(&mut self)
        ensures
            *final(self) == (Store { staged: None, ..*old(self) }),
    {
        self.staged = None;
    }

    /// Completes the staged write in one atomic step: afterwards the staged
    /// record, and only it, is what a load under its key returns.
    pub fn commit(&mut self)
        requires
            old(self).wf(),
            old(self).staged is Some,
        ensures
            final(self).wf(),
            final(self).staged is None,
            final(self).account == old(self).account,
            final(self).read_fault == old(self).read_fault,
            final(self).write_fault == old(self).write_fault,
            final(self).spec_load(
                old(self).staged.unwrap().authority_id,
                old(self).staged.unwrap().domains.deep_view(),
            ) == Some(old(self).staged.unwrap().record@),
            forall|a: u64, d: Seq<Seq<char>>|
                !(a == old(self).staged.unwrap().authority_id && d == old(
                    self,
                ).staged.unwrap().domains.deep_view()) ==> final(self).spec_load(a, d) == old(
                    self,
                ).spec_load(a, d),
    {
        let e = self.staged.take().unwrap();
        let ghost ev = e;
        let mut i: usize = 0;
        while i < self.committed.len()
            invariant
                i <= self.committed@.len(),
                forall|j: int|
                    0 <= j < i ==> !entry_matches(
                        self.committed@[j],
                        ev.authority_id,
                        ev.domains.deep_view(),
                    ),
                self.wf(),
                self.committed@ == old(self).committed@,
                self.account == old(self).account,
                self.read_fault == old(self).read_fault,
                self.write_fault == old(self).write_fault,
                self.staged is None,
                e == ev,
                old(self).staged == Some(ev),
            decreases self.committed@.len() - i,
        {
            if self.committed[i].authority_id == e.authority_id && domains_eq(
                &self.committed[i].domains,
                &e.domains,
            ) {
                proof {
                    let s = self.committed@;
                    lemma_store_find_skip(s, i as int, ev.authority_id, ev.domains.deep_view());
                    lemma_store_find_update(
                        s,
                        i as int,
                        ev,
                        ev.authority_id,
                        ev.domains.deep_view(),
                    );
                    assert forall|a: u64, d: Seq<Seq<char>>|
                        !(a == ev.authority_id && d == ev.domains.deep_view()) implies store_find(
                        s.update(i as int, ev),
                        a,
                        d,
                    ) == store_find(s, a, d) by {
                        lemma_store_find_update(s, i as int, ev, a, d);
                    }
                    assert(store_keys_unique(s.update(i as int, ev)));
                }
                self.committed.set(i, e);
                return;
            }
            i = i + 1;
        }
        proof {
            let s = self.committed@;
            lemma_store_find_none(s, ev.authority_id, ev.domains.deep_view());
            lemma_store_find_push(s, ev, ev.authority_id, ev.domains.deep_view());
            assert forall|a: u64, d: Seq<Seq<char>>|
                !(a == ev.authority_id && d == ev.domains.deep_view()) implies store_find(
                s.push(ev),
                a,
                d,
            ) == store_find(s, a, d) by {
                lemma_store_find_push(s, ev, a, d);
            }
            assert(store_keys_unique(s.push(ev)));
        }
        self.committed.push(e);
    }

    /// Saves a record under `(authority_id, domains)`: stages it and, if the
    /// storage is healthy, commits it. On failure the write never lands and
    /// whatever was committed before stays readable.
    pub fn save(&mut self, authority_id: u64, domains: Vec<String>, record: CertificateRecord)
        -> (r: Result<(), StoreError>)
        requires
            old(self).wf(),
        ensures
            final(self).wf(),
            final(self).staged is None,
            final(self).account == old(self).account,
            final(self).read_fault == old(self).read_fault,
            final(self).write_fault == old(self).write_fault,
            old(self).write_fault <==> r is Err,
            r is Err ==> forall|a: u64, d: Seq<Seq<char>>|
                final(self).spec_load(a, d) == old(self).spec_load(a, d),
            r is Ok ==> final(self).spec_load(authority_id, domains.deep_view()) == Some(record@),
            r is Ok ==> forall|a: u64, d: Seq<Seq<char>>|
                !(a == authority_id && d == domains.deep_view()) ==> final(self).spec_load(a, d)
                    == old(self).spec_load(a, d),
    {
        let ghost dv = domains.deep_view();
        let write_fault = self.write_fault;
        self.stage(authority_id, domains, record);
        if write_fault {
            self.interrupt();
            Err(StoreError::Unavailable)
        } else {
            self.commit();
            Ok(())
        }
    }
}

} // verus!
