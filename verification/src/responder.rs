//! The challenge responder: the table of proof artifacts currently exposed
//! for the authority to validate.
//!
//! The transport's routing layer consults [`Responder::lookup`] for the
//! reserved proof namespace before any other routing rule; a token is served
//! for exactly as long as it is exposed. At most one exposure exists per
//! token at any time.

use vstd::prelude::*;
use crate::protocol::KeyAuth;

verus! {

/// Finds the proof value exposed for `token`, scanning from the front.
pub open spec fn exposure_find(s: Seq<(u64, KeyAuth)>, token: u64) -> Option<KeyAuth>
    decreases s.len(),
{
    if s.len() == 0 {
        None
    } else if s[0].0 == token {
        Some(s[0].1)
    } else {
        exposure_find(s.drop_first(), token)
    }
}

/// Tokens in the table are pairwise distinct.
pub open spec fn exposure_keys_unique(s: Seq<(u64, KeyAuth)>) -> bool {
    forall|i: int, j: int| 0 <= i < j < s.len() ==> s[i].0 != s[j].0
}

proof fn lemma_exposure_find_skip(s: Seq<(u64, KeyAuth)>, i: int, token: u64)
    requires
        0 <= i <= s.len(),
        forall|j: int| 0 <= j < i ==> s[j].0 != token,
    ensures
        exposure_find(s, token) == exposure_find(s.skip(i), token),
    decreases i,
{
    if i > 0 {
        assert(s.skip(1) =~= s.drop_first());
        lemma_exposure_find_skip(s.drop_first(), i - 1, token);
        assert(s.drop_first().skip(i - 1) =~= s.skip(i));
    } else {
        assert(s.skip(0) =~= s);
    }
}

proof fn lemma_exposure_find_push(s: Seq<(u64, KeyAuth)>, e: (u64, KeyAuth), token: u64)
    ensures
        exposure_find(s, token) is None && e.0 == token ==> exposure_find(s.push(e), token)
            == Some(e.1),
        e.0 != token ==> exposure_find(s.push(e), token) == exposure_find(s, token),
    decreases s.len(),
{
    if s.len() == 0 {
        assert(s.push(e)[0] == e);
        assert(s.push(e).drop_first() =~= Seq::<(u64, KeyAuth)>::empty());
        assert(exposure_find(Seq::<(u64, KeyAuth)>::empty(), token) is None);
        assert(exposure_find(s, token) is None);
    } else {
        assert(s.push(e)[0] == s[0]);
        assert(s.push(e).drop_first() =~= s.drop_first().push(e));
        lemma_exposure_find_push(s.drop_first(), e, token);
    }
}

proof fn lemma_exposure_find_remove(s: Seq<(u64, KeyAuth)>, i: int, token: u64)
    requires
        0 <= i < s.len(),
        exposure_keys_unique(s),
    ensures
        s[i].0 == token ==> exposure_find(s.remove(i), token) is None,
        s[i].0 != token ==> exposure_find(s.remove(i), token) == exposure_find(s, token),
    decreases s.len(),
{
    if i == 0 {
        assert(s.remove(0) =~= s.drop_first());
        if s[0].0 == token {
            lemma_exposure_find_none(s.drop_first(), token);
        }
    } else {
        assert(s.remove(i).drop_first() =~= s.drop_first().remove(i - 1));
        lemma_exposure_find_remove(s.drop_first(), i - 1, token);
    }
}

proof fn lemma_exposure_find_none(s: Seq<(u64, KeyAuth)>, token: u64)
    requires
        forall|j: int| 0 <= j < s.len() ==> s[j].0 != token,
    ensures
        exposure_find(s, token) is None,
    decreases s.len(),
{
    if s.len() > 0 {
        lemma_exposure_find_none(s.drop_first(), token);
    }
}

/// The table of currently exposed proofs, with counters that make the
/// lifecycle observable: how many exposures were ever made and withdrawn.
pub struct Responder {
    pub exposures: Vec<(u64, KeyAuth)>,
    pub expose_count: u64,
    pub withdraw_count: u64,
}

impl Responder {
    /// The internal table never holds two exposures for one token.
    pub open spec fn wf(self) -> bool {
        exposure_keys_unique(self.exposures@)
    }

    /// The proof value currently exposed for `token`, if any.
    pub open spec fn spec_lookup(self, token: u64) -> Option<KeyAuth> {
        exposure_find(self.exposures@, token)
    }

    /// How many proofs are currently exposed.
    pub open spec fn spec_active(self) -> nat {
        self.exposures@.len()
    }

    /// A fresh responder: nothing exposed, nothing counted.
    pub fn new() -> (r: Responder)
        ensures
            r.wf(),
            r.spec_active() == 0,
            forall|t: u64| r.spec_lookup(t) is None,
            r.expose_count == 0,
            r.withdraw_count == 0,
    {
        Responder { exposures: Vec::new(), expose_count: 0, withdraw_count: 0 }
    }

    /// The routing-layer query: the proof value for `token`, or `None` when
    /// no matching exposure exists.
    pub fn lookup(&self, token: u64) -> (r: Option<KeyAuth>)
        ensures
            r == self.spec_lookup(token),
    {
        let mut i: usize = 0;
        while i < self.exposures.len()
            invariant
                i <= self.exposures@.len(),
                forall|j: int| 0 <= j < i ==> self.exposures@[j].0 != token,
            decreases self.exposures@.len() - i,
        {
            if self.exposures[i].0 == token {
                proof {
                    lemma_exposure_find_skip(self.exposures@, i as int, token);
                }
                return Some(self.exposures[i].1);
            }
            i = i + 1;
        }
        proof {
            lemma_exposure_find_none(self.exposures@, token);
        }
        None
    }

    /// Makes the proof for `token` available to the authority. The token must
    /// not already be exposed: stale exposures are withdrawn first.
    pub fn expose(&mut self, token: u64, proof_value: KeyAuth)
        requires
            old(self).wf(),
            old(self).spec_lookup(token) is None,
            proof_value.token == token,
            old(self).expose_count < u64::MAX,
        ensures
            final(self).wf(),
            final(self).spec_lookup(token) == Some(proof_value),
            forall|t: u64| t != token ==> final(self).spec_lookup(t) == old(self).spec_lookup(t),
            final(self).spec_active() == old(self).spec_active() + 1,
            final(self).expose_count == old(self).expose_count + 1,
            final(self).withdraw_count == old(self).withdraw_count,
    {
        proof {
            lemma_exposure_find_none_converse(self.exposures@, token);
            assert forall|t: u64| t != token implies exposure_find(
                self.exposures@.push((token, proof_value)),
                t,
            ) == exposure_find(self.exposures@, t) by {
                lemma_exposure_find_push(self.exposures@, (token, proof_value), t);
            }
            lemma_exposure_find_push(self.exposures@, (token, proof_value), token);
            assert(exposure_keys_unique(self.exposures@.push((token, proof_value))));
        }
        self.exposures.push((token, proof_value));
        self.expose_count = self.expose_count + 1;
    }

    /// Withdraws the proof for `token`, if it is exposed; afterwards the
    /// routing layer behaves as if the proof route does not exist.
    pub fn withdraw(&mut self, token: u64)
        requires
            old(self).wf(),
            old(self).withdraw_count < u64::MAX,
        ensures
            final(self).wf(),
            final(self).spec_lookup(token) is None,
            forall|t: u64| t != token ==> final(self).spec_lookup(t) == old(self).spec_lookup(t),
            final(self).spec_active() == if old(self).spec_lookup(token) is Some {
                (old(self).spec_active() - 1) as nat
            } else {
                old(self).spec_active()
            },
            final(self).withdraw_count == old(self).withdraw_count + 1,
            final(self).expose_count == old(self).expose_count,
    {
        let mut i: usize = 0;
        while i < self.exposures.len()
            invariant
                i <= self.exposures@.len(),
                forall|j: int| 0 <= j < i ==> self.exposures@[j].0 != token,
                self.wf(),
                *self == *old(self),
                old(self).withdraw_count < u64::MAX,
            decreases self.exposures@.len() - i,
        {
            if self.exposures[i].0 == token {
                proof {
                    lemma_exposure_find_skip(self.exposures@, i as int, token);
                    lemma_exposure_find_remove(self.exposures@, i as int, token);
                    assert forall|t: u64| t != token implies exposure_find(
                        self.exposures@.remove(i as int),
                        t,
                    ) == exposure_find(self.exposures@, t) by {
                        lemma_exposure_find_remove(self.exposures@, i as int, t);
                    }
                    assert(exposure_keys_unique(self.exposures@.remove(i as int)));
                }
                self.exposures.remove(i);
                self.withdraw_count = self.withdraw_count + 1;
                return;
            }
            i = i + 1;
        }
        proof {
            lemma_exposure_find_none(self.exposures@, token);
        }
        self.withdraw_count = self.withdraw_count + 1;
    }
}

proof fn lemma_exposure_find_none_converse(s: Seq<(u64, KeyAuth)>, token: u64)
    requires
        exposure_find(s, token) is None,
    ensures
        forall|j: int| 0 <= j < s.len() ==> s[j].0 != token,
    decreases s.len(),
{
    if s.len() > 0 {
        lemma_exposure_find_none_converse(s.drop_first(), token);
        assert forall|j: int| 0 <= j < s.len() implies s[j].0 != token by {
            if j > 0 {
                assert(s.drop_first()[j - 1] == s[j]);
            }
        }
    }
}

} // verus!
