//! The issuing authority, modelled at its protocol boundary: account
//! registry, order state, challenge validation, finalize and download.
//!
//! The orchestrator drives one order at a time through this model exactly as
//! it would drive a remote authority: registration is idempotent, a
//! challenge validates only while its proof is exposed, an order becomes
//! ready only after the authority has been polled often enough, and the
//! downloaded certificate is bound to the key the order was finalized with.
//! `polls_until_ready` and `validation_fails` choose the authority's
//! behaviour for one run, so both the success path and every failure path of
//! the orchestrator can be exercised.

use vstd::prelude::*;
use crate::protocol::Account;
use crate::protocol::Authorization;
use crate::protocol::AuthzStatus;
use crate::protocol::Challenge;
use crate::protocol::ChallengeKind;
use crate::protocol::ChallengeStatus;
use crate::protocol::KeyAuth;
use crate::protocol::Order;
use crate::protocol::OrderStatus;
use crate::responder::Responder;

verus! {

/// The account identifier registered for `key`, scanning from the front.
pub open spec fn account_find(s: Seq<(u64, u64)>, key: u64) -> Option<u64>
    decreases s.len(),
{
    if s.len() == 0 {
        None
    } else if s[0].0 == key {
        Some(s[0].1)
    } else {
        account_find(s.drop_first(), key)
    }
}

/// Account keys in the registry are pairwise distinct.
pub open spec fn account_keys_unique(s: Seq<(u64, u64)>) -> bool {
    forall|i: int, j: int| 0 <= i < j < s.len() ==> s[i].0 != s[j].0
}

proof fn lemma_account_find_skip(s: Seq<(u64, u64)>, i: int, key: u64)
    requires
        0 <= i <= s.len(),
        forall|j: int| 0 <= j < i ==> s[j].0 != key,
    ensures
        account_find(s, key) == account_find(s.skip(i), key),
    decreases i,
{
    if i > 0 {
        assert(s.skip(1) =~= s.drop_first());
        lemma_account_find_skip(s.drop_first(), i - 1, key);
        assert(s.drop_first().skip(i - 1) =~= s.skip(i));
    } else {
        assert(s.skip(0) =~= s);
    }
}

proof fn lemma_account_find_none(s: Seq<(u64, u64)>, key: u64)
    requires
        forall|j: int| 0 <= j < s.len() ==> s[j].0 != key,
    ensures
        account_find(s, key) is None,
    decreases s.len(),
{
    if s.len() > 0 {
        lemma_account_find_none(s.drop_first(), key);
    }
}

proof fn lemma_account_find_none_converse(s: Seq<(u64, u64)>, key: u64)
    requires
        account_find(s, key) is None,
    ensures
        forall|j: int| 0 <= j < s.len() ==> s[j].0 != key,
    decreases s.len(),
{
    if s.len() > 0 {
        lemma_account_find_none_converse(s.drop_first(), key);
        assert forall|j: int| 0 <= j < s.len() implies s[j].0 != key by {
            if j > 0 {
                assert(s.drop_first()[j - 1] == s[j]);
            }
        }
    }
}

proof fn lemma_account_find_push(s: Seq<(u64, u64)>, e: (u64, u64), key: u64)
    ensures
        account_find(s, key) is None && e.0 == key ==> account_find(s.push(e), key) == Some(e.1),
        e.0 != key ==> account_find(s.push(e), key) == account_find(s, key),
    decreases s.len(),
{
    if s.len() == 0 {
        assert(s.push(e)[0] == e);
        assert(s.push(e).drop_first() =~= Seq::<(u64, u64)>::empty());
        assert(account_find(Seq::<(u64, u64)>::empty(), key) is None);
        assert(account_find(s, key) is None);
    } else {
        assert(s.push(e)[0] == s[0]);
        assert(s.push(e).drop_first() =~= s.drop_first().push(e));
        lemma_account_find_push(s.drop_first(), e, key);
    }
}

/// What one registration call does to the registry: an existing key gets its
/// existing identifier back and changes nothing; a new key is assigned the
/// next identifier.
pub open spec fn spec_register(s: Seq<(u64, u64)>, next_id: u64, key: u64) -> (Seq<(u64, u64)>, u64, u64) {
    match account_find(s, key) {
        Some(id) => (s, next_id, id),
        None => (s.push((key, next_id)), (next_id + 1) as u64, next_id),
    }
}

/// Law: account registration is idempotent. Registering the same key twice
/// yields the same account identifier both times, and the second call
/// changes nothing.
pub proof fn lemma_register_idempotent(s: Seq<(u64, u64)>, next_id: u64, key: u64)
    ensures
        ({
            let (s1, n1, id1) = spec_register(s, next_id, key);
            let (s2, n2, id2) = spec_register(s1, n1, key);
            id2 == id1 && s2 == s1 && n2 == n1
        }),
{
    if account_find(s, key) is None {
        lemma_account_find_push(s, (key, next_id), key);
    }
}

/// An outright rejection by the authority: the request will be refused
/// again if it is repeated at once, so the caller must back off.
#[derive(PartialEq, Eq, Structural, Clone, Copy, Debug)]
pub enum AuthorityError {
    Rejected,
}

/// The authority, one in-flight order at a time.
pub struct AuthorityModel {
    /// Identity of the directory endpoint, stamped into every record.
    pub directory_id: u64,
    /// Registered accounts: account key, assigned identifier.
    pub accounts: Vec<(u64, u64)>,
    pub next_account_id: u64,
    /// Source of fresh tokens and locations.
    pub next_handle: u64,
    /// How many registration calls were ever made.
    pub register_calls: u64,
    /// How many orders were ever created.
    pub orders_created: u64,
    /// Lifetime the authority grants each certificate.
    pub cert_lifetime: u64,
    /// How many pending polls an order answers before turning ready.
    pub polls_until_ready: u64,
    /// Whether the authority fails every challenge validation this run.
    pub validation_fails: bool,
    /// Whether the authority rejects order creation outright this run.
    pub rejects_orders: bool,
    /// The in-flight order, if any.
    pub order_phase: Option<OrderStatus>,
    pub order_size: u64,
    pub validated_count: u64,
    pub failed_validation: bool,
    pub remaining_polls: u64,
    /// The key the in-flight order was finalized with.
    pub bound_key: Option<u64>,
}

impl AuthorityModel {
    pub open spec fn wf(self) -> bool {
        account_keys_unique(self.accounts@)
    }

    /// The account identifier this authority has on file for `key`.
    pub open spec fn spec_account_id(self, key: u64) -> Option<u64> {
        account_find(self.accounts@, key)
    }

    /// A fresh authority with nothing registered and no order in flight.
    pub fn new(directory_id: u64, cert_lifetime: u64, polls_until_ready: u64) -> (r:
        AuthorityModel)
        ensures
            r.wf(),
            r.directory_id == directory_id,
            r.cert_lifetime == cert_lifetime,
            r.polls_until_ready == polls_until_ready,
            !r.validation_fails,
            !r.rejects_orders,
            r.register_calls == 0,
            r.orders_created == 0,
            r.next_account_id == 1,
            r.order_phase is None,
            forall|k: u64| r.spec_account_id(k) is None,
    {
        let r = AuthorityModel {
            directory_id,
            accounts: Vec::new(),
            next_account_id: 1,
            next_handle: 1,
            register_calls: 0,
            orders_created: 0,
            cert_lifetime,
            polls_until_ready,
            validation_fails: false,
            rejects_orders: false,
            order_phase: None,
            order_size: 0,
            validated_count: 0,
            failed_validation: false,
            remaining_polls: 0,
            bound_key: None,
        };
        proof {
            assert forall|k: u64| r.spec_account_id(k) is None by {
                lemma_account_find_none(r.accounts@, k);
            }
        }
        r
    }

    /// Registers an account for `key_id`, or fetches the existing one: the
    /// protocol's registration step is idempotent.
    pub fn register_or_fetch(&mut self, key_id: u64, contacts: &Vec<String>) -> (r: Account)
        requires
            old(self).wf(),
            old(self).register_calls < u64::MAX,
            old(self).next_account_id < u64::MAX,
        ensures
            final(self).wf(),
            r.key_id == key_id,
            r.contacts.deep_view() == contacts.deep_view(),
            (final(self).accounts@, final(self).next_account_id, r.account_id) == spec_register(
                old(self).accounts@,
                old(self).next_account_id,
                key_id,
            ),
            final(self).spec_account_id(key_id) == Some(r.account_id),
            final(self).register_calls == old(self).register_calls + 1,
            *final(self) == (AuthorityModel {
                accounts: final(self).accounts,
                next_account_id: final(self).next_account_id,
                register_calls: final(self).register_calls,
                ..*old(self)
            }),
    {
        self.register_calls = self.register_calls + 1;
        let mut i: usize = 0;
        while i < self.accounts.len()
            invariant
                i <= self.accounts@.len(),
                forall|j: int| 0 <= j < i ==> self.accounts@[j].0 != key_id,
                old(self).register_calls < u64::MAX,
                old(self).wf(),
                *self == (AuthorityModel {
                    register_calls: (old(self).register_calls + 1) as u64,
                    ..*old(self)
                }),
            decreases self.accounts@.len() - i,
        {
            if self.accounts[i].0 == key_id {
                proof {
                    lemma_account_find_skip(self.accounts@, i as int, key_id);
                }
                return Account {
                    key_id,
                    account_id: self.accounts[i].1,
                    contacts: copy_contacts(contacts),
                };
            }
            i = i + 1;
        }
        proof {
            lemma_account_find_none(self.accounts@, key_id);
            lemma_account_find_push(self.accounts@, (key_id, self.next_account_id), key_id);
            assert(account_keys_unique(self.accounts@.push((key_id, self.next_account_id)))) by {
                lemma_account_find_none_converse(self.accounts@, key_id);
            }
        }
        let id = self.next_account_id;
        self.accounts.push((key_id, id));
        self.next_account_id = self.next_account_id + 1;
        Account { key_id, account_id: id, contacts: copy_contacts(contacts) }
    }

    /// Creates an order for `domains`: one pending authorization per domain,
    /// each offering one challenge of either kind with a fresh token.
    pub fn create_order(&mut self, domains: &Vec<String>) -> (r: Result<Order, AuthorityError>)
        requires
            old(self).orders_created < u64::MAX,
            domains@.len() >= 1,
            old(self).next_handle + 2 * domains@.len() + 2 <= u64::MAX,
        ensures
            old(self).rejects_orders <==> r is Err,
            r is Err ==> *final(self) == *old(self) && r == Err::<Order, AuthorityError>(
                AuthorityError::Rejected,
            ),
            r matches Ok(o) ==> {
                &&& o.status == OrderStatus::Pending
                &&& o.domains.deep_view() == domains.deep_view()
                &&& o.authzs@.len() == domains@.len()
                &&& forall|i: int|
                    0 <= i < o.authzs@.len() ==> {
                        let az = #[trigger] o.authzs@[i];
                        &&& az.domain@ == domains@[i]@
                        &&& az.status == AuthzStatus::Pending
                        &&& az.challenges@.len() == 2
                        &&& az.challenges@[0].kind == ChallengeKind::HttpToken
                        &&& az.challenges@[1].kind == ChallengeKind::HandshakeToken
                        &&& az.challenges@[0].status == ChallengeStatus::Pending
                        &&& az.challenges@[1].status == ChallengeStatus::Pending
                    }
                &&& final(self).orders_created == old(self).orders_created + 1
                &&& final(self).order_phase == Some(OrderStatus::Pending)
                &&& final(self).order_size == domains@.len()
                &&& final(self).validated_count == 0
                &&& final(self).failed_validation == false
                &&& final(self).remaining_polls == old(self).polls_until_ready
                &&& final(self).bound_key is None
                &&& final(self).accounts == old(self).accounts
                &&& final(self).next_account_id == old(self).next_account_id
                &&& final(self).register_calls == old(self).register_calls
                &&& final(self).directory_id == old(self).directory_id
                &&& final(self).cert_lifetime == old(self).cert_lifetime
                &&& final(self).polls_until_ready == old(self).polls_until_ready
                &&& final(self).validation_fails == old(self).validation_fails
                &&& final(self).rejects_orders == old(self).rejects_orders
                &&& final(self).wf() == old(self).wf()
            },
    {
        if self.rejects_orders {
            return Err(AuthorityError::Rejected);
        }
        let h = self.next_handle;
        let mut authzs: Vec<Authorization> = Vec::new();
        let mut i: usize = 0;
        while i < domains.len()
            invariant
                i <= domains@.len(),
                authzs@.len() == i,
                forall|k: int|
                    0 <= k < i ==> {
                        let az = #[trigger] authzs@[k];
                        &&& az.domain@ == domains@[k]@
                        &&& az.status == AuthzStatus::Pending
                        &&& az.challenges@.len() == 2
                        &&& az.challenges@[0].kind == ChallengeKind::HttpToken
                        &&& az.challenges@[1].kind == ChallengeKind::HandshakeToken
                        &&& az.challenges@[0].status == ChallengeStatus::Pending
                        &&& az.challenges@[1].status == ChallengeStatus::Pending
                    },
                h + 2 * domains@.len() + 2 <= u64::MAX,
            decreases domains@.len() - i,
        {
            let mut challenges: Vec<Challenge> = Vec::new();
            challenges.push(
                Challenge {
                    kind: ChallengeKind::HttpToken,
                    token: h + 2 * (i as u64),
                    status: ChallengeStatus::Pending,
                },
            );
            challenges.push(
                Challenge {
                    kind: ChallengeKind::HandshakeToken,
                    token: h + 2 * (i as u64) + 1,
                    status: ChallengeStatus::Pending,
                },
            );
            authzs.push(
                Authorization {
                    domain: domains[i].clone(),
                    status: AuthzStatus::Pending,
                    challenges,
                },
            );
            i = i + 1;
        }
        let n = domains.len() as u64;
        self.next_handle = h + 2 * n + 2;
        self.orders_created = self.orders_created + 1;
        self.order_phase = Some(OrderStatus::Pending);
        self.order_size = n;
        self.validated_count = 0;
        self.failed_validation = false;
        self.remaining_polls = self.polls_until_ready;
        self.bound_key = None;
        let o = Order {
            domains: copy_contacts(domains),
            status: OrderStatus::Pending,
            authzs,
            finalize_loc: h + 2 * n,
            cert_loc: h + 2 * n + 1,
            cert_key: None,
        };
        proof {
            assert(o.domains.deep_view() =~= domains.deep_view());
        }
        Ok(o)
    }

    /// Tells the authority to validate the challenge for `token`: it fetches
    /// the proof from the responder, exactly as a remote authority would
    /// fetch it over the network. The authorization turns valid if and only
    /// if the right proof is being served at that moment — answering before
    /// the proof is live fails the authorization.
    pub fn respond_challenge(&mut self, token: u64, account_key: u64, responder: &Responder) -> (st:
        AuthzStatus)
        requires
            old(self).order_phase == Some(OrderStatus::Pending),
            old(self).validated_count < u64::MAX,
        ensures
            ({
                let ok = !old(self).validation_fails && responder.spec_lookup(token) == Some(
                    KeyAuth { token, account_key },
                );
                &&& ok ==> st == AuthzStatus::Valid && final(self).validated_count == old(
                    self,
                ).validated_count + 1 && final(self).failed_validation == old(
                    self,
                ).failed_validation
                &&& !ok ==> st == AuthzStatus::Invalid && final(self).failed_validation == true
                    && final(self).validated_count == old(self).validated_count
                &&& *final(self) == (AuthorityModel {
                    validated_count: final(self).validated_count,
                    failed_validation: final(self).failed_validation,
                    ..*old(self)
                })
            }),
    {
        if self.validation_fails {
            self.failed_validation = true;
            return AuthzStatus::Invalid;
        }
        match responder.lookup(token) {
            Some(served) => {
                if served.token == token && served.account_key == account_key {
                    self.validated_count = self.validated_count + 1;
                    AuthzStatus::Valid
                } else {
                    self.failed_validation = true;
                    AuthzStatus::Invalid
                }
            },
            None => {
                self.failed_validation = true;
                AuthzStatus::Invalid
            },
        }
    }

    /// One poll of the order. The order is ready once every authorization
    /// validated and the authority has been asked often enough; a failed
    /// validation makes it invalid; otherwise it stays pending.
    pub fn poll_order(&mut self) -> (st: OrderStatus)
        requires
            old(self).order_phase == Some(OrderStatus::Pending),
        ensures
            old(self).failed_validation ==> st == OrderStatus::Invalid && *final(self)
                == (AuthorityModel { order_phase: Some(OrderStatus::Invalid), ..*old(self) }),
            !old(self).failed_validation && old(self).validated_count >= old(self).order_size && old(
                self,
            ).remaining_polls == 0 ==> st == OrderStatus::Ready && *final(self) == (AuthorityModel {
                order_phase: Some(OrderStatus::Ready),
                ..*old(self)
            }),
            !old(self).failed_validation && !(old(self).validated_count >= old(self).order_size
                && old(self).remaining_polls == 0) ==> st == OrderStatus::Pending && *final(self)
                == (AuthorityModel {
                remaining_polls: if old(self).remaining_polls > 0 {
                    (old(self).remaining_polls - 1) as u64
                } else {
                    0
                },
                ..*old(self)
            }),
    {
        if self.failed_validation {
            self.order_phase = Some(OrderStatus::Invalid);
            return OrderStatus::Invalid;
        }
        if self.validated_count >= self.order_size && self.remaining_polls == 0 {
            self.order_phase = Some(OrderStatus::Ready);
            return OrderStatus::Ready;
        }
        if self.remaining_polls > 0 {
            self.remaining_polls = self.remaining_polls - 1;
        }
        OrderStatus::Pending
    }

    /// Finalizes the ready order with the signing request of `key_id`: the
    /// issued certificate will be bound to that key.
    pub fn finalize(&mut self, key_id: u64)
        requires
            old(self).order_phase == Some(OrderStatus::Ready),
        ensures
            *final(self) == (AuthorityModel {
                order_phase: Some(OrderStatus::Valid),
                bound_key: Some(key_id),
                ..*old(self)
            }),
    {
        self.order_phase = Some(OrderStatus::Valid);
        self.bound_key = Some(key_id);
    }

    /// Downloads the issued chain of the valid order. The chain carries the
    /// leaf and one intermediate, and expires one certificate lifetime from
    /// `now`.
    pub fn download(&self, now: u64) -> (r: (Vec<u64>, u64))
        requires
            self.order_phase == Some(OrderStatus::Valid),
            now + self.cert_lifetime <= u64::MAX,
        ensures
            r.0@.len() == 2,
            r.1 == now + self.cert_lifetime,
    {
        let mut chain: Vec<u64> = Vec::new();
        chain.push(self.next_handle);
        chain.push(self.directory_id);
        (chain, now + self.cert_lifetime)
    }
}

/// Copies a vector of strings.
pub fn copy_contacts(v: &Vec<String>) -> (r: Vec<String>)
    ensures
        r.deep_view() == v.deep_view(),
        r@.len() == v@.len(),
{
    let mut r: Vec<String> = Vec::new();
    let mut i: usize = 0;
    while i < v.len()
        invariant
            i <= v@.len(),
            r@.len() == i,
            forall|j: int| 0 <= j < i ==> r@[j]@ == v@[j]@,
        decreases v@.len() - i,
    {
        r.push(v[i].clone());
        i = i + 1;
    }
    proof {
        assert(r.deep_view() =~= v.deep_view());
    }
    r
}

} // verus!
