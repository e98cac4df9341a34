//! The lifecycle orchestrator: the state machine that decides when to issue,
//! drives one issuance cycle through the authority, persists the result and
//! publishes it to the resolver.
//!
//! States per domain set: `Idle` (a valid certificate is in hand), `Issuing`
//! (a cycle is in progress), `Failed` (the last cycle failed; a retry is
//! scheduled after a backoff). At most one cycle runs at a time: a trigger
//! while `Issuing` is a no-op.

use vstd::prelude::*;
use crate::authority::AuthorityModel;
use crate::authority::copy_contacts;
use crate::cert::CertificateRecord;
use crate::cert::lemma_renewal_extends_expiry;
use crate::protocol::AuthzStatus;
use crate::protocol::ChallengeKind;
use crate::protocol::FailureClass;
use crate::protocol::KeyAuth;
use crate::protocol::LifecycleEvent;
use crate::protocol::OrderStatus;
use crate::resolver::Resolver;
use crate::responder::Responder;
use crate::store::Store;

verus! {

/// Lifecycle state of one domain set.
#[derive(PartialEq, Eq, Structural, Clone, Copy, Debug)]
pub enum LifecycleState {
    Idle,
    Issuing,
    Failed { retry_at: u64 },
}

/// Configuration of the orchestrator for one domain set.
pub struct OrchConfig {
    /// The host names one certificate must cover. Immutable for the life of
    /// a certificate.
    pub domains: Vec<String>,
    /// Contact addresses registered with the authority.
    pub contacts: Vec<String>,
    /// The account key pair used for registration and challenge answers.
    pub account_key: u64,
    /// Renew once remaining validity falls below this.
    pub renewal_threshold: u64,
    /// First poll delay; doubles per poll up to `poll_cap`; the total wait
    /// per order never exceeds `poll_budget`.
    pub poll_base: u64,
    pub poll_cap: u64,
    pub poll_budget: u64,
    /// Delay before a failed cycle is retried.
    pub retry_backoff: u64,
    /// The challenge kind this deployment answers.
    pub preferred_challenge: ChallengeKind,
}

impl OrchConfig {
    pub open spec fn wf(self) -> bool {
        &&& self.domains@.len() >= 1
        &&& forall|i: int, j: int|
            0 <= i < j < self.domains@.len() ==> self.domains@[i]@ != self.domains@[j]@
        &&& 1 <= self.poll_base
        &&& self.poll_base <= self.poll_cap
        &&& self.poll_cap <= u64::MAX / 2
    }
}

/// The delay that follows `d` in the poll schedule: doubled, capped.
pub open spec fn spec_next_delay(d: int, cap: int) -> int {
    if 2 * d <= cap {
        2 * d
    } else {
        cap
    }
}

/// How many polls the schedule admits, starting at delay `d` with `budget`
/// time left: one poll always happens, and another for every delay that
/// still fits in the budget.
pub open spec fn spec_poll_allowance(d: int, budget: int, cap: int) -> int
    decreases budget when 1 <= d && 1 <= cap
{
    if d > budget {
        1
    } else {
        1 + spec_poll_allowance(spec_next_delay(d, cap), budget - d, cap)
    }
}

/// The poll schedule always admits at least the first poll.
proof fn lemma_poll_allowance_pos(d: int, budget: int, cap: int)
    requires
        1 <= d,
        1 <= cap,
    ensures
        spec_poll_allowance(d, budget, cap) >= 1,
    decreases (if budget >= 0 { budget } else { 0 }),
{
    if d <= budget {
        lemma_poll_allowance_pos(spec_next_delay(d, cap), budget - d, cap);
    }
}

/// Whether one cycle against this store and authority succeeds: the store
/// must answer, the authority must validate the challenge, report the order
/// ready within the bounded poll schedule, and the final write must land.
pub open spec fn spec_cycle_succeeds(store: Store, authority: AuthorityModel, cfg: OrchConfig) -> bool {
    &&& !store.read_fault
    &&& !authority.rejects_orders
    &&& !authority.validation_fails
    &&& authority.polls_until_ready + 1 <= spec_poll_allowance(
        cfg.poll_base as int,
        cfg.poll_budget as int,
        cfg.poll_cap as int,
    )
    &&& !store.write_fault
}

/// The doubled, capped poll delay.
fn next_delay(d: u64, cap: u64) -> (r: u64)
    requires
        1 <= d,
        d <= cap,
        cap <= u64::MAX / 2,
    ensures
        r == spec_next_delay(d as int, cap as int),
        1 <= r && r <= cap,
{
    if 2 * d <= cap {
        2 * d
    } else {
        cap
    }
}

/// The lifecycle orchestrator for one domain set.
pub struct Orchestrator {
    pub config: OrchConfig,
    pub state: LifecycleState,
    /// Source of fresh domain key pairs, one per cycle.
    pub next_key: u64,
}

impl Orchestrator {
    pub fn new(config: OrchConfig) -> (r: Orchestrator)
        ensures
            r.state == LifecycleState::Idle,
            r.config == config,
            r.next_key == 1,
    {
        Orchestrator { config, state: LifecycleState::Idle, next_key: 1 }
    }

    /// The periodic expiry check, and the only transition into `Issuing`.
    ///
    /// While a cycle is in flight the check is a no-op: at most one cycle
    /// per domain set runs at a time. From `Idle` a cycle starts when the
    /// store holds no certificate for this domain set or the cached one is
    /// due for renewal; a store outage suspends the decision instead of
    /// being mistaken for a fresh start. From `Failed` a cycle starts once
    /// the backoff has elapsed.
    pub fn periodic_check(&mut self, store: &Store, authority_id: u64, now: u64) -> (started: bool)
        ensures
            old(self).state == LifecycleState::Issuing ==> *final(self) == *old(self) && !started,
            old(self).state matches LifecycleState::Failed { retry_at } ==> {
                &&& started == (now >= retry_at)
                &&& final(self).state == if started {
                    LifecycleState::Issuing
                } else {
                    old(self).state
                }
            },
            old(self).state == LifecycleState::Idle ==> {
                &&& started == (!store.read_fault && match store.spec_load(
                    authority_id,
                    old(self).config.domains.deep_view(),
                ) {
                    Option::None => true,
                    Option::Some(c) => c.spec_needs_renewal(now, old(self).config.renewal_threshold),
                })
                &&& final(self).state == if started {
                    LifecycleState::Issuing
                } else {
                    LifecycleState::Idle
                }
            },
            final(self).config == old(self).config,
            final(self).next_key == old(self).next_key,
            !started ==> *final(self) == *old(self),
            started ==> final(self).state == LifecycleState::Issuing,
    {
        match self.state {
            LifecycleState::Issuing => false,
            LifecycleState::Failed { retry_at } => {
                if now >= retry_at {
                    self.state = LifecycleState::Issuing;
                    true
                } else {
                    false
                }
            },
            LifecycleState::Idle => {
                match store.load(authority_id, &self.config.domains) {
                    Err(_) => false,
                    Ok(Option::None) => {
                        self.state = LifecycleState::Issuing;
                        true
                    },
                    Ok(Option::Some(rec)) => {
                        if rec.needs_renewal(now, self.config.renewal_threshold) {
                            self.state = LifecycleState::Issuing;
                            true
                        } else {
                            false
                        }
                    },
                }
            },
        }
    }

    /// Runs one full issuance cycle: account, order, challenges, polling,
    /// finalize, download, persist, publish — in that order. On success the
    /// new record is committed to the store and swapped into the resolver
    /// for every domain of the set, and the orchestrator returns to `Idle`.
    /// Any failure aborts the whole cycle with nothing published, nothing
    /// committed and no proof left exposed, and schedules a retry.
    #[verifier::loop_isolation(false)]
    #[verifier::rlimit(60)]
    pub fn run_cycle(
        &mut self,
        authority: &mut AuthorityModel,
        store: &mut Store,
        responder: &mut Responder,
        resolver: &mut Resolver,
        now: u64,
    ) -> (ev: LifecycleEvent)
        requires
            old(self).state == LifecycleState::Issuing,
            old(self).config.wf(),
            old(self).next_key < u64::MAX,
            old(authority).wf(),
            old(authority).register_calls < u64::MAX,
            old(authority).next_account_id < u64::MAX,
            old(authority).orders_created < u64::MAX,
            old(authority).next_handle + 2 * old(self).config.domains@.len() + 2 <= u64::MAX,
            now + old(authority).cert_lifetime <= u64::MAX,
            now + old(self).config.retry_backoff <= u64::MAX,
            old(store).wf(),
            old(responder).wf(),
            old(responder).spec_active() == 0,
            old(responder).expose_count + old(self).config.domains@.len() <= u64::MAX,
            old(responder).withdraw_count + old(self).config.domains@.len() <= u64::MAX,
            old(resolver).wf(),
            old(resolver).publish_count + old(self).config.domains@.len() <= u64::MAX,
        ensures
            final(self).config == old(self).config,
            final(store).wf(),
            final(resolver).wf(),
            final(responder).wf(),
            final(responder).spec_active() == 0,
            final(authority).wf(),
            final(authority).directory_id == old(authority).directory_id,
            // Exactly when the cycle succeeds.
            (ev is Success) == spec_cycle_succeeds(*old(store), *old(authority), old(self).config),
            // The success path: the fresh record, whole, everywhere.
            ev is Success ==> {
                &&& final(self).state == LifecycleState::Idle
                &&& final(self).next_key == old(self).next_key + 1
                &&& ev == (LifecycleEvent::Success {
                    expires_at: (now + old(authority).cert_lifetime) as u64,
                })
                &&& forall|i: int|
                    0 <= i < old(self).config.domains@.len() ==> {
                        let cur = #[trigger] final(resolver).spec_current(
                            old(self).config.domains.deep_view()[i],
                        );
                        &&& cur is Some
                        &&& cur.unwrap().expires_at == now + old(authority).cert_lifetime
                        &&& cur.unwrap().issued_at == now
                        &&& cur.unwrap().key_id == old(self).next_key
                        &&& cur.unwrap().authority_id == old(authority).directory_id
                        &&& cur.unwrap().chain.len() >= 1
                        &&& final(store).spec_load(
                            old(authority).directory_id,
                            old(self).config.domains.deep_view(),
                        ) == cur
                    }
                &&& forall|d: Seq<char>|
                    (forall|i: int|
                        0 <= i < old(self).config.domains@.len() ==> d != old(
                            self,
                        ).config.domains.deep_view()[i]) ==> final(resolver).spec_current(d) == old(
                        resolver,
                    ).spec_current(d)
                &&& final(resolver).publish_count == old(resolver).publish_count + old(
                    self,
                ).config.domains@.len()
                &&& final(responder).expose_count == old(responder).expose_count + old(
                    self,
                ).config.domains@.len()
                &&& final(responder).withdraw_count == old(responder).withdraw_count + old(
                    self,
                ).config.domains@.len()
                &&& forall|i: int|
                    0 <= i < old(self).config.domains@.len() ==> (match #[trigger] old(
                        resolver,
                    ).spec_current(old(self).config.domains.deep_view()[i]) {
                        Option::None => true,
                        Option::Some(prev) => (prev.spec_needs_renewal(
                            now,
                            old(self).config.renewal_threshold,
                        ) && old(self).config.renewal_threshold <= old(authority).cert_lifetime)
                            ==> now + old(authority).cert_lifetime > prev.expires_at,
                    })
            },
            // Every failure path: nothing published, nothing committed,
            // nothing left exposed, a retry scheduled.
            ev is Failure ==> {
                &&& final(self).state == (LifecycleState::Failed {
                    retry_at: (now + old(self).config.retry_backoff) as u64,
                })
                &&& ev matches LifecycleEvent::Failure { class: _, retry_at } && retry_at == now
                    + old(self).config.retry_backoff
                &&& forall|d: Seq<char>|
                    final(resolver).spec_current(d) == old(resolver).spec_current(d)
                &&& final(resolver).publish_count == old(resolver).publish_count
                &&& forall|a: u64, ds: Seq<Seq<char>>|
                    final(store).spec_load(a, ds) == old(store).spec_load(a, ds)
                &&& (old(store).account is Some ==> final(store).account == old(store).account)
            },
            // The error classification.
            old(store).read_fault ==> ev == (LifecycleEvent::Failure {
                class: FailureClass::Storage,
                retry_at: (now + old(self).config.retry_backoff) as u64,
            }) && *final(store) == *old(store) && *final(authority) == *old(authority),
            !old(store).read_fault && old(authority).rejects_orders ==> ev
                == (LifecycleEvent::Failure {
                class: FailureClass::Rejected,
                retry_at: (now + old(self).config.retry_backoff) as u64,
            }),
            !old(store).read_fault && !old(authority).rejects_orders && old(
                authority,
            ).validation_fails ==> ev == (LifecycleEvent::Failure {
                class: FailureClass::Validation,
                retry_at: (now + old(self).config.retry_backoff) as u64,
            }),
            !old(store).read_fault && !old(authority).rejects_orders && !old(
                authority,
            ).validation_fails && old(
                authority,
            ).polls_until_ready + 1 > spec_poll_allowance(
                old(self).config.poll_base as int,
                old(self).config.poll_budget as int,
                old(self).config.poll_cap as int,
            ) ==> ev == (LifecycleEvent::Failure {
                class: FailureClass::Transient,
                retry_at: (now + old(self).config.retry_backoff) as u64,
            }),
            !old(store).read_fault && !old(authority).rejects_orders && !old(
                authority,
            ).validation_fails && old(
                authority,
            ).polls_until_ready + 1 <= spec_poll_allowance(
                old(self).config.poll_base as int,
                old(self).config.poll_budget as int,
                old(self).config.poll_cap as int,
            ) && old(store).write_fault ==> ev == (LifecycleEvent::Failure {
                class: FailureClass::Storage,
                retry_at: (now + old(self).config.retry_backoff) as u64,
            }),
            // One order sequence at most, one registration call at most.
            !old(store).read_fault && !old(authority).rejects_orders
                ==> final(authority).orders_created == old(authority).orders_created + 1,
            old(store).read_fault || old(authority).rejects_orders
                ==> final(authority).orders_created == old(authority).orders_created,
            final(authority).register_calls == old(authority).register_calls + (if !old(
                store,
            ).read_fault && old(store).account is None {
                1int
            } else {
                0int
            }),
    {
        let retry_at = now + self.config.retry_backoff;

        // Account: use the stored one, or register once and persist it.
        let account_key: u64;
        match store.load_account() {
            Err(_) => {
                self.state = LifecycleState::Failed { retry_at };
                return LifecycleEvent::Failure { class: FailureClass::Storage, retry_at };
            },
            Ok(Some(acc)) => {
                account_key = acc.key_id;
            },
            Ok(None) => {
                let acc = authority.register_or_fetch(self.config.account_key, &self.config.contacts);
                account_key = acc.key_id;
                store.save_account(acc);
            },
        }

        // One order for the whole domain set.
        let order = match authority.create_order(&self.config.domains) {
            Ok(o) => o,
            Err(_) => {
                self.state = LifecycleState::Failed { retry_at };
                return LifecycleEvent::Failure { class: FailureClass::Rejected, retry_at };
            },
        };
        let ghost auth1 = *authority;
        let n = order.authzs.len();

        // For each authorization: expose the proof, ask the authority to
        // validate, withdraw the proof — even when validation failed.
        let mut i: usize = 0;
        while i < n
            invariant
                i <= n,
                *authority == (AuthorityModel { validated_count: i as u64, ..auth1 }),
                responder.wf(),
                responder.spec_active() == 0,
                responder.expose_count == old(responder).expose_count + i,
                responder.withdraw_count == old(responder).withdraw_count + i,
                *self == *old(self),
                0 < i ==> !auth1.validation_fails,
            decreases n - i,
        {
            let chosen = order.authzs[i].choose_challenge(self.config.preferred_challenge);
            let ci: usize;
            match chosen {
                Some(c) => {
                    ci = c;
                },
                None => {
                    proof {
                        assert(order.authzs@[i as int].challenges@[0].kind
                            == ChallengeKind::HttpToken);
                        assert(order.authzs@[i as int].challenges@[1].kind
                            == ChallengeKind::HandshakeToken);
                        assert(false);
                    }
                    ci = 0;
                },
            }
            let token = order.authzs[i].challenges[ci].token;
            responder.expose(token, KeyAuth { token, account_key });
            let st = authority.respond_challenge(token, account_key, responder);
            responder.withdraw(token);
            match st {
                AuthzStatus::Valid => {},
                _ => {
                    self.state = LifecycleState::Failed { retry_at };
                    return LifecycleEvent::Failure { class: FailureClass::Validation, retry_at };
                },
            }
            i = i + 1;
        }

        // Poll the order with bounded exponential backoff until it is ready
        // or the budget is exhausted.
        let ghost allowance = spec_poll_allowance(
            self.config.poll_base as int,
            self.config.poll_budget as int,
            self.config.poll_cap as int,
        );
        let mut delay = self.config.poll_base;
        let mut budget_left = self.config.poll_budget;
        proof {
            lemma_poll_allowance_pos(delay as int, budget_left as int, self.config.poll_cap as int);
        }
        let mut st = authority.poll_order();
        let ghost mut polls: int = 1int;
        while st == OrderStatus::Pending && delay <= budget_left
            invariant
                1 <= delay && delay <= self.config.poll_cap,
                1 <= polls && polls <= auth1.remaining_polls + 1,
                st == OrderStatus::Pending || st == OrderStatus::Ready,
                st == OrderStatus::Pending ==> {
                    &&& *authority == (AuthorityModel {
                        validated_count: n as u64,
                        remaining_polls: (auth1.remaining_polls - polls) as u64,
                        ..auth1
                    })
                    &&& polls <= auth1.remaining_polls
                    &&& spec_poll_allowance(
                        delay as int,
                        budget_left as int,
                        self.config.poll_cap as int,
                    ) == allowance - (polls - 1)
                },
                st == OrderStatus::Ready ==> {
                    &&& *authority == (AuthorityModel {
                        validated_count: n as u64,
                        remaining_polls: 0,
                        order_phase: Some(OrderStatus::Ready),
                        ..auth1
                    })
                    &&& polls == auth1.remaining_polls + 1
                    &&& allowance >= polls
                },
                *self == *old(self),
            decreases budget_left,
        {
            budget_left = budget_left - delay;
            delay = next_delay(delay, self.config.poll_cap);
            proof {
                lemma_poll_allowance_pos(
                    delay as int,
                    budget_left as int,
                    self.config.poll_cap as int,
                );
            }
            st = authority.poll_order();
            proof {
                polls = polls + 1;
            }
        }
        match st {
            OrderStatus::Ready => {},
            _ => {
                // The budget ran out before the authority reported ready.
                proof {
                    assert(spec_poll_allowance(
                        delay as int,
                        budget_left as int,
                        self.config.poll_cap as int,
                    ) == 1);
                    assert(allowance == polls);
                    assert(polls <= auth1.remaining_polls);
                    assert(auth1.remaining_polls + 1 > allowance);
                }
                self.state = LifecycleState::Failed { retry_at };
                return LifecycleEvent::Failure { class: FailureClass::Transient, retry_at };
            },
        }

        // Finalize with a fresh domain key; the certificate is bound to it.
        let domain_key = self.next_key;
        self.next_key = self.next_key + 1;
        authority.finalize(domain_key);
        let (chain, expires_at) = authority.download(now);
        let record = CertificateRecord {
            key_id: domain_key,
            chain,
            issued_at: now,
            expires_at,
            authority_id: authority.directory_id,
        };

        // Persist first; publish only what the store committed.
        match store.save(
            authority.directory_id,
            copy_contacts(&self.config.domains),
            record.clone(),
        ) {
            Err(_) => {
                self.state = LifecycleState::Failed { retry_at };
                return LifecycleEvent::Failure { class: FailureClass::Storage, retry_at };
            },
            Ok(_) => {},
        }

        // Swap the new record into the resolver, one domain at a time; each
        // swap is atomic and leaves every other domain untouched.
        let ghost dv = self.config.domains.deep_view();
        proof {
            assert forall|m: int| 0 <= m < dv.len() implies dv[m]
                == self.config.domains@[m]@ by {}
        }
        let mut k: usize = 0;
        while k < self.config.domains.len()
            invariant
                k <= self.config.domains@.len(),
                resolver.wf(),
                resolver.publish_count == old(resolver).publish_count + k,
                forall|m: int| 0 <= m < k ==> resolver.spec_current(dv[m]) == Some(record@),
                forall|d: Seq<char>|
                    (forall|m: int| 0 <= m < k ==> d != dv[m]) ==> resolver.spec_current(d) == old(
                        resolver,
                    ).spec_current(d),
            decreases self.config.domains@.len() - k,
        {
            let ghost res_prev = *resolver;
            resolver.publish(&self.config.domains[k], record.clone());
            proof {
                assert forall|m: int| 0 <= m < k + 1 implies resolver.spec_current(dv[m]) == Some(
                    record@,
                ) by {
                    if m < k {
                        assert(dv[m] != dv[k as int]);
                        assert(resolver.spec_current(dv[m]) == res_prev.spec_current(dv[m]));
                    }
                }
                assert forall|d: Seq<char>|
                    (forall|m: int|
                        0 <= m < k + 1 ==> d != dv[m]) implies resolver.spec_current(d) == old(
                    resolver,
                ).spec_current(d) by {
                    assert(d != dv[k as int]);
                    assert(resolver.spec_current(d) == res_prev.spec_current(d));
                    assert(forall|m: int| 0 <= m < k ==> d != dv[m]);
                }
            }
            k = k + 1;
        }

        // A renewal that the threshold triggered strictly raises the expiry
        // of every domain the set covers.
        proof {
            assert forall|i: int| 0 <= i < self.config.domains@.len() implies (match #[trigger] old(
                resolver,
            ).spec_current(dv[i]) {
                Option::None => true,
                Option::Some(prev) => (prev.spec_needs_renewal(now, self.config.renewal_threshold)
                    && self.config.renewal_threshold <= authority.cert_lifetime) ==> now
                    + authority.cert_lifetime > prev.expires_at,
            }) by {
                match old(resolver).spec_current(dv[i]) {
                    Option::None => {},
                    Option::Some(prev) => {
                        if prev.spec_needs_renewal(now, self.config.renewal_threshold)
                            && self.config.renewal_threshold <= authority.cert_lifetime {
                            lemma_renewal_extends_expiry(
                                prev,
                                now,
                                self.config.renewal_threshold,
                                authority.cert_lifetime,
                            );
                        }
                    },
                }
            }
        }
        self.state = LifecycleState::Idle;
        LifecycleEvent::Success { expires_at }
    }
}

} // verus!
