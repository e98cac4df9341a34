//! Data model of the automated issuance protocol.
//!
//! These types are owned by the lifecycle orchestrator for the duration of
//! one issuance cycle and discarded once the cycle reaches a terminal state.
//! Authority-assigned locations and tokens are opaque handles.

use vstd::prelude::*;

verus! {

/// Status of one issuance order.
#[derive(PartialEq, Eq, Structural, Clone, Copy, Debug)]
pub enum OrderStatus {
    Pending,
    Ready,
    Processing,
    Valid,
    Invalid,
}

/// Status of one per-domain authorization.
#[derive(PartialEq, Eq, Structural, Clone, Copy, Debug)]
pub enum AuthzStatus {
    Pending,
    Valid,
    Invalid,
    Expired,
}

/// Status of one challenge.
#[derive(PartialEq, Eq, Structural, Clone, Copy, Debug)]
pub enum ChallengeStatus {
    Pending,
    Valid,
    Invalid,
}

/// The concrete proof method a challenge uses: serving a token over the
/// plaintext channel, or presenting it inside the handshake itself.
#[derive(PartialEq, Eq, Structural, Clone, Copy, Debug)]
pub enum ChallengeKind {
    HttpToken,
    HandshakeToken,
}

/// The value the challenge responder must serve for a token: the token tied
/// to the account key that will answer the validation.
#[derive(PartialEq, Eq, Structural, Clone, Copy, Debug)]
pub struct KeyAuth {
    pub token: u64,
    pub account_key: u64,
}

/// One concrete way of proving control of a domain.
#[derive(PartialEq, Eq, Structural, Clone, Copy, Debug)]
pub struct Challenge {
    pub kind: ChallengeKind,
    pub token: u64,
    pub status: ChallengeStatus,
}

/// Per-domain proof obligation within an order. Exactly one of the offered
/// challenges is fulfilled; the others are ignored.
pub struct Authorization {
    pub domain: String,
    pub status: AuthzStatus,
    pub challenges: Vec<Challenge>,
}

/// One issuance attempt. Lives only for the duration of one cycle.
pub struct Order {
    pub domains: Vec<String>,
    pub status: OrderStatus,
    pub authzs: Vec<Authorization>,
    /// Authority-assigned location to submit the signing request to.
    pub finalize_loc: u64,
    /// Authority-assigned location to download the issued chain from.
    pub cert_loc: u64,
    /// The domain key pair the order was finalized with, once it was.
    pub cert_key: Option<u64>,
}

/// Identity registered with the authority, created once and reused across
/// all issuance cycles.
pub struct Account {
    pub key_id: u64,
    pub account_id: u64,
    pub contacts: Vec<String>,
}

/// The mathematical value of an [`Account`].
pub struct AccountView {
    pub key_id: u64,
    pub account_id: u64,
    pub contacts: Seq<Seq<char>>,
}

impl View for Account {
    type V = AccountView;

    open spec fn view(&self) -> AccountView {
        AccountView {
            key_id: self.key_id,
            account_id: self.account_id,
            contacts: self.contacts.deep_view(),
        }
    }
}

/// Error classification for a failed cycle.
#[derive(PartialEq, Eq, Structural, Clone, Copy, Debug)]
pub enum FailureClass {
    /// The authority or the network did not answer in time.
    Transient,
    /// A domain's challenge was not validated.
    Validation,
    /// The store failed with something other than "not found".
    Storage,
    /// The authority rejected the request outright.
    Rejected,
}

/// Notification of one issuance attempt's outcome, consumed by an external
/// observer and never persisted.
#[derive(PartialEq, Eq, Structural, Clone, Copy, Debug)]
pub enum LifecycleEvent {
    Success { expires_at: u64 },
    Failure { class: FailureClass, retry_at: u64 },
}

impl Authorization {
    /// Picks the challenge that will be fulfilled for this authorization:
    /// the first offered challenge of the preferred kind.
    pub fn choose_challenge(&self, preferred: ChallengeKind) -> (r: Option<usize>)
        ensures
            match r {
                Some(i) => {
                    &&& i < self.challenges@.len()
                    &&& self.challenges@[i as int].kind == preferred
                    &&& forall|j: int| 0 <= j < i ==> self.challenges@[j].kind != preferred
                },
                None => forall|j: int|
                    0 <= j < self.challenges@.len() ==> self.challenges@[j].kind != preferred,
            },
    {
        let mut i: usize = 0;
        while i < self.challenges.len()
            invariant
                i <= self.challenges@.len(),
                forall|j: int| 0 <= j < i ==> self.challenges@[j].kind != preferred,
            decreases self.challenges@.len() - i,
        {
            if self.challenges[i].kind == preferred {
                return Some(i);
            }
            i = i + 1;
        }
        None
    }
}

} // verus!
