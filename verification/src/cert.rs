//! Durable certificate records and the renewal decision.

use vstd::prelude::*;

verus! {

/// One issued certificate together with the key pair it is bound to.
///
/// `chain` holds opaque handles to the encoded certificates, the leaf first
/// and the intermediates after it. `key_id` names the domain key pair that
/// signed the certificate signing request; the issued certificate is only
/// usable together with that key. `authority_id` records which authority
/// directory issued the certificate, so a cached record is never reused
/// against a different authority endpoint.
#[derive(Debug)]
pub struct CertificateRecord {
    pub key_id: u64,
    pub chain: Vec<u64>,
    pub issued_at: u64,
    pub expires_at: u64,
    pub authority_id: u64,
}

/// The mathematical value of a [`CertificateRecord`].
pub struct CertView {
    pub key_id: u64,
    pub chain: Seq<u64>,
    pub issued_at: u64,
    pub expires_at: u64,
    pub authority_id: u64,
}

impl View for CertificateRecord {
    type V = CertView;

    open spec fn view(&self) -> CertView {
        CertView {
            key_id: self.key_id,
            chain: self.chain@,
            issued_at: self.issued_at,
            expires_at: self.expires_at,
            authority_id: self.authority_id,
        }
    }
}

impl CertView {
    /// Remaining validity at `now`, zero once expired.
    pub open spec fn spec_remaining(self, now: u64) -> int {
        if self.expires_at >= now {
            self.expires_at - now
        } else {
            0
        }
    }

    /// The record must be renewed once its remaining validity at `now` has
    /// fallen below `threshold`.
    pub open spec fn spec_needs_renewal(self, now: u64, threshold: u64) -> bool {
        self.spec_remaining(now) < threshold
    }
}

impl CertificateRecord {
    /// A record is well formed when it does not expire before it was issued
    /// and carries at least the leaf certificate.
    pub open spec fn wf(self) -> bool {
        &&& self.issued_at <= self.expires_at
        &&& self.chain@.len() >= 1
    }

    /// Decides whether this record is due for renewal at `now`, given the
    /// configured renewal threshold.
    pub fn needs_renewal(&self, now: u64, threshold: u64) -> (r: bool)
        ensures
            r == self@.spec_needs_renewal(now, threshold),
    {
        if self.expires_at <= now {
            0 < threshold
        } else {
            self.expires_at - now < threshold
        }
    }
}

/// Law: a renewal that the threshold triggers always raises the expiry.
/// When a record is due for renewal at `now` and the authority grants new
/// certificates at least one threshold's worth of lifetime, a certificate
/// issued at `now` expires strictly later than the record it replaces.
pub proof fn lemma_renewal_extends_expiry(cv: CertView, now: u64, threshold: u64, lifetime: u64)
    requires
        cv.spec_needs_renewal(now, threshold),
        threshold <= lifetime,
        now + lifetime <= u64::MAX,
    ensures
        now + lifetime > cv.expires_at,
{
}

impl Clone for CertificateRecord {
    fn clone(&self) -> (r: Self)
        ensures
            r@ == self@,
    {
        CertificateRecord {
            key_id: self.key_id,
            chain: copy_handles(&self.chain),
            issued_at: self.issued_at,
            expires_at: self.expires_at,
            authority_id: self.authority_id,
        }
    }
}

/// Copies a vector of certificate handles.
fn copy_handles(v: &Vec<u64>) -> (r: Vec<u64>)
    ensures
        r@ == v@,
{
    let mut r: Vec<u64> = Vec::new();
    let mut i: usize = 0;
    while i < v.len()
        invariant
            i <= v@.len(),
            r@ == v@.subrange(0, i as int),
        decreases v@.len() - i,
    {
        r.push(v[i]);
        proof {
            assert(r@ =~= v@.subrange(0, i + 1 as int));
        }
        i = i + 1;
    }
    proof {
        assert(r@ =~= v@);
    }
    r
}

} // verus!
