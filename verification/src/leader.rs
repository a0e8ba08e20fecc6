//! Leader election via a `coordination.k8s.io/v1` Lease.
//!
//! The operator can run with more than one replica; exactly one replica
//! ("leader") runs the reconciler and vault background tasks. Others stand by,
//! healthy, and ready to take over if the leader is removed or its lease expires.
//!
//! - [`acquire_step`] decides, after each attempt on the lease, whether this
//!   instance leads or waits for the next attempt.
//! - [`Renewal`] decides, after each renewal, whether this instance still leads.
//!   When it does not, the caller steps down from the lease, so that a successor
//!   picks it up without waiting out the full TTL, and exits the process.
//!
//! The lease is named by `LEADER_LEASE_NAME`, by default
//! `vaultwarden-operator-leader`.
use vstd::prelude::*;
use vstd::string::*;

use crate::duration::Duration;
use crate::outside;
use crate::outside::random_id;

verus! {

/// Default name of the `coordination.k8s.io/v1` Lease object.
pub const DEFAULT_LEASE_NAME: &'static str = "vaultwarden-operator-leader";

/// How long until an unrenewed lease expires and another candidate may take
/// over, in seconds.
pub const LEASE_TTL: u64 = 15;

/// How often the leader renews the lease, in seconds. Well under `LEASE_TTL`.
pub const RENEW_INTERVAL: u64 = 5;

/// Configuration for the leader-election Lease.
#[derive(Debug)]
pub struct LeaderConfig {
    /// Name of the `coordination.k8s.io/v1` Lease object.
    pub lease_name: String,
    /// Namespace where the Lease lives (should be the operator's own namespace).
    pub namespace: String,
    /// Unique identity for this candidate (typically the pod name).
    pub holder_id: String,
}

impl LeaderConfig {
    /// Build from environment/system info, with sensible fallbacks: the default
    /// lease name where none is set, and a random identity, so that two
    /// instances never clash, where the hostname is unknown or empty.
    pub fn from_env(
        lease_name: Option<String>,
        namespace: String,
        hostname: Option<String>,
    ) -> (r: Self)
        ensures
            r.lease_name@ == (match lease_name {
                Some(name) => name@,
                None => DEFAULT_LEASE_NAME@,
            }),
            lease_name is None ==> r.lease_name@ == "vaultwarden-operator-leader"@,
            r.namespace == namespace,
            hostname matches Some(h) && h@.len() > 0 ==> r.holder_id@ == hostname->0@,
            hostname is None || hostname->0@.len() == 0 ==> outside::is_uuid_v4(r.holder_id@),
    {
        let lease_name = match lease_name {
            Some(name) => name,
            None => DEFAULT_LEASE_NAME.to_owned(),
        };
        let holder_id = match hostname {
            Some(name) => if name.as_str().is_empty() {
                random_id()
            } else {
                name
            },
            None => random_id(),
        };
        LeaderConfig { lease_name, namespace, holder_id }
    }
}

/// What came of an attempt to acquire or renew the lease.
#[derive(Debug, Clone, Copy, PartialEq, Eq, Structural)]
pub enum LeaseReply {
    /// This instance holds the lease.
    Held,
    /// Another instance holds the lease.
    HeldByOther,
    /// The attempt failed.
    Error,
}

/// What a candidate does after an attempt on the lease.
#[derive(Debug, Clone, Copy, PartialEq, Eq, Structural)]
pub enum AcquireStep {
    /// Lead.
    Leading,
    /// Try again after this time.
    Wait(Duration),
}

/// Decides what a candidate does: it leads once it holds the lease, and until
/// then tries on, through errors too.
pub fn acquire_step(reply: LeaseReply) -> (r: AcquireStep)
    ensures
        r == (if reply == LeaseReply::Held {
            AcquireStep::Leading
        } else {
            AcquireStep::Wait(Duration { secs: RENEW_INTERVAL, nanos: 0 })
        }),
        r is Leading <==> reply == LeaseReply::Held,
        r matches AcquireStep::Wait(pause) ==> pause == (Duration { secs: 5, nanos: 0 }),
{
    match reply {
        LeaseReply::Held => AcquireStep::Leading,
        _ => AcquireStep::Wait(Duration::from_secs(RENEW_INTERVAL)),
    }
}

/// How many errors in a row make a leader give up: as many as there are
/// renewals in a TTL, and at least two.
pub open spec fn threshold() -> nat {
    let renewals = LEASE_TTL / RENEW_INTERVAL;
    if renewals >= 2 {
        renewals as nat
    } else {
        2
    }
}

/// How many errors in a row make a leader give up.
pub fn error_threshold() -> (r: u32)
    ensures
        r == threshold(),
        r == 3,
{
    let renewals: u64 = LEASE_TTL / RENEW_INTERVAL;
    if renewals >= 2 {
        renewals as u32
    } else {
        2
    }
}

/// The number of errors in a row after one more reply; `None` when the
/// leadership is over.
pub open spec fn renewed(errors: nat, reply: LeaseReply) -> Option<nat> {
    match reply {
        LeaseReply::Held => Some(0),
        LeaseReply::HeldByOther => None,
        LeaseReply::Error => if errors + 1 >= threshold() {
            None
        } else {
            Some(errors + 1)
        },
    }
}

/// The number of errors in a row after the first `n` replies; `None` when the
/// leadership ended with one of them.
pub open spec fn renewed_by(replies: Seq<LeaseReply>, n: nat) -> Option<nat>
    decreases n,
{
    if n == 0 {
        Some(0)
    } else {
        match renewed_by(replies, (n - 1) as nat) {
            Some(errors) => renewed(errors, replies[n - 1]),
            None => None,
        }
    }
}

/// The renewal of a lease that this instance has acquired.
#[derive(Debug)]
pub struct Renewal {
    consecutive_errors: u32,
}

impl Renewal {
    /// The number of renewals in a row that failed.
    pub closed spec fn errors(&self) -> nat {
        self.consecutive_errors as nat
    }

    #[verifier::type_invariant]
    spec fn below_threshold(&self) -> bool {
        self.consecutive_errors < threshold()
    }

    /// A lease that was just acquired.
    pub fn new() -> (r: Self)
        ensures
            r.errors() == 0,
    {
        Renewal { consecutive_errors: 0 }
    }

    /// Takes the outcome of a renewal and says whether this instance still
    /// leads. Once it does not, it has to step down.
    pub fn keep_renewing(&mut self, reply: LeaseReply) -> (r: bool)
        ensures
            match renewed(old(self).errors(), reply) {
                Some(errors) => r && final(self).errors() == errors,
                None => !r,
            },
    {
        proof {
            use_type_invariant(&*self);
        }
        match reply {
            LeaseReply::Held => {
                self.consecutive_errors = 0;
                true
            },
            LeaseReply::HeldByOther => false,
            LeaseReply::Error => {
                if self.consecutive_errors + 1 >= error_threshold() {
                    return false;
                }
                self.consecutive_errors = self.consecutive_errors + 1;
                true
            },
        }
    }
}

/// The `count` replies before `n` are all errors.
pub open spec fn errors_before(replies: Seq<LeaseReply>, n: int, count: int) -> bool {
    forall|k: int| n - count <= k < n ==> #[trigger] replies[k] == LeaseReply::Error
}

proof fn lemma_counts_errors(replies: Seq<LeaseReply>, n: nat)
    requires
        n <= replies.len(),
        renewed_by(replies, n) is Some,
    ensures
        renewed_by(replies, n)->0 <= n,
        renewed_by(replies, n)->0 < threshold(),
        errors_before(replies, n as int, renewed_by(replies, n)->0 as int),
        renewed_by(replies, n)->0 < n ==> replies[n - renewed_by(replies, n)->0 - 1]
            != LeaseReply::Error,
    decreases n,
{
    if n > 0 {
        lemma_counts_errors(replies, (n - 1) as nat);
    }
}

/// A leader gives up exactly when another instance takes the lease or when as
/// many renewals in a row fail as the threshold says: fewer failures in a row
/// never end its leadership, and one success makes up for all before it.
pub proof fn law_leader_gives_up_at_the_threshold(replies: Seq<LeaseReply>, n: nat)
    requires
        n <= replies.len(),
    ensures
        renewed_by(replies, n) is Some <==> {
            &&& forall|i: int| 0 <= i < n ==> #[trigger] replies[i] != LeaseReply::HeldByOther
            &&& forall|i: int|
                threshold() <= i <= n ==> !#[trigger] errors_before(
                    replies,
                    i,
                    threshold() as int,
                )
        },
    decreases n,
{
    if n > 0 {
        let m = (n - 1) as nat;
        law_leader_gives_up_at_the_threshold(replies, m);
        if renewed_by(replies, m) is Some {
            let errors = renewed_by(replies, m)->0;
            lemma_counts_errors(replies, m);
            if replies[n - 1] == LeaseReply::Error {
                if errors + 1 >= threshold() {
                    assert(errors_before(replies, n as int, threshold() as int));
                } else if n >= threshold() {
                    assert(replies[m - errors - 1] != LeaseReply::Error);
                    assert(!errors_before(replies, n as int, threshold() as int));
                }
            } else {
                assert(!errors_before(replies, n as int, threshold() as int));
            }
            assert forall|i: int|
                renewed_by(replies, n) is Some && threshold() <= i <= n implies !#[trigger]
                errors_before(replies, i, threshold() as int) by {}
        } else {
            assert(renewed_by(replies, n) is None);
        }
    }
}

/// A leadership that has ended stays ended: an instance that leads after `m`
/// replies has led after each of those before.
pub proof fn law_leadership_ends_once(replies: Seq<LeaseReply>, n: nat, m: nat)
    requires
        n <= m <= replies.len(),
        renewed_by(replies, m) is Some,
    ensures
        renewed_by(replies, n) is Some,
    decreases m,
{
    if n < m {
        law_leadership_ends_once(replies, n, (m - 1) as nat);
    }
}

/// A renewal that holds clears the count of errors, a lease that another holds
/// ends the lead, and an error is borne twice in a row but not three times.
pub proof fn law_third_error_ends_the_lead(errors: nat)
    ensures
        renewed(errors, LeaseReply::Held) == Some(0nat),
        renewed(errors, LeaseReply::HeldByOther) is None,
        errors < 2 ==> renewed(errors, LeaseReply::Error) == Some(errors + 1),
        errors >= 2 ==> renewed(errors, LeaseReply::Error) is None,
{
}

/// A lease lasts for three renewals, which are five seconds apart.
pub proof fn law_lease_lasts_three_renewals()
    ensures
        RENEW_INTERVAL == 5,
        LEASE_TTL == 3 * RENEW_INTERVAL,
        threshold() == 3,
{
}

} // verus!
