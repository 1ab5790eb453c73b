//! Leadership: the flag that the lease loop keeps and reconciles read.

use vstd::prelude::*;

use crate::consts::LEASE_TTL_SECS;
use crate::hostname::is_alnum;
use crate::strings::to_owned_string;

verus! {

/// What one attempt to acquire or renew the lease gave.
#[derive(Debug, Clone, Copy, PartialEq, Eq, Structural)]
pub enum LeaseOutcome {
    /// The attempt went through; whether this holder now holds the lease.
    Answered(bool),
    /// Contention or an API error.
    Failed,
}

/// The leadership flag after an attempt: what an answered attempt says, and
/// the previous value after a failed one.
pub open spec fn next_flag(flag: bool, outcome: LeaseOutcome) -> bool {
    match outcome {
        LeaseOutcome::Answered(held) => held,
        LeaseOutcome::Failed => flag,
    }
}

/// The flag after a run of attempts.
pub open spec fn flag_after(flag: bool, outcomes: Seq<LeaseOutcome>) -> bool
    decreases outcomes.len(),
{
    if outcomes.len() == 0 {
        flag
    } else {
        next_flag(flag_after(flag, outcomes.drop_last()), outcomes.last())
    }
}

/// Failed attempts, however many in a row, leave the flag where it was.
pub proof fn lemma_failures_keep_flag(flag: bool, outcomes: Seq<LeaseOutcome>)
    requires
        forall|i: int| 0 <= i < outcomes.len() ==> outcomes[i] == LeaseOutcome::Failed,
    ensures
        flag_after(flag, outcomes) == flag,
    decreases outcomes.len(),
{
    if outcomes.len() > 0 {
        lemma_failures_keep_flag(flag, outcomes.drop_last());
    }
}

/// The leadership of this replica: the flag, the holder identity it
/// competes under, and the lease's validity.
#[derive(Debug, Clone, PartialEq, Eq)]
pub struct LeadershipState {
    pub is_leader: bool,
    pub holder_id: String,
    pub lease_ttl_secs: u64,
}

impl LeadershipState {
    /// A replica that does not lead yet.
    pub fn new(holder_id: String) -> (r: LeadershipState)
        ensures
            !r.is_leader,
            r.holder_id == holder_id,
            r.lease_ttl_secs == LEASE_TTL_SECS,
    {
        LeadershipState { is_leader: false, holder_id, lease_ttl_secs: LEASE_TTL_SECS }
    }

    /// Takes in the outcome of one attempt (see [`next_flag`]).
    pub fn observe(&mut self, outcome: LeaseOutcome)
        ensures
            final(self).is_leader == next_flag(old(self).is_leader, outcome),
            final(self).holder_id == old(self).holder_id,
            final(self).lease_ttl_secs == old(self).lease_ttl_secs,
    {
        if let LeaseOutcome::Answered(held) = outcome {
            self.is_leader = held;
        }
    }
}

/// Relies on rand's `Alphanumeric` distribution, sampled by
/// `SampleString::sample_string` from the thread-local generator: `len`
/// characters, each an ASCII letter or digit.
#[verifier::external_body]
fn random_alphanumeric(len: usize) -> (r: String)
    ensures
        r@.len() == len,
        forall|i: int| 0 <= i < len ==> is_alnum(#[trigger] r@[i]),
{
    rand::distr::SampleString::sample_string(&rand::distr::Alphanumeric, &mut rand::rng(), len)
}

/// The identity this replica holds the lease under: the `HOSTNAME` value
/// when there is one, else the `HOST` value, else `i2g-operator-` and twelve
/// random letters and digits.
pub fn holder_identity(hostname: Option<String>, host: Option<String>) -> (r: String)
    ensures
        match (hostname, host) {
            (Some(h), _) => r == h,
            (None, Some(h)) => r == h,
            (None, None) => {
                &&& r@.len() == 25
                &&& r@.subrange(0, 13) == "i2g-operator-"@
                &&& forall|i: int| 13 <= i < 25 ==> is_alnum(#[trigger] r@[i])
            },
        },
{
    if let Some(h) = hostname {
        return h;
    }
    if let Some(h) = host {
        return h;
    }
    let suffix = random_alphanumeric(12);
    let mut id = to_owned_string("i2g-operator-");
    id.append(suffix.as_str());
    proof {
        reveal_strlit("i2g-operator-");
    }
    assert(id@.subrange(0, 13) =~= "i2g-operator-"@);
    assert forall|i: int| 13 <= i < 25 implies is_alnum(#[trigger] id@[i]) by {
        assert(id@[i] == suffix@[i - 13]);
    }
    id
}

} // verus!
