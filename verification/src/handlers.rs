//! The allocation flows behind the client-facing routes: derive the
//! caller's handle, consult the store for an existing commitment, pick the
//! lowest free pool member against current occupancy, and commit — all
//! against one `&mut` store borrow, so no second request can slip between
//! the check and the commit.

use vstd::prelude::*;

use crate::errors::ApiError;
use crate::pool_asns::AsnPool;
use crate::prefix_pool::PrefixPool;
use crate::pseudonym::{handle_of, hash_user_identifier};
use crate::store::{
    active_exclusive, active_leases_for, asn_taken, find_assignment, leases_by_end_desc,
    prefix_active, LeaseStore, PrefixLease,
};

verus! {

/// Outcome of an ASN request.
#[derive(Debug, Clone, Copy, PartialEq, Eq, Structural)]
pub enum AsnOutcome {
    /// The handle already held this ASN; nothing changed.
    Existing(i32),
    /// This ASN was newly committed to the handle.
    Assigned(i32),
}

/// Serve an ASN request for the subject: return the existing assignment
/// unchanged if there is one, else commit the lowest free ASN of the pool,
/// else report exhaustion.
pub fn request_asn(store: &mut LeaseStore, pool: &AsnPool, subject: &str, now: u64) -> (r: Result<
    AsnOutcome,
    ApiError,
>)
    requires
        old(store).wf(),
        pool.wf(),
    ensures
        final(store).wf(),
        match find_assignment(old(store).assignments@, handle_of(subject@)) {
            Some(m) => r == Ok::<AsnOutcome, ApiError>(AsnOutcome::Existing(m.asn))
                && *final(store) == *old(store),
            None => {
                &&& (r matches Ok(out) ==> {
                    &&& out matches AsnOutcome::Assigned(asn)
                    &&& pool.start <= asn <= pool.end
                    &&& !asn_taken(old(store).assignments@, asn)
                    &&& forall|b: i32|
                        pool.start <= b < asn ==> asn_taken(old(store).assignments@, b)
                    &&& final(store).assignments@.len() == old(store).assignments@.len() + 1
                    &&& final(store).assignments@ == old(store).assignments@.push(
                        final(store).assignments@.last(),
                    )
                    &&& final(store).assignments@.last().user_hash@ == handle_of(subject@)
                    &&& final(store).assignments@.last().asn == asn
                    &&& final(store).assignments@.last().created_at == now
                    &&& final(store).assignments@.last().updated_at == now
                    &&& final(store).leases@ == old(store).leases@
                })
                &&& (r is Err ==> {
                    &&& r == Err::<AsnOutcome, ApiError>(ApiError::ResourceExhausted)
                    &&& *final(store) == *old(store)
                    &&& forall|b: i32|
                        pool.start <= b <= pool.end ==> asn_taken(old(store).assignments@, b)
                })
            },
        },
{
    let user_hash = hash_user_identifier(subject);
    match store.get_user_asn(&user_hash) {
        Some(m) => Ok(AsnOutcome::Existing(m.asn)),
        None => {
            let assigned = store.assigned_asns();
            match pool.find_available_asn(&assigned) {
                None => {
                    proof {
                        assert forall|b: i32| pool.start <= b <= pool.end implies asn_taken(
                            store.assignments@,
                            b,
                        ) by {
                            assert(assigned@.contains(b));
                        }
                    }
                    Err(ApiError::ResourceExhausted)
                },
                Some(asn) => {
                    proof {
                        assert forall|b: i32| pool.start <= b < asn implies asn_taken(
                            store.assignments@,
                            b,
                        ) by {
                            assert(assigned@.contains(b));
                        }
                    }
                    match store.get_or_create_user_asn(&user_hash, asn, now) {
                        Ok(m) => Ok(AsnOutcome::Assigned(m.asn)),
                        Err(e) => Err(e),  // unreachable: the ASN was just seen free
                    }
                },
            }
        },
    }
}

/// Serve a prefix-lease request for the subject: reject a duration outside
/// 1 to 24 hours before any pool lookup, else lease the first pool block no
/// active lease holds, else report exhaustion.
pub fn request_prefix(
    store: &mut LeaseStore,
    pool: &PrefixPool,
    subject: &str,
    duration_hours: i32,
    now: u64,
) -> (r: Result<PrefixLease, ApiError>)
    requires
        old(store).wf(),
        pool.wf(),
        now <= u64::MAX - 86400,
    ensures
        final(store).wf(),
        active_exclusive(old(store).leases@, now) ==> active_exclusive(final(store).leases@, now),
        !(1 <= duration_hours <= 24) ==> r == Err::<PrefixLease, ApiError>(ApiError::Validation)
            && *final(store) == *old(store),
        1 <= duration_hours <= 24 ==> {
            &&& (r matches Ok(lease) ==> {
                &&& lease.user_hash@ == handle_of(subject@)
                &&& lease.start_time == now
                &&& lease.end_time == now + duration_hours * 3600
                &&& exists|i: int|
                    {
                        &&& 0 <= i < pool.prefixes@.len()
                        &&& #[trigger] pool.prefixes@[i] == lease.prefix
                        &&& !prefix_active(old(store).leases@, lease.prefix, now)
                        &&& forall|j: int|
                            0 <= j < i ==> prefix_active(
                                old(store).leases@,
                                #[trigger] pool.prefixes@[j],
                                now,
                            )
                    }
                &&& final(store).leases@ == old(store).leases@.push(lease)
                &&& final(store).assignments@ == old(store).assignments@
            })
            &&& (r is Err ==> {
                &&& r == Err::<PrefixLease, ApiError>(ApiError::ResourceExhausted)
                &&& *final(store) == *old(store)
                &&& forall|i: int|
                    0 <= i < pool.prefixes@.len() ==> prefix_active(
                        old(store).leases@,
                        #[trigger] pool.prefixes@[i],
                        now,
                    )
            })
        },
{
    if duration_hours < 1 || duration_hours > 24 {
        return Err(ApiError::Validation);
    }
    let user_hash = hash_user_identifier(subject);
    let leased = store.active_prefixes(now);
    match pool.find_available_prefix(&leased) {
        None => Err(ApiError::ResourceExhausted),
        Some(prefix) => {
            match store.create_prefix_lease(&user_hash, prefix, duration_hours, now) {
                Ok(lease) => Ok(lease),
                Err(e) => Err(e),  // unreachable: the block was just seen free
            }
        },
    }
}

/// What the client-facing info route reports about one subject.
#[derive(Debug, Clone)]
pub struct UserInfo {
    pub user_hash: String,
    pub asn: Option<i32>,
    pub active_leases: Vec<PrefixLease>,
}

/// Report the subject's handle, its ASN assignment if any, and its active
/// leases.
pub fn user_info(store: &LeaseStore, subject: &str, now: u64) -> (r: UserInfo)
    ensures
        r.user_hash@ == handle_of(subject@),
        r.asn == match find_assignment(store.assignments@, handle_of(subject@)) {
            Some(m) => Some(m.asn),
            None => None::<i32>,
        },
        r.active_leases@ == leases_by_end_desc(
            active_leases_for(store.leases@, handle_of(subject@), now),
        ),
{
    let user_hash = hash_user_identifier(subject);
    let (mapping, leases) = store.get_user_info(&user_hash, now);
    let asn = match mapping {
        Some(m) => Some(m.asn),
        None => None,
    };
    UserInfo { user_hash, asn, active_leases: leases }
}

} // verus!
