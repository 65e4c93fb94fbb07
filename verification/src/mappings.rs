//! The downstream-facing read path: compose the store's assignments and
//! active leases into mapping reports for the agent caller.  The optional
//! e-mail enrichment is an outside lookup; its result, or its absence,
//! fills `email` after the fact and never fails the report itself.

use vstd::prelude::*;

use crate::errors::ApiError;
use crate::prefix_pool::Prefix;
use crate::store::{
    active_leases_for, find_assignment, lease_end_key, leases_by_end_desc,
    mappings_by_created_desc, prefixes_of, LeaseStore, PrefixLease,
};
use crate::order::lemma_ordered_desc_ensures;

verus! {

/// One row of the mapping report.
#[derive(Debug, Clone, PartialEq, Eq)]
pub struct UserMapping {
    pub user_hash: String,
    pub asn: i32,
    pub prefixes: Vec<Prefix>,
    pub email: Option<String>,
}

/// The blocks of a run of leases, as a vector.
pub fn lease_prefixes(leases: &Vec<PrefixLease>) -> (r: Vec<Prefix>)
    ensures
        r@ == prefixes_of(leases@),
{
    let mut out: Vec<Prefix> = Vec::new();
    let mut i: usize = 0;
    while i < leases.len()
        invariant
            i <= leases@.len(),
            out@ == prefixes_of(leases@.take(i as int)),
        decreases leases@.len() - i,
    {
        proof {
            assert(prefixes_of(leases@.take(i + 1)) =~= prefixes_of(leases@.take(i as int)).push(
                leases@[i as int].prefix,
            ));
        }
        out.push(leases[i].prefix);
        i = i + 1;
    }
    proof {
        assert(leases@.take(leases@.len() as int) =~= leases@);
    }
    out
}

/// One mapping row per assignment, newest-created first, each carrying
/// the handle's actively leased blocks newest-ending first; `email` is
/// left empty for the caller to enrich.
pub fn get_all_mappings(store: &LeaseStore, now: u64) -> (r: Vec<UserMapping>)
    ensures
        r@.len() == store.assignments@.len(),
        forall|i: int|
            0 <= i < r@.len() ==> {
                &&& (#[trigger] r@[i]).user_hash@ == mappings_by_created_desc(
                    store.assignments@,
                )[i].user_hash@
                &&& r@[i].asn == mappings_by_created_desc(store.assignments@)[i].asn
                &&& r@[i].prefixes@ == prefixes_of(
                    leases_by_end_desc(
                        active_leases_for(
                            store.leases@,
                            mappings_by_created_desc(store.assignments@)[i].user_hash@,
                            now,
                        ),
                    ),
                )
                &&& r@[i].email is None
            },
{
    let ghost sorted = mappings_by_created_desc(store.assignments@);
    let rows = store.get_all_user_mappings(now);
    let mut out: Vec<UserMapping> = Vec::new();
    let mut i: usize = 0;
    while i < rows.len()
        invariant
            sorted == mappings_by_created_desc(store.assignments@),
            i <= rows@.len(),
            rows@.len() == store.assignments@.len(),
            out@.len() == i,
            forall|k: int|
                0 <= k < rows@.len() ==> (#[trigger] rows@[k]).0 == sorted[k] && rows@[k].1@
                    == leases_by_end_desc(
                    active_leases_for(store.leases@, sorted[k].user_hash@, now),
                ),
            forall|k: int|
                0 <= k < i ==> {
                    &&& (#[trigger] out@[k]).user_hash@ == sorted[k].user_hash@
                    &&& out@[k].asn == sorted[k].asn
                    &&& out@[k].prefixes@ == prefixes_of(
                        leases_by_end_desc(
                            active_leases_for(store.leases@, sorted[k].user_hash@, now),
                        ),
                    )
                    &&& out@[k].email is None
                },
        decreases rows@.len() - i,
    {
        let prefixes = lease_prefixes(&rows[i].1);
        let row = &rows[i].0;
        out.push(
            UserMapping {
                user_hash: row.user_hash.clone(),
                asn: row.asn,
                prefixes,
                email: None,
            },
        );
        i = i + 1;
    }
    out
}

/// The mapping row of one handle: its assignment and actively leased
/// blocks newest-ending first, `email` left empty for the caller to
/// enrich.  A handle with neither an assignment nor an active lease is
/// unknown; one with leases but no assignment has no ASN to report.
pub fn get_user_mapping(store: &LeaseStore, user_hash: &String, now: u64) -> (r: Result<
    UserMapping,
    ApiError,
>)
    ensures
        match find_assignment(store.assignments@, user_hash@) {
            Some(m) => {
                &&& r matches Ok(u)
                &&& u.user_hash@ == user_hash@
                &&& u.asn == m.asn
                &&& u.prefixes@ == prefixes_of(
                    leases_by_end_desc(active_leases_for(store.leases@, user_hash@, now)),
                )
                &&& u.email is None
            },
            None => {
                if active_leases_for(store.leases@, user_hash@, now).len() > 0 {
                    r == Err::<UserMapping, ApiError>(ApiError::NoAsnAssigned)
                } else {
                    r == Err::<UserMapping, ApiError>(ApiError::UserNotFound)
                }
            },
        },
{
    let (mapping, leases) = store.get_user_info(user_hash, now);
    proof {
        lemma_ordered_desc_ensures(
            active_leases_for(store.leases@, user_hash@, now),
            lease_end_key(),
        );
    }
    match mapping {
        Some(m) => {
            let prefixes = lease_prefixes(&leases);
            Ok(
                UserMapping {
                    user_hash: user_hash.clone(),
                    asn: m.asn,
                    prefixes,
                    email: None,
                },
            )
        },
        None => {
            if leases.len() > 0 {
                Err(ApiError::NoAsnAssigned)
            } else {
                Err(ApiError::UserNotFound)
            }
        },
    }
}

} // verus!
