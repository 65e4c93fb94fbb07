//! The lease store: the record of committed ASN assignments and prefix
//! leases, the sole source of truth for occupancy.
//!
//! An assignment row exists at most once per handle, and each committed
//! ASN and each actively leased prefix is held by at most one handle: the
//! availability check and the commit are one operation here, and a commit
//! of a value that is already taken is refused as a conflict rather than
//! recorded twice.  A lease expires purely by wall-clock comparison —
//! "active" means its end time lies after the queried instant — and a
//! maintenance sweep may purge rows more than seven days past expiry.
//! The read queries present leases newest-ending first and the mapping
//! join newest-created first, as the downstream callers expect them.

use vstd::prelude::*;

use crate::errors::ApiError;
use crate::order::{lemma_ordered_desc_ensures, lemma_slotted_at, ordered_desc, slotted_desc};
use crate::prefix_pool::Prefix;

verus! {

/// One committed ASN assignment: at most one per handle, never deleted.
#[derive(Debug, Clone, PartialEq, Eq)]
pub struct UserAsnMapping {
    pub user_hash: String,
    pub asn: i32,
    pub created_at: u64,
    pub updated_at: u64,
}

impl UserAsnMapping {
    /// An owned copy equal to this row.
    pub fn duplicate(&self) -> (r: Self)
        ensures
            r == *self,
    {
        UserAsnMapping {
            user_hash: self.user_hash.clone(),
            asn: self.asn,
            created_at: self.created_at,
            updated_at: self.updated_at,
        }
    }
}

/// One prefix lease; many historical rows may exist per handle.  Times are
/// seconds since the Unix epoch.
#[derive(Debug, Clone, PartialEq, Eq)]
pub struct PrefixLease {
    pub user_hash: String,
    pub prefix: Prefix,
    pub start_time: u64,
    pub end_time: u64,
    pub created_at: u64,
    pub updated_at: u64,
}

impl PrefixLease {
    /// An owned copy equal to this row.
    pub fn duplicate(&self) -> (r: Self)
        ensures
            r == *self,
    {
        PrefixLease {
            user_hash: self.user_hash.clone(),
            prefix: self.prefix,
            start_time: self.start_time,
            end_time: self.end_time,
            created_at: self.created_at,
            updated_at: self.updated_at,
        }
    }
}

/// The first assignment row of `s` whose handle is `h`; under `LeaseStore::wf`
/// there is at most one.
pub open spec fn find_assignment(s: Seq<UserAsnMapping>, h: Seq<char>) -> Option<UserAsnMapping>
    decreases s.len(),
{
    if s.len() == 0 {
        None
    } else if s[0].user_hash@ == h {
        Some(s[0])
    } else {
        find_assignment(s.drop_first(), h)
    }
}

/// What a `find_assignment` answer means.
pub proof fn lemma_find_assignment(s: Seq<UserAsnMapping>, h: Seq<char>)
    ensures
        find_assignment(s, h) is None ==> forall|i: int|
            0 <= i < s.len() ==> (#[trigger] s[i]).user_hash@ != h,
        find_assignment(s, h) matches Some(m) ==> m.user_hash@ == h && exists|i: int|
            0 <= i < s.len() && #[trigger] s[i] == m,
    decreases s.len(),
{
    if s.len() > 0 {
        lemma_find_assignment(s.drop_first(), h);
        if s[0].user_hash@ != h {
            match find_assignment(s, h) {
                Some(m) => {
                    let i = choose|i: int|
                        0 <= i < s.drop_first().len() && #[trigger] s.drop_first()[i] == m;
                    assert(s[i + 1] == m);
                },
                None => {
                    assert forall|i: int| 0 <= i < s.len() implies (#[trigger] s[i]).user_hash@
                        != h by {
                        if i > 0 {
                            assert(s.drop_first()[i - 1] == s[i]);
                        }
                    }
                },
            }
        }
    }
}

/// Some assignment row of `s` holds `asn`.
pub open spec fn asn_taken(s: Seq<UserAsnMapping>, asn: i32) -> bool {
    exists|i: int| 0 <= i < s.len() && (#[trigger] s[i]).asn == asn
}

/// A lease is active at `now` exactly when its end time lies after `now`.
pub open spec fn lease_active(l: PrefixLease, now: u64) -> bool {
    l.end_time > now
}

/// The leases of `s` that belong to `h` and are active at `now`, in store
/// order.
pub open spec fn active_leases_for(s: Seq<PrefixLease>, h: Seq<char>, now: u64) -> Seq<
    PrefixLease,
> {
    s.filter(|l: PrefixLease| l.user_hash@ == h && lease_active(l, now))
}

/// The leases of `s` that are active at `now`, in store order.
pub open spec fn active_leases(s: Seq<PrefixLease>, now: u64) -> Seq<PrefixLease> {
    s.filter(|l: PrefixLease| lease_active(l, now))
}

/// Some lease of `s` holds `p` and is active at `now`.
pub open spec fn prefix_active(s: Seq<PrefixLease>, p: Prefix, now: u64) -> bool {
    exists|i: int| 0 <= i < s.len() && (#[trigger] s[i]).prefix == p && lease_active(s[i], now)
}

/// The ASNs of a run of assignment rows, in store order.
pub open spec fn asns_of(s: Seq<UserAsnMapping>) -> Seq<i32> {
    s.map_values(|m: UserAsnMapping| m.asn)
}

/// The blocks of a run of leases, in store order.
pub open spec fn prefixes_of(s: Seq<PrefixLease>) -> Seq<Prefix> {
    s.map_values(|l: PrefixLease| l.prefix)
}

/// `asns_of` holds exactly the taken ASNs.
pub proof fn lemma_asns_of_taken(s: Seq<UserAsnMapping>)
    ensures
        forall|b: i32| #[trigger] asns_of(s).contains(b) <==> asn_taken(s, b),
{
    assert forall|b: i32| #[trigger] asns_of(s).contains(b) <==> asn_taken(s, b) by {
        if asns_of(s).contains(b) {
            let i = choose|i: int| 0 <= i < asns_of(s).len() && asns_of(s)[i] == b;
            assert(s[i].asn == b);
        }
        if asn_taken(s, b) {
            let i = choose|i: int| 0 <= i < s.len() && (#[trigger] s[i]).asn == b;
            assert(asns_of(s)[i] == b);
        }
    }
}

/// The key the lease queries order by: the lease's end time.
pub open spec fn lease_end_key() -> spec_fn(PrefixLease) -> u64 {
    |l: PrefixLease| l.end_time
}

/// A run of leases reordered newest-ending first.
pub open spec fn leases_by_end_desc(s: Seq<PrefixLease>) -> Seq<PrefixLease> {
    ordered_desc(s, lease_end_key())
}

/// The key the mapping join orders by: the assignment's creation time.
pub open spec fn mapping_created_key() -> spec_fn(UserAsnMapping) -> u64 {
    |m: UserAsnMapping| m.created_at
}

/// A run of assignment rows reordered newest-created first.
pub open spec fn mappings_by_created_desc(s: Seq<UserAsnMapping>) -> Seq<UserAsnMapping> {
    ordered_desc(s, mapping_created_key())
}

/// Slot a lease into a run held newest-ending first.
fn insert_lease_desc(out: &mut Vec<PrefixLease>, l: PrefixLease)
    ensures
        final(out)@ == slotted_desc(old(out)@, l, lease_end_key()),
{
    let mut k: usize = 0;
    while k < out.len() && out[k].end_time >= l.end_time
        invariant
            out@ == old(out)@,
            k <= out@.len(),
            forall|j: int| 0 <= j < k ==> (#[trigger] out@[j]).end_time >= l.end_time,
        decreases out@.len() - k,
    {
        k = k + 1;
    }
    proof {
        let key = lease_end_key();
        assert forall|j: int| 0 <= j < k implies key(#[trigger] out@[j]) >= key(l) by {}
        if k < out@.len() {
            assert(key(out@[k as int]) < key(l));
        }
        lemma_slotted_at(out@, l, key, k as int);
    }
    out.insert(k, l);
}

/// Slot an assignment row into a run held newest-created first.
fn insert_mapping_desc(out: &mut Vec<UserAsnMapping>, m: UserAsnMapping)
    ensures
        final(out)@ == slotted_desc(old(out)@, m, mapping_created_key()),
{
    let mut k: usize = 0;
    while k < out.len() && out[k].created_at >= m.created_at
        invariant
            out@ == old(out)@,
            k <= out@.len(),
            forall|j: int| 0 <= j < k ==> (#[trigger] out@[j]).created_at >= m.created_at,
        decreases out@.len() - k,
    {
        k = k + 1;
    }
    proof {
        let key = mapping_created_key();
        assert forall|j: int| 0 <= j < k implies key(#[trigger] out@[j]) >= key(m) by {}
        if k < out@.len() {
            assert(key(out@[k as int]) < key(m));
        }
        lemma_slotted_at(out@, m, key, k as int);
    }
    out.insert(k, m);
}

/// Connection configuration for a persistent backing of the record,
/// consumed by the process at startup.
#[derive(Debug, Clone)]
pub struct DatabaseConfig {
    pub database_url: String,
}

impl DatabaseConfig {
    pub fn new(database_url: String) -> (config: Self)
        ensures
            config.database_url == database_url,
    {
        Self { database_url }
    }
}

/// The record of committed assignments and leases.
#[derive(Debug, Clone)]
pub struct LeaseStore {
    pub assignments: Vec<UserAsnMapping>,
    pub leases: Vec<PrefixLease>,
}

impl LeaseStore {
    /// Handles are unique across assignment rows, committed ASNs are unique
    /// across assignment rows, and no lease ends before it starts.
    pub open spec fn wf(self) -> bool {
        &&& forall|i: int, j: int|
            0 <= i < j < self.assignments@.len() ==> (#[trigger] self.assignments@[i]).user_hash@
                != (#[trigger] self.assignments@[j]).user_hash@
        &&& forall|i: int, j: int|
            0 <= i < j < self.assignments@.len() ==> (#[trigger] self.assignments@[i]).asn != (
            #[trigger] self.assignments@[j]).asn
        &&& forall|i: int|
            0 <= i < self.leases@.len() ==> (#[trigger] self.leases@[i]).start_time
                <= self.leases@[i].end_time
    }

    /// An empty store.
    pub fn new() -> (store: Self)
        ensures
            store.wf(),
            store.assignments@.len() == 0,
            store.leases@.len() == 0,
    {
        LeaseStore { assignments: Vec::new(), leases: Vec::new() }
    }

    /// Get the assignment row of a handle, if there is one.
    pub fn get_user_asn(&self, user_hash: &String) -> (r: Option<UserAsnMapping>)
        ensures
            r == find_assignment(self.assignments@, user_hash@),
    {
        let s = &self.assignments;
        proof {
            assert(s@.skip(0) =~= s@);
        }
        let mut i: usize = 0;
        while i < s.len()
            invariant
                s@ == self.assignments@,
                i <= s@.len(),
                find_assignment(s@, user_hash@) == find_assignment(s@.skip(i as int), user_hash@),
            decreases s@.len() - i,
        {
            proof {
                assert(s@.skip(i as int)[0] == s@[i as int]);
            }
            if s[i].user_hash == *user_hash {
                return Some(s[i].duplicate());
            }
            proof {
                assert(s@.skip(i as int).drop_first() =~= s@.skip(i + 1));
            }
            i = i + 1;
        }
        None
    }

    /// Check whether an ASN is already committed to some handle.
    pub fn is_asn_assigned(&self, asn: i32) -> (r: bool)
        ensures
            r == asn_taken(self.assignments@, asn),
    {
        let s = &self.assignments;
        let mut i: usize = 0;
        while i < s.len()
            invariant
                s@ == self.assignments@,
                i <= s@.len(),
                forall|j: int| 0 <= j < i ==> (#[trigger] s@[j]).asn != asn,
            decreases s@.len() - i,
        {
            if s[i].asn == asn {
                return true;
            }
            i = i + 1;
        }
        false
    }

    /// Get or create the ASN assignment of a handle: an existing row wins,
    /// whatever `asn` is passed; a fresh commit of an ASN some other handle
    /// already holds is refused as a conflict.
    pub fn get_or_create_user_asn(&mut self, user_hash: &String, asn: i32, now: u64) -> (r:
        Result<UserAsnMapping, ApiError>)
        requires
            old(self).wf(),
        ensures
            final(self).wf(),
            match find_assignment(old(self).assignments@, user_hash@) {
                Some(m) => r == Ok::<UserAsnMapping, ApiError>(m) && *final(self) == *old(self),
                None => {
                    if asn_taken(old(self).assignments@, asn) {
                        &&& r == Err::<UserAsnMapping, ApiError>(ApiError::Conflict)
                        &&& *final(self) == *old(self)
                    } else {
                        &&& r matches Ok(m)
                        &&& m.user_hash@ == user_hash@
                        &&& m.asn == asn
                        &&& m.created_at == now
                        &&& m.updated_at == now
                        &&& final(self).assignments@ == old(self).assignments@.push(m)
                        &&& final(self).leases@ == old(self).leases@
                    }
                },
            },
    {
        proof {
            lemma_find_assignment(self.assignments@, user_hash@);
        }
        match self.get_user_asn(user_hash) {
            Some(m) => Ok(m),
            None => {
                if self.is_asn_assigned(asn) {
                    Err(ApiError::Conflict)
                } else {
                    let row = UserAsnMapping {
                        user_hash: user_hash.clone(),
                        asn,
                        created_at: now,
                        updated_at: now,
                    };
                    let out = row.duplicate();
                    self.assignments.push(row);
                    proof {
                        let s2 = self.assignments@;
                        let s1 = old(self).assignments@;
                        assert forall|i: int, j: int| 0 <= i < j < s2.len() implies (
                        #[trigger] s2[i]).user_hash@ != (#[trigger] s2[j]).user_hash@ && s2[i].asn
                            != s2[j].asn by {
                            if j < s2.len() - 1 {
                                assert(s2[i] == s1[i] && s2[j] == s1[j]);
                            } else {
                                assert(s2[i] == s1[i]);
                            }
                        }
                    }
                    Ok(out)
                }
            },
        }
    }

    /// Record a new lease on `prefix` for `user_hash`, running `duration_hours`
    /// from `now` — unless some active lease already holds that block, which
    /// is refused as a conflict.
    pub fn create_prefix_lease(
        &mut self,
        user_hash: &String,
        prefix: Prefix,
        duration_hours: i32,
        now: u64,
    ) -> (r: Result<PrefixLease, ApiError>)
        requires
            old(self).wf(),
            1 <= duration_hours <= 24,
            now <= u64::MAX - 86400,
        ensures
            final(self).wf(),
            active_exclusive(old(self).leases@, now) ==> active_exclusive(
                final(self).leases@,
                now,
            ),
            if prefix_active(old(self).leases@, prefix, now) {
                &&& r == Err::<PrefixLease, ApiError>(ApiError::Conflict)
                &&& *final(self) == *old(self)
            } else {
                &&& r matches Ok(l)
                &&& l.user_hash@ == user_hash@
                &&& l.prefix == prefix
                &&& l.start_time == now
                &&& l.end_time == now + duration_hours * 3600
                &&& l.created_at == now
                &&& l.updated_at == now
                &&& final(self).leases@ == old(self).leases@.push(l)
                &&& final(self).assignments@ == old(self).assignments@
            },
    {
        if self.is_prefix_leased(prefix, now) {
            Err(ApiError::Conflict)
        } else {
            let end_time = now + (duration_hours as u64) * 3600;
            let row = PrefixLease {
                user_hash: user_hash.clone(),
                prefix,
                start_time: now,
                end_time,
                created_at: now,
                updated_at: now,
            };
            let out = row.duplicate();
            proof {
                if active_exclusive(self.leases@, now) {
                    lemma_exclusive_preserved(self.leases@, row, now);
                }
            }
            self.leases.push(row);
            Ok(out)
        }
    }

    /// Check whether some active lease holds `prefix` at `now`.
    pub fn is_prefix_leased(&self, prefix: Prefix, now: u64) -> (r: bool)
        ensures
            r == prefix_active(self.leases@, prefix, now),
    {
        let s = &self.leases;
        let mut i: usize = 0;
        while i < s.len()
            invariant
                s@ == self.leases@,
                i <= s@.len(),
                forall|j: int|
                    0 <= j < i ==> !((#[trigger] s@[j]).prefix == prefix && lease_active(
                        s@[j],
                        now,
                    )),
            decreases s@.len() - i,
        {
            if s[i].prefix == prefix && s[i].end_time > now {
                return true;
            }
            i = i + 1;
        }
        false
    }

    /// The active leases of one handle, newest-ending first.
    pub fn get_active_user_leases(&self, user_hash: &String, now: u64) -> (r: Vec<PrefixLease>)
        ensures
            r@ == leases_by_end_desc(active_leases_for(self.leases@, user_hash@, now)),
    {
        let s = &self.leases;
        let ghost pred = |l: PrefixLease| l.user_hash@ == user_hash@ && lease_active(l, now);
        let mut out: Vec<PrefixLease> = Vec::new();
        let mut i: usize = 0;
        proof {
            assert(s@.take(0) =~= Seq::<PrefixLease>::empty());
        }
        while i < s.len()
            invariant
                s@ == self.leases@,
                i <= s@.len(),
                out@ == leases_by_end_desc(s@.take(i as int).filter(pred)),
                pred == (|l: PrefixLease| l.user_hash@ == user_hash@ && lease_active(l, now)),
            decreases s@.len() - i,
        {
            let ghost f0 = s@.take(i as int).filter(pred);
            proof {
                assert(s@.take(i as int).push(s@[i as int]) =~= s@.take(i + 1));
                s@.take(i as int).lemma_filter_push(s@[i as int], pred);
            }
            if s[i].user_hash == *user_hash && s[i].end_time > now {
                insert_lease_desc(&mut out, s[i].duplicate());
                proof {
                    assert(f0.push(s@[i as int]).drop_last() =~= f0);
                    assert(leases_by_end_desc(f0.push(s@[i as int])) == slotted_desc(
                        leases_by_end_desc(f0),
                        s@[i as int],
                        lease_end_key(),
                    ));
                }
            }
            i = i + 1;
        }
        proof {
            assert(s@.take(s@.len() as int) =~= s@);
        }
        out
    }

    /// The active leases of every handle, newest-ending first.
    pub fn get_all_active_leases(&self, now: u64) -> (r: Vec<PrefixLease>)
        ensures
            r@ == leases_by_end_desc(active_leases(self.leases@, now)),
    {
        let s = &self.leases;
        let ghost pred = |l: PrefixLease| lease_active(l, now);
        let mut out: Vec<PrefixLease> = Vec::new();
        let mut i: usize = 0;
        proof {
            assert(s@.take(0) =~= Seq::<PrefixLease>::empty());
        }
        while i < s.len()
            invariant
                s@ == self.leases@,
                i <= s@.len(),
                out@ == leases_by_end_desc(s@.take(i as int).filter(pred)),
                pred == (|l: PrefixLease| lease_active(l, now)),
            decreases s@.len() - i,
        {
            let ghost f0 = s@.take(i as int).filter(pred);
            proof {
                assert(s@.take(i as int).push(s@[i as int]) =~= s@.take(i + 1));
                s@.take(i as int).lemma_filter_push(s@[i as int], pred);
            }
            if s[i].end_time > now {
                insert_lease_desc(&mut out, s[i].duplicate());
                proof {
                    assert(f0.push(s@[i as int]).drop_last() =~= f0);
                    assert(leases_by_end_desc(f0.push(s@[i as int])) == slotted_desc(
                        leases_by_end_desc(f0),
                        s@[i as int],
                        lease_end_key(),
                    ));
                }
            }
            i = i + 1;
        }
        proof {
            assert(s@.take(s@.len() as int) =~= s@);
        }
        out
    }

    /// The blocks held by leases active at `now`, in store order (the
    /// allocation scan needs occupancy, not an ordering).
    pub fn active_prefixes(&self, now: u64) -> (r: Vec<Prefix>)
        ensures
            r@ == prefixes_of(active_leases(self.leases@, now)),
            forall|p: Prefix| #[trigger] r@.contains(p) <==> prefix_active(self.leases@, p, now),
    {
        let s = &self.leases;
        let ghost pred = |l: PrefixLease| lease_active(l, now);
        let mut out: Vec<Prefix> = Vec::new();
        let mut i: usize = 0;
        proof {
            assert(s@.take(0) =~= Seq::<PrefixLease>::empty());
        }
        while i < s.len()
            invariant
                s@ == self.leases@,
                i <= s@.len(),
                out@ == prefixes_of(s@.take(i as int).filter(pred)),
                pred == (|l: PrefixLease| lease_active(l, now)),
            decreases s@.len() - i,
        {
            let ghost f0 = s@.take(i as int).filter(pred);
            proof {
                assert(s@.take(i as int).push(s@[i as int]) =~= s@.take(i + 1));
                s@.take(i as int).lemma_filter_push(s@[i as int], pred);
            }
            if s[i].end_time > now {
                out.push(s[i].prefix);
                proof {
                    assert(prefixes_of(f0.push(s@[i as int])) =~= prefixes_of(f0).push(
                        s@[i as int].prefix,
                    ));
                }
            }
            i = i + 1;
        }
        proof {
            assert(s@.take(s@.len() as int) =~= s@);
            lemma_prefix_active_iff(self.leases@, now);
            assert forall|p: Prefix| #[trigger] out@.contains(p) <==> prefix_active(
                self.leases@,
                p,
                now,
            ) by {
                assert(prefixes_of(active_leases(self.leases@, now)).contains(p)
                    <==> prefix_active(self.leases@, p, now));
            }
        }
        out
    }

    /// Delete the leases more than seven days past expiry; returns how many
    /// rows went.
    pub fn cleanup_expired_leases(&mut self, now: u64) -> (r: u64)
        requires
            old(self).wf(),
        ensures
            final(self).wf(),
            final(self).leases@ == old(self).leases@.filter(
                (|l: PrefixLease| l.end_time + 604800 >= now),
            ),
            final(self).assignments@ == old(self).assignments@,
            r == old(self).leases@.len() - final(self).leases@.len(),
    {
        let s = &self.leases;
        let ghost pred = |l: PrefixLease| l.end_time + 604800 >= now;
        let mut kept: Vec<PrefixLease> = Vec::new();
        let mut i: usize = 0;
        proof {
            assert(s@.take(0) =~= Seq::<PrefixLease>::empty());
        }
        while i < s.len()
            invariant
                i <= s@.len(),
                kept@ == s@.take(i as int).filter(pred),
                kept@.len() <= i,
                pred == (|l: PrefixLease| l.end_time + 604800 >= now),
            decreases s@.len() - i,
        {
            proof {
                assert(s@.take(i as int).push(s@[i as int]) =~= s@.take(i + 1));
                s@.take(i as int).lemma_filter_push(s@[i as int], pred);
            }
            let expired = now >= 604800 && s[i].end_time < now - 604800;
            if !expired {
                kept.push(s[i].duplicate());
            }
            i = i + 1;
        }
        proof {
            assert(s@.take(s@.len() as int) =~= s@);
            assert forall|k: int| 0 <= k < kept@.len() implies (#[trigger] kept@[k]).start_time
                <= kept@[k].end_time by {
                self.leases@.lemma_filter_pred(pred, k);
                self.leases@.lemma_filter_contains_rev(pred, kept@[k]);
                let j = choose|j: int|
                    0 <= j < self.leases@.len() && #[trigger] self.leases@[j] == kept@[k];
            }
        }
        let removed = self.leases.len() - kept.len();
        self.leases = kept;
        removed as u64
    }

    /// The assignment row of a handle together with its active leases.
    pub fn get_user_info(&self, user_hash: &String, now: u64) -> (r: (
        Option<UserAsnMapping>,
        Vec<PrefixLease>,
    ))
        ensures
            r.0 == find_assignment(self.assignments@, user_hash@),
            r.1@ == leases_by_end_desc(active_leases_for(self.leases@, user_hash@, now)),
    {
        let asn_mapping = self.get_user_asn(user_hash);
        let leases = self.get_active_user_leases(user_hash, now);
        (asn_mapping, leases)
    }

    /// Every assignment row, newest-created first, each with its active
    /// leases newest-ending first.
    pub fn get_all_user_mappings(&self, now: u64) -> (r: Vec<(UserAsnMapping, Vec<PrefixLease>)>)
        ensures
            r@.len() == self.assignments@.len(),
            forall|i: int|
                0 <= i < r@.len() ==> (#[trigger] r@[i]).0 == mappings_by_created_desc(
                    self.assignments@,
                )[i] && r@[i].1@ == leases_by_end_desc(
                    active_leases_for(
                        self.leases@,
                        mappings_by_created_desc(self.assignments@)[i].user_hash@,
                        now,
                    ),
                ),
    {
        let a = &self.assignments;
        let mut sorted_rows: Vec<UserAsnMapping> = Vec::new();
        let mut i: usize = 0;
        proof {
            assert(a@.take(0) =~= Seq::<UserAsnMapping>::empty());
        }
        while i < a.len()
            invariant
                a@ == self.assignments@,
                i <= a@.len(),
                sorted_rows@ == mappings_by_created_desc(a@.take(i as int)),
            decreases a@.len() - i,
        {
            let ghost t0 = a@.take(i as int);
            insert_mapping_desc(&mut sorted_rows, a[i].duplicate());
            proof {
                assert(t0.push(a@[i as int]) =~= a@.take(i + 1));
                assert(t0.push(a@[i as int]).drop_last() =~= t0);
                assert(mappings_by_created_desc(t0.push(a@[i as int])) == slotted_desc(
                    mappings_by_created_desc(t0),
                    a@[i as int],
                    mapping_created_key(),
                ));
            }
            i = i + 1;
        }
        proof {
            assert(a@.take(a@.len() as int) =~= a@);
            lemma_ordered_desc_ensures(self.assignments@, mapping_created_key());
        }

        let mut out: Vec<(UserAsnMapping, Vec<PrefixLease>)> = Vec::new();
        let mut j: usize = 0;
        while j < sorted_rows.len()
            invariant
                sorted_rows@ == mappings_by_created_desc(self.assignments@),
                j <= sorted_rows@.len(),
                out@.len() == j,
                forall|k: int|
                    0 <= k < j ==> (#[trigger] out@[k]).0 == sorted_rows@[k] && out@[k].1@
                        == leases_by_end_desc(
                        active_leases_for(self.leases@, sorted_rows@[k].user_hash@, now),
                    ),
            decreases sorted_rows@.len() - j,
        {
            let row = sorted_rows[j].duplicate();
            let leases = self.get_active_user_leases(&row.user_hash, now);
            out.push((row, leases));
            j = j + 1;
        }
        out
    }

    /// The committed ASNs, in store order.
    pub fn assigned_asns(&self) -> (r: Vec<i32>)
        ensures
            r@ == asns_of(self.assignments@),
            forall|b: i32| #[trigger] r@.contains(b) <==> asn_taken(self.assignments@, b),
    {
        let s = &self.assignments;
        let mut out: Vec<i32> = Vec::new();
        let mut i: usize = 0;
        while i < s.len()
            invariant
                i <= s@.len(),
                out@ == asns_of(s@.take(i as int)),
            decreases s@.len() - i,
        {
            proof {
                assert(asns_of(s@.take(i + 1)) =~= asns_of(s@.take(i as int)).push(
                    s@[i as int].asn,
                ));
            }
            out.push(s[i].asn);
            i = i + 1;
        }
        proof {
            assert(s@.take(s@.len() as int) =~= s@);
            lemma_asns_of_taken(s@);
        }
        out
    }
}

/// The blocks of the active leases are exactly the actively held blocks.
pub proof fn lemma_prefix_active_iff(s: Seq<PrefixLease>, now: u64)
    ensures
        forall|p: Prefix| #[trigger] prefixes_of(active_leases(s, now)).contains(p)
            <==> prefix_active(s, p, now),
{
    let act = active_leases(s, now);
    let pred = |l: PrefixLease| lease_active(l, now);
    assert forall|p: Prefix| #[trigger] prefixes_of(act).contains(p) <==> prefix_active(
        s,
        p,
        now,
    ) by {
        if prefixes_of(act).contains(p) {
            let k = choose|k: int| 0 <= k < prefixes_of(act).len() && prefixes_of(act)[k] == p;
            s.lemma_filter_pred(pred, k);
            s.lemma_filter_contains_rev(pred, act[k]);
            let j = choose|j: int| 0 <= j < s.len() && #[trigger] s[j] == act[k];
        }
        if prefix_active(s, p, now) {
            let j = choose|j: int|
                0 <= j < s.len() && (#[trigger] s[j]).prefix == p && lease_active(s[j], now);
            s.lemma_filter_contains(pred, j);
            let k = choose|k: int| 0 <= k < act.len() && #[trigger] act[k] == s[j];
            assert(prefixes_of(act)[k] == p);
        }
    }
}


/// A handle absent from `s` is found exactly at a row pushed for it.
pub proof fn lemma_find_assignment_push(s: Seq<UserAsnMapping>, row: UserAsnMapping)
    requires
        find_assignment(s, row.user_hash@) is None,
    ensures
        find_assignment(s.push(row), row.user_hash@) == Some(row),
    decreases s.len(),
{
    if s.len() == 0 {
        assert(s.push(row)[0] == row);
    } else {
        assert(s.push(row)[0] == s[0]);
        assert(s.push(row).drop_first() =~= s.drop_first().push(row));
        lemma_find_assignment_push(s.drop_first(), row);
    }
}

/// Requesting an ASN twice for one handle returns the identical ASN both
/// times and never rewrites the first assignment: once a grant has
/// committed `row`, the store finds exactly `row` for that handle, so a
/// repeat request takes the existing-assignment arm of `request_asn`'s
/// contract — the same ASN back, the store untouched.
pub proof fn lemma_asn_request_idempotent(s0: LeaseStore, s1: LeaseStore, row: UserAsnMapping)
    requires
        find_assignment(s0.assignments@, row.user_hash@) is None,
        s1.assignments@ == s0.assignments@.push(row),
    ensures
        find_assignment(s1.assignments@, row.user_hash@) == Some(row),
{
    lemma_find_assignment_push(s0.assignments@, row);
}

/// A lease whose end has passed is excluded from the active-lease queries
/// from that instant onward: it appears neither among one handle's active
/// leases nor among anyone's.
pub proof fn lemma_expired_lease_excluded(
    s: Seq<PrefixLease>,
    h: Seq<char>,
    now: u64,
    l: PrefixLease,
)
    requires
        l.end_time <= now,
    ensures
        !active_leases_for(s, h, now).contains(l),
        !active_leases(s, now).contains(l),
        !leases_by_end_desc(active_leases_for(s, h, now)).contains(l),
        !leases_by_end_desc(active_leases(s, now)).contains(l),
{
    lemma_ordered_desc_ensures(active_leases_for(s, h, now), lease_end_key());
    lemma_ordered_desc_ensures(active_leases(s, now), lease_end_key());
    let pred_h = |x: PrefixLease| x.user_hash@ == h && lease_active(x, now);
    let pred = |x: PrefixLease| lease_active(x, now);
    if active_leases_for(s, h, now).contains(l) {
        let i = choose|i: int|
            0 <= i < active_leases_for(s, h, now).len() && active_leases_for(s, h, now)[i] == l;
        s.lemma_filter_pred(pred_h, i);
    }
    if active_leases(s, now).contains(l) {
        let i = choose|i: int|
            0 <= i < active_leases(s, now).len() && active_leases(s, now)[i] == l;
        s.lemma_filter_pred(pred, i);
    }
}

/// At any one instant, at most one active lease holds each block.
pub open spec fn active_exclusive(s: Seq<PrefixLease>, now: u64) -> bool {
    forall|i: int, j: int|
        0 <= i < j < s.len() && lease_active(#[trigger] s[i], now) && lease_active(
            #[trigger] s[j],
            now,
        ) ==> s[i].prefix != s[j].prefix
}

/// Committing a block that no active lease holds keeps active-prefix
/// exclusivity: the check and the commit of `create_prefix_lease` happen
/// against one store borrow, so the double-booking race cannot arise.
pub proof fn lemma_exclusive_preserved(s: Seq<PrefixLease>, l: PrefixLease, now: u64)
    requires
        active_exclusive(s, now),
        !prefix_active(s, l.prefix, now),
    ensures
        active_exclusive(s.push(l), now),
{
    let s2 = s.push(l);
    assert forall|i: int, j: int|
        0 <= i < j < s2.len() && lease_active(#[trigger] s2[i], now) && lease_active(
            #[trigger] s2[j],
            now,
        ) implies s2[i].prefix != s2[j].prefix by {
        if j == s2.len() - 1 {
            assert(s2[i] == s[i]);
            assert(s2[j] == l);
        } else {
            assert(s2[i] == s[i] && s2[j] == s[j]);
        }
    }
}

/// Exclusivity at one instant holds at every later instant: leases only
/// fall out of the active set as the clock moves forward.
pub proof fn lemma_exclusive_monotonic(s: Seq<PrefixLease>, now: u64, later: u64)
    requires
        active_exclusive(s, now),
        now <= later,
    ensures
        active_exclusive(s, later),
{
}

} // verus!
