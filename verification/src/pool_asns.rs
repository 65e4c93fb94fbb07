//! The ASN pool: an immutable closed integer interval fixed at start-up,
//! answering "lowest member not yet committed".

use vstd::prelude::*;

verus! {

/// Pool of autonomous-system numbers, the closed interval `[start, end]`.
#[derive(Debug, Clone, Copy)]
pub struct AsnPool {
    pub start: i32,
    pub end: i32,
}

impl AsnPool {
    /// A pool is a non-empty interval whose size fits in an `i32`.
    pub open spec fn wf(self) -> bool {
        self.start <= self.end && self.end - self.start < i32::MAX
    }

    /// Create a new ASN pool with a range.
    pub fn new(start: i32, end: i32) -> (pool: Self)
        requires
            start <= end,
            end - start < i32::MAX,
        ensures
            pool.wf(),
            pool.start == start,
            pool.end == end,
    {
        Self { start, end }
    }

    /// Find the lowest ASN of the pool that is absent from `assigned`;
    /// `None` exactly when every member of the pool is taken.
    pub fn find_available_asn(&self, assigned: &Vec<i32>) -> (r: Option<i32>)
        requires
            self.wf(),
        ensures
            (r matches Some(asn) ==> {
                &&& self.start <= asn <= self.end
                &&& !assigned@.contains(asn)
                &&& forall|b: i32| self.start <= b < asn ==> assigned@.contains(b)
            }),
            (r is None ==> forall|b: i32|
                self.start <= b <= self.end ==> assigned@.contains(b)),
    {
        let mut asn = self.start;
        loop
            invariant
                self.wf(),
                self.start <= asn <= self.end,
                forall|b: i32| self.start <= b < asn ==> assigned@.contains(b),
            decreases self.end - asn,
        {
            if !contains_i32(assigned, asn) {
                return Some(asn);
            }
            if asn == self.end {
                return None;
            }
            asn = asn + 1;
        }
    }

    /// Get the total number of ASNs in the pool.
    pub fn size(&self) -> (n: i32)
        requires
            self.wf(),
        ensures
            n == self.end - self.start + 1,
    {
        self.end - self.start + 1
    }

    /// Get the start of the ASN range.
    pub fn start(&self) -> (s: i32)
        ensures
            s == self.start,
    {
        self.start
    }

    /// Get the end of the ASN range.
    pub fn end(&self) -> (e: i32)
        ensures
            e == self.end,
    {
        self.end
    }
}

/// Linear membership test over a vector of ASNs.
pub fn contains_i32(v: &Vec<i32>, x: i32) -> (r: bool)
    ensures
        r == v@.contains(x),
{
    let mut i: usize = 0;
    while i < v.len()
        invariant
            i <= v@.len(),
            forall|j: int| 0 <= j < i ==> v@[j] != x,
        decreases v@.len() - i,
    {
        if v[i] == x {
            return true;
        }
        i = i + 1;
    }
    false
}

} // verus!
