//! The prefix pool: an immutable list of distinct IPv6 /48 blocks loaded
//! once from flat text (one block per line, `#` comments and blank lines
//! ignored, malformed or wrong-length entries dropped).

use vstd::prelude::*;

verus! {

/// An IPv6 network block: 128 address bits and a prefix length, as written
/// in CIDR text.
#[derive(Debug, Clone, Copy, PartialEq, Eq, Structural)]
pub struct Prefix {
    pub addr: u128,
    pub len: u8,
}

/// What `ipnet::Ipv6Net::from_str` makes of a piece of text: the parsed
/// address bits and prefix length, or `None` for text it rejects.
pub uninterp spec fn ipv6_net_of(s: Seq<char>) -> Option<(u128, u8)>;

/// Relies on `ipnet::Ipv6Net::from_str`: parsing CIDR text is a function of
/// the text alone, and an accepted prefix length is at most 128.
#[verifier::external_body]
fn parse_ipv6_net(s: &str) -> (r: Option<(u128, u8)>)
    ensures
        r == ipv6_net_of(s@),
        r matches Some(p) ==> p.1 <= 128,
{
    match s.parse::<ipnet::Ipv6Net>() {
        Ok(net) => Some((u128::from(net.addr()), net.prefix_len())),
        Err(_) => None,
    }
}

/// The prefix a piece of CIDR text denotes, if any.
pub open spec fn prefix_of_text(s: Seq<char>) -> Option<Prefix> {
    match ipv6_net_of(s) {
        Some(p) => Some(Prefix { addr: p.0, len: p.1 }),
        None => None,
    }
}

/// Parse one CIDR text into a prefix.
pub fn parse_prefix(s: &str) -> (r: Option<Prefix>)
    ensures
        r == prefix_of_text(s@),
        r matches Some(p) ==> p.len <= 128,
{
    match parse_ipv6_net(s) {
        Some(p) => Some(Prefix { addr: p.0, len: p.1 }),
        None => None,
    }
}

/// Horizontal whitespace (and a stray carriage return) around a pool line.
pub open spec fn is_space(c: char) -> bool {
    c == ' ' || c == '\t' || c == '\r'
}

/// A line with leading whitespace removed.
pub open spec fn trim_front(s: Seq<char>) -> Seq<char>
    decreases s.len(),
{
    if s.len() > 0 && is_space(s[0]) {
        trim_front(s.drop_first())
    } else {
        s
    }
}

/// A line with trailing whitespace removed.
pub open spec fn trim_back(s: Seq<char>) -> Seq<char>
    decreases s.len(),
{
    if s.len() > 0 && is_space(s[s.len() - 1]) {
        trim_back(s.drop_last())
    } else {
        s
    }
}

/// A line with surrounding whitespace removed.
pub open spec fn trim(s: Seq<char>) -> Seq<char> {
    trim_back(trim_front(s))
}

/// What one line of the pool file contributes: nothing for blank lines,
/// comments, unparsable text, blocks that are not /48s, and duplicates;
/// otherwise the block is appended.
pub open spec fn add_line(acc: Seq<Prefix>, line: Seq<char>) -> Seq<Prefix> {
    let t = trim(line);
    if t.len() == 0 || t[0] == '#' {
        acc
    } else {
        match ipv6_net_of(t) {
            Some(p) => {
                let prefix = Prefix { addr: p.0, len: p.1 };
                if p.1 == 48 && !acc.contains(prefix) {
                    acc.push(prefix)
                } else {
                    acc
                }
            },
            None => acc,
        }
    }
}

/// Fold of `add_line` over the lines of `s`, char by char: `cur` is the
/// line being read, `acc` the blocks taken so far.
pub open spec fn fold_text(s: Seq<char>, cur: Seq<char>, acc: Seq<Prefix>) -> Seq<Prefix>
    decreases s.len(),
{
    if s.len() == 0 {
        add_line(acc, cur)
    } else if s[0] == '\n' {
        fold_text(s.drop_first(), Seq::empty(), add_line(acc, cur))
    } else {
        fold_text(s.drop_first(), cur.push(s[0]), acc)
    }
}

/// The blocks a whole pool file denotes, in file order, without duplicates.
pub open spec fn pool_of_text(s: Seq<char>) -> Seq<Prefix> {
    fold_text(s, Seq::empty(), Seq::empty())
}

/// Folding a newline-free stretch of `k` chars reads it into the current
/// line; a newline at its end closes that line.
proof fn lemma_fold_line(s: Seq<char>, k: int, cur: Seq<char>, acc: Seq<Prefix>)
    requires
        0 <= k <= s.len(),
        forall|j: int| 0 <= j < k ==> s[j] != '\n',
        k < s.len() ==> s[k] == '\n',
    ensures
        fold_text(s, cur, acc) == if k == s.len() {
            add_line(acc, cur + s.take(k))
        } else {
            fold_text(s.skip(k + 1), Seq::empty(), add_line(acc, cur + s.take(k)))
        },
    decreases k,
{
    if k == 0 {
        assert(cur + s.take(0) =~= cur);
        if s.len() > 0 {
            assert(s.drop_first() =~= s.skip(1));
        }
    } else {
        let s1 = s.drop_first();
        lemma_fold_line(s1, k - 1, cur.push(s[0]), acc);
        assert(cur.push(s[0]) + s1.take(k - 1) =~= cur + s.take(k));
        if k < s.len() {
            assert(s1.skip(k) =~= s.skip(k + 1));
        }
    }
}

/// Pool of IPv6 /48 blocks, in the order the pool file listed them.
#[derive(Debug, Clone)]
pub struct PrefixPool {
    pub prefixes: Vec<Prefix>,
}

impl PrefixPool {
    /// Every member is a distinct /48.
    pub open spec fn wf(self) -> bool {
        &&& forall|i: int|
            0 <= i < self.prefixes@.len() ==> (#[trigger] self.prefixes@[i]).len == 48
        &&& forall|i: int, j: int|
            0 <= i < j < self.prefixes@.len() ==> self.prefixes@[i] != self.prefixes@[j]
    }

    /// Load the pool from the text of a pool file: one /48 in CIDR form per
    /// line; blank lines and `#` comments are ignored; anything else that
    /// does not parse as a /48, and any repeated block, is dropped.
    pub fn from_text(content: &str) -> (pool: Self)
        ensures
            pool.prefixes@ == pool_of_text(content@),
            pool.wf(),
    {
        let n = content.unicode_len();
        // Collect the chars once so the scan can index them directly.
        let mut cv: Vec<char> = Vec::new();
        let mut i: usize = 0;
        while i < n
            invariant
                n == content@.len(),
                i <= n,
                cv@ =~= content@.take(i as int),
            decreases n - i,
        {
            cv.push(content.get_char(i));
            assert(cv@ =~= content@.take(i + 1));
            i = i + 1;
        }
        assert(cv@ =~= content@);

        let mut prefixes: Vec<Prefix> = Vec::new();
        let mut pos: usize = 0;
        proof {
            assert(content@.skip(0) =~= content@);
        }
        while pos < n
            invariant
                n == content@.len(),
                cv@ =~= content@,
                pos <= n + 1,
                pool_of_text(content@) == if pos <= n {
                    fold_text(content@.skip(pos as int), Seq::empty(), prefixes@)
                } else {
                    prefixes@
                },
                forall|i: int|
                    0 <= i < prefixes@.len() ==> (#[trigger] prefixes@[i]).len == 48,
                forall|i: int, j: int|
                    0 <= i < j < prefixes@.len() ==> prefixes@[i] != prefixes@[j],
            decreases n - pos,
        {
            let ghost acc0 = prefixes@;
            // Find the end of the current line.
            let mut j = pos;
            while j < n && cv[j] != '\n'
                invariant
                    n == content@.len(),
                    cv@ =~= content@,
                    pos <= j <= n,
                    forall|k: int| pos <= k < j ==> content@[k] != '\n',
                decreases n - j,
            {
                j = j + 1;
            }
            let ghost line = content@.subrange(pos as int, j as int);

            // Trim the line.
            let mut ts = pos;
            while ts < j && is_space_char(cv[ts])
                invariant
                    n == content@.len(),
                    cv@ =~= content@,
                    pos <= ts <= j <= n,
                    forall|k: int| pos <= k < ts ==> is_space(content@[k]),
                decreases j - ts,
            {
                ts = ts + 1;
            }
            let mut te = j;
            while te > ts && is_space_char(cv[te - 1])
                invariant
                    n == content@.len(),
                    cv@ =~= content@,
                    ts <= te <= j <= n,
                    forall|k: int| te <= k < j ==> is_space(content@[k]),
                decreases te,
            {
                te = te - 1;
            }
            proof {
                lemma_trim_front_range(content@, pos as int, ts as int, j as int);
                lemma_trim_back_range(content@, ts as int, te as int, j as int);
                assert(trim(line) == content@.subrange(ts as int, te as int));
            }
            let ghost t = content@.subrange(ts as int, te as int);

            // Keep the line's block if it is a fresh /48.
            if te > ts && cv[ts] != '#' {
                let line_str = content.substring_char(ts, te);
                assert(line_str@ == t);
                match parse_ipv6_net(line_str) {
                    Some(p) => {
                        let prefix = Prefix { addr: p.0, len: p.1 };
                        if p.1 == 48 && !contains_prefix(&prefixes, prefix) {
                            prefixes.push(prefix);
                        }
                    },
                    None => {},
                }
            }
            proof {
                assert(prefixes@ == add_line(acc0, line));
            }

            // Step the fold past this line.
            proof {
                let s2 = content@.skip(pos as int);
                assert forall|k: int| 0 <= k < j - pos implies s2[k] != '\n' by {
                    assert(s2[k] == content@[pos + k]);
                }
                if j < n {
                    assert(s2[j - pos] == content@[j as int]);
                }
                lemma_fold_line(s2, j - pos, Seq::empty(), acc0);
                assert(Seq::empty() + s2.take(j - pos) =~= line);
                if j < n {
                    assert(s2.skip(j - pos + 1) =~= content@.skip(j + 1));
                }
            }
            if j == n {
                pos = n;
                proof {
                    assert(content@.skip(n as int).len() == 0);
                }
            } else {
                pos = j + 1;
            }
        }
        PrefixPool { prefixes }
    }

    /// Get all members of the pool.
    pub fn get_all_prefixes(&self) -> (r: &Vec<Prefix>)
        ensures
            r@ == self.prefixes@,
    {
        &self.prefixes
    }

    /// Get the number of blocks in the pool.
    pub fn len(&self) -> (n: usize)
        ensures
            n == self.prefixes@.len(),
    {
        self.prefixes.len()
    }

    /// Check if the pool is empty.
    pub fn is_empty(&self) -> (r: bool)
        ensures
            r == (self.prefixes@.len() == 0),
    {
        self.prefixes.len() == 0
    }

    /// Find the first pool member absent from `leased`; `None` exactly when
    /// every member is leased.
    pub fn find_available_prefix(&self, leased: &Vec<Prefix>) -> (r: Option<Prefix>)
        ensures
            (r matches Some(p) ==> exists|i: int|
                {
                    &&& 0 <= i < self.prefixes@.len()
                    &&& #[trigger] self.prefixes@[i] == p
                    &&& !leased@.contains(p)
                    &&& forall|j: int| 0 <= j < i ==> leased@.contains(#[trigger] self.prefixes@[j])
                }),
            (r is None ==> forall|i: int|
                0 <= i < self.prefixes@.len() ==> leased@.contains(#[trigger] self.prefixes@[i])),
    {
        let mut i: usize = 0;
        while i < self.prefixes.len()
            invariant
                i <= self.prefixes@.len(),
                forall|j: int| 0 <= j < i ==> leased@.contains(#[trigger] self.prefixes@[j]),
            decreases self.prefixes@.len() - i,
        {
            let p = self.prefixes[i];
            if !contains_prefix(leased, p) {
                return Some(p);
            }
            i = i + 1;
        }
        None
    }
}

/// Executable twin of `is_space`.
pub fn is_space_char(c: char) -> (r: bool)
    ensures
        r == is_space(c),
{
    c == ' ' || c == '\t' || c == '\r'
}

/// Linear membership test over a vector of prefixes.
pub fn contains_prefix(v: &Vec<Prefix>, p: Prefix) -> (r: bool)
    ensures
        r == v@.contains(p),
{
    let mut i: usize = 0;
    while i < v.len()
        invariant
            i <= v@.len(),
            forall|j: int| 0 <= j < i ==> v@[j] != p,
        decreases v@.len() - i,
    {
        if v[i] == p {
            return true;
        }
        i = i + 1;
    }
    false
}

/// Removing the all-space stretch `[a, ts)` is what `trim_front` does.
proof fn lemma_trim_front_range(s: Seq<char>, a: int, ts: int, b: int)
    requires
        0 <= a <= ts <= b <= s.len(),
        forall|k: int| a <= k < ts ==> is_space(s[k]),
        ts < b ==> !is_space(s[ts]),
    ensures
        trim_front(s.subrange(a, b)) == s.subrange(ts, b),
    decreases ts - a,
{
    if ts == a {
        let sub = s.subrange(a, b);
        if sub.len() > 0 {
            assert(sub[0] == s[a]);
        }
    } else {
        assert(s.subrange(a, b).drop_first() =~= s.subrange(a + 1, b));
        lemma_trim_front_range(s, a + 1, ts, b);
    }
}

/// Removing the all-space stretch `[te, b)` is what `trim_back` does.
proof fn lemma_trim_back_range(s: Seq<char>, a: int, te: int, b: int)
    requires
        0 <= a <= te <= b <= s.len(),
        forall|k: int| te <= k < b ==> is_space(s[k]),
        a < te ==> !is_space(s[te - 1]),
    ensures
        trim_back(s.subrange(a, b)) == s.subrange(a, te),
    decreases b - te,
{
    if te == b {
        let sub = s.subrange(a, b);
        if sub.len() > 0 {
            assert(sub[sub.len() - 1] == s[b - 1]);
        }
    } else {
        assert(s.subrange(a, b).drop_last() =~= s.subrange(a, b - 1));
        lemma_trim_back_range(s, a, te, b - 1);
    }
}

} // verus!
