//! Per-client rate limiting: a table of request counters for the
//! current window, incremented before the ceiling comparison and
//! reset wholesale at each window boundary.

use vstd::prelude::*;
use crate::ProxyError;

verus! {

/// One request's effect on a client's window counter: the counter is
/// created at zero on first sight and incremented before the ceiling
/// comparison.
pub open spec fn next_count(c: nat) -> nat {
    c + 1
}

/// Whether a request that raised its client's counter to `c` is
/// accepted under ceiling `k`: the post-increment count must not
/// exceed the ceiling, so the request that crosses the ceiling is
/// itself rejected.
pub open spec fn accepts(c: nat, k: nat) -> bool {
    c <= k
}

/// The counter one client reaches after `n` requests within a single
/// window, starting from a fresh or freshly reset table.
pub open spec fn count_after(n: nat) -> nat
    decreases n,
{
    if n == 0 {
        0
    } else {
        next_count(count_after((n - 1) as nat))
    }
}

/// Law: within one window under a positive ceiling `k`, a client's
/// requests `1..=k` are accepted and request `k + 1` is rejected; a
/// window reset returns the counter to zero, so the first request
/// after it is accepted again.
pub proof fn lemma_window_ceiling(k: nat, j: nat)
    requires
        1 <= k,
    ensures
        count_after(j) == j,
        1 <= j <= k ==> accepts(count_after(j), k),
        j == k + 1 ==> !accepts(count_after(j), k),
        accepts(next_count(0), k),
    decreases j,
{
    if j > 0 {
        lemma_window_ceiling(k, (j - 1) as nat);
    }
}

/// The per-window request counters, one per client address seen in
/// the current window, against a fixed positive ceiling.
pub struct RateLimitTable {
    entries: Vec<(String, usize)>,
    limit: usize,
}

impl RateLimitTable {
    /// The configured per-window ceiling.
    pub closed spec fn spec_limit(self) -> nat {
        self.limit as nat
    }

    /// The stored counter entries.
    pub closed spec fn spec_entries(self) -> Seq<(String, usize)> {
        self.entries@
    }

    /// Each client address occurs at most once in the table.
    pub open spec fn wf(self) -> bool {
        forall|i: int, j: int|
            0 <= i < j < self.spec_entries().len() ==> #[trigger] self.spec_entries()[i].0@
                != #[trigger] self.spec_entries()[j].0@
    }

    /// The counter currently recorded for a client, zero if the
    /// client has not been seen in this window.
    pub open spec fn spec_count(self, ip: Seq<char>) -> nat {
        if exists|i: int|
            0 <= i < self.spec_entries().len() && #[trigger] self.spec_entries()[i].0@ == ip {
            let i = choose|i: int|
                0 <= i < self.spec_entries().len() && #[trigger] self.spec_entries()[i].0@ == ip;
            self.spec_entries()[i].1 as nat
        } else {
            0
        }
    }

    /// Creates an empty table under the given positive ceiling; every
    /// client starts the window with a zero counter.
    pub fn new(limit: usize) -> (t: Self)
        requires
            limit >= 1,
        ensures
            t.wf(),
            t.spec_limit() == limit as nat,
            forall|ip: Seq<char>| t.spec_count(ip) == 0,
    {
        RateLimitTable { entries: Vec::new(), limit }
    }

    /// Counts one request from `ip` against the current window:
    /// increments the client's counter (creating it first if absent)
    /// and accepts the request exactly when the incremented counter
    /// is still within the ceiling. A rejected request still leaves
    /// the increment in place.
    pub fn check_and_count(&mut self, ip: &String) -> (res: Result<(), ProxyError>)
        requires
            old(self).wf(),
            old(self).spec_count(ip@) < usize::MAX,
        ensures
            final(self).wf(),
            final(self).spec_limit() == old(self).spec_limit(),
            final(self).spec_count(ip@) == next_count(old(self).spec_count(ip@)),
            forall|other: Seq<char>|
                other != ip@ ==> final(self).spec_count(other) == old(self).spec_count(other),
            res is Ok <==> accepts(next_count(old(self).spec_count(ip@)), old(self).spec_limit()),
            res matches Err(e) ==> e == ProxyError::RateLimited,
    {
        let ghost orig = self.entries@;
        let mut found: Option<usize> = None;
        let mut i: usize = 0;
        while i < self.entries.len()
            invariant
                self.entries@ == orig,
                i <= orig.len(),
                found matches Some(w) ==> 0 <= w < i && orig[w as int].0@ == ip@,
                found is None ==> forall|k: int| 0 <= k < i as int ==> #[trigger] orig[k].0@ != ip@,
            decreases orig.len() - i,
        {
            if found.is_none() && self.entries[i].0.eq(ip) {
                found = Some(i);
            }
            i = i + 1;
        }
        let new_count: usize = match found {
            Some(w) => {
                proof {
                    assert(old(self).spec_entries()[w as int].0@ == ip@);
                    let k = choose|i: int|
                        0 <= i < old(self).spec_entries().len()
                            && #[trigger] old(self).spec_entries()[i].0@ == ip@;
                    Self::lemma_key_index_unique(*old(self), k, w as int);
                    assert(old(self).spec_count(ip@) == old(self).spec_entries()[w as int].1 as nat);
                }
                let c = self.entries[w].1;
                let key = self.entries[w].0.clone();
                self.entries.set(w, (key, c + 1));
                proof {
                    assert forall|a: int, b: int|
                        0 <= a < b < self.spec_entries().len() implies #[trigger] self
                        .spec_entries()[a].0@ != #[trigger] self.spec_entries()[b].0@ by {
                        assert(self.spec_entries()[a].0@ == old(self).spec_entries()[a].0@);
                        assert(self.spec_entries()[b].0@ == old(self).spec_entries()[b].0@);
                    }
                    assert(self.spec_entries()[w as int].0@ == ip@);
                    let k = choose|i: int|
                        0 <= i < self.spec_entries().len() && #[trigger] self.spec_entries()[i].0@
                            == ip@;
                    Self::lemma_key_index_unique(*self, k, w as int);
                    assert(self.spec_count(ip@) == (c + 1) as nat);
                    assert forall|other: Seq<char>| other != ip@ implies self.spec_count(other)
                        == old(self).spec_count(other) by {
                        Self::lemma_count_other(*self, *old(self), w as int, other);
                    }
                }
                c + 1
            },
            None => {
                self.entries.push((ip.clone(), 1));
                proof {
                    let n = orig.len() as int;
                    assert forall|a: int, b: int|
                        0 <= a < b < self.spec_entries().len() implies #[trigger] self
                        .spec_entries()[a].0@ != #[trigger] self.spec_entries()[b].0@ by {
                        if b < n {
                            assert(self.spec_entries()[a].0@ == old(self).spec_entries()[a].0@);
                            assert(self.spec_entries()[b].0@ == old(self).spec_entries()[b].0@);
                        } else {
                            assert(self.spec_entries()[b].0@ == ip@);
                            assert(self.spec_entries()[a].0@ == old(self).spec_entries()[a].0@);
                            assert(old(self).spec_entries()[a].0@ != ip@);
                        }
                    }
                    assert(self.spec_entries()[n].0@ == ip@);
                    let k = choose|i: int|
                        0 <= i < self.spec_entries().len() && #[trigger] self.spec_entries()[i].0@
                            == ip@;
                    Self::lemma_key_index_unique(*self, k, n);
                    assert(self.spec_count(ip@) == 1);
                    assert(old(self).spec_count(ip@) == 0) by {
                        if exists|i: int|
                            0 <= i < old(self).spec_entries().len()
                                && #[trigger] old(self).spec_entries()[i].0@ == ip@ {
                            let i = choose|i: int|
                                0 <= i < old(self).spec_entries().len()
                                    && #[trigger] old(self).spec_entries()[i].0@ == ip@;
                            assert(orig[i].0@ != ip@);
                            assert(false);
                        }
                    }
                    assert forall|other: Seq<char>| other != ip@ implies self.spec_count(other)
                        == old(self).spec_count(other) by {
                        Self::lemma_count_other(*self, *old(self), n, other);
                    }
                }
                1
            },
        };
        if new_count > self.limit {
            Err(ProxyError::RateLimited)
        } else {
            Ok(())
        }
    }

    /// Under the uniqueness invariant, a client address determines
    /// its index in the table.
    proof fn lemma_key_index_unique(t: Self, a: int, b: int)
        requires
            t.wf(),
            0 <= a < t.spec_entries().len(),
            0 <= b < t.spec_entries().len(),
            t.spec_entries()[a].0@ == t.spec_entries()[b].0@,
        ensures
            a == b,
    {
        if a < b {
            assert(t.spec_entries()[a].0@ != t.spec_entries()[b].0@);
        }
        if b < a {
            assert(t.spec_entries()[b].0@ != t.spec_entries()[a].0@);
        }
    }

    /// The counters of clients other than the one whose entry was
    /// updated in place, or appended at the end, stay as they were.
    proof fn lemma_count_other(self, prev: Self, w: int, other: Seq<char>)
        requires
            prev.wf(),
            0 <= w < self.spec_entries().len(),
            self.spec_entries().len() == prev.spec_entries().len() || (w
                == prev.spec_entries().len() && self.spec_entries().len()
                == prev.spec_entries().len() + 1),
            forall|k: int|
                0 <= k < prev.spec_entries().len() && k != w ==> #[trigger] self.spec_entries()[k]
                    == prev.spec_entries()[k],
            w < prev.spec_entries().len() ==> self.spec_entries()[w].0@
                == prev.spec_entries()[w].0@,
            other != self.spec_entries()[w].0@,
        ensures
            self.spec_count(other) == prev.spec_count(other),
    {
        if exists|i: int|
            0 <= i < prev.spec_entries().len() && #[trigger] prev.spec_entries()[i].0@ == other {
            let i = choose|i: int|
                0 <= i < prev.spec_entries().len() && #[trigger] prev.spec_entries()[i].0@
                    == other;
            assert(i != w);
            assert(self.spec_entries()[i].0@ == other);
            let j = choose|j: int|
                0 <= j < self.spec_entries().len() && #[trigger] self.spec_entries()[j].0@
                    == other;
            assert(j != w);
            assert(j < prev.spec_entries().len());
            assert(prev.spec_entries()[j].0@ == other);
            Self::lemma_key_index_unique(prev, i, j);
            assert(self.spec_entries()[j] == prev.spec_entries()[j]);
        } else {
            if exists|j: int|
                0 <= j < self.spec_entries().len() && #[trigger] self.spec_entries()[j].0@
                    == other {
                let j = choose|j: int|
                    0 <= j < self.spec_entries().len() && #[trigger] self.spec_entries()[j].0@
                        == other;
                assert(j != w);
                assert(j < prev.spec_entries().len());
                assert(prev.spec_entries()[j].0@ == other);
                assert(false);
            }
        }
    }

    /// Resets the whole window at its boundary: every counter is
    /// dropped at once, so no count carries over into the next
    /// window.
    pub fn reset(&mut self)
        ensures
            final(self).wf(),
            final(self).spec_limit() == old(self).spec_limit(),
            forall|ip: Seq<char>| final(self).spec_count(ip) == 0,
    {
        self.entries.clear();
    }
}

} // verus!
