//! Sliding-window deduplication of log lines.

use std::collections::{HashSet, VecDeque};
use std::hash::{Hash, Hasher};
use vstd::prelude::*;

verus! {

broadcast use vstd::std_specs::hash::group_hash_axioms;

/// The hash `std::collections::hash_map::DefaultHasher` gives a line.
pub uninterp spec fn line_hash(line: Seq<char>) -> u64;

/// Trusted: hashes `line` with a freshly created `DefaultHasher` (whose keys
/// are fixed, so equal lines give equal hashes); the result is named `line_hash`.
#[verifier::external_body]
fn hash_line(line: &str) -> (h: u64)
    ensures
        h == line_hash(line@),
{
    let mut hasher = std::collections::hash_map::DefaultHasher::new();
    line.hash(&mut hasher);
    hasher.finish()
}

/// The window after taking in hash `h`: appended, and the oldest entry
/// evicted when the window overflows.
pub open spec fn window_after(window: Seq<u64>, h: u64, window_size: usize) -> Seq<u64> {
    let w = window.push(h);
    if w.len() > window_size {
        w.drop_first()
    } else {
        w
    }
}

/// The last `n` items of `s` (all of them when there are fewer).
pub open spec fn last_n<A>(s: Seq<A>, n: int) -> Seq<A> {
    if s.len() <= n {
        s
    } else {
        s.subrange(s.len() - n, s.len() as int)
    }
}

/// The hashes of the last `n` of the lines `accepted`, oldest first.
pub open spec fn recent_hashes(accepted: Seq<Seq<char>>, n: int) -> Seq<u64> {
    last_n(accepted, n).map_values(|l: Seq<char>| line_hash(l))
}

/// Taking in one more accepted line moves the window as `window_after` does.
proof fn lemma_recent_push(accepted: Seq<Seq<char>>, line: Seq<char>, n: usize)
    ensures
        recent_hashes(accepted.push(line), n as int) == window_after(
            recent_hashes(accepted, n as int),
            line_hash(line),
            n,
        ),
{
    let a2 = accepted.push(line);
    let w = recent_hashes(accepted, n as int);
    if accepted.len() < n {
        assert(last_n(a2, n as int) == a2);
        assert(recent_hashes(a2, n as int) =~= w.push(line_hash(line)));
    } else {
        let tail = a2.subrange(a2.len() - n, a2.len() as int);
        assert(last_n(a2, n as int) == tail);
        assert(recent_hashes(a2, n as int) =~= w.push(line_hash(line)).drop_first());
    }
}

/// No two different lines among `accepted` and `line` share a hash.
pub open spec fn hashes_distinct(accepted: Seq<Seq<char>>, line: Seq<char>) -> bool {
    forall|a: Seq<char>, b: Seq<char>|
        (accepted.contains(a) || a == line) && (accepted.contains(b) || b == line) && a != b
            ==> #[trigger] line_hash(a) != #[trigger] line_hash(b)
}

/// When no two of the accepted lines and `line` share a hash, the window
/// tells exactly whether `line` is among the last `n` accepted lines: a line
/// is reported unique exactly when it is not among them.
pub proof fn lemma_window_tells_recent(accepted: Seq<Seq<char>>, line: Seq<char>, n: usize)
    requires
        hashes_distinct(accepted, line),
    ensures
        recent_hashes(accepted, n as int).contains(line_hash(line)) == last_n(accepted, n as int).contains(
            line,
        ),
{
    let r = last_n(accepted, n as int);
    assert forall|k: int| 0 <= k < r.len() implies accepted.contains(#[trigger] r[k]) by {
        if accepted.len() > n {
            assert(r[k] == accepted[accepted.len() - n + k]);
        }
    }
    if recent_hashes(accepted, n as int).contains(line_hash(line)) {
        let k = choose|k: int|
            0 <= k < recent_hashes(accepted, n as int).len() && recent_hashes(accepted, n as int)[k]
                == line_hash(line);
        assert(accepted.contains(r[k]));
        assert(line_hash(r[k]) == line_hash(line));
        assert(r[k] == line);
    }
    if r.contains(line) {
        let k = choose|k: int| 0 <= k < r.len() && r[k] == line;
        assert(recent_hashes(accepted, n as int)[k] == line_hash(line));
    }
}

/// Deduplicates log lines within a sliding window of recent entries.
pub struct Deduplicator {
    seen: HashSet<u64>,
    window_size: usize,
    order: VecDeque<u64>,
    duplicates_removed: u64,
    accepted: Ghost<Seq<Seq<char>>>,
}

impl Deduplicator {
    /// The hashes in the window, oldest first.
    pub closed spec fn window(&self) -> Seq<u64> {
        self.order@
    }

    /// The configured window size.
    pub closed spec fn size(&self) -> usize {
        self.window_size
    }

    /// The number of duplicates rejected so far.
    pub closed spec fn removed(&self) -> u64 {
        self.duplicates_removed
    }

    /// The lines reported unique since the deduplicator was made or reset,
    /// in order.
    pub closed spec fn accepted(&self) -> Seq<Seq<char>> {
        self.accepted@
    }

    /// Well-formedness: the set holds exactly the window's hashes, each once,
    /// and the window holds the hashes of the last accepted lines, as many as
    /// its size allows.
    pub closed spec fn wf(&self) -> bool {
        &&& self.seen@ == self.order@.to_set()
        &&& self.order@.no_duplicates()
        &&& self.order@.len() <= self.window_size
        &&& self.order@ == recent_hashes(self.accepted@, self.window_size as int)
    }

    pub fn new(window_size: usize) -> (d: Self)
        ensures
            d.wf(),
            d.window() == Seq::<u64>::empty(),
            d.accepted() == Seq::<Seq<char>>::empty(),
            d.size() == window_size,
            d.removed() == 0,
    {
        let d = Deduplicator {
            seen: HashSet::new(),
            window_size,
            order: VecDeque::new(),
            duplicates_removed: 0,
            accepted: Ghost(Seq::empty()),
        };
        assert(d.order@.to_set() =~= Set::<u64>::empty());
        assert(recent_hashes(Seq::empty(), window_size as int) =~= Seq::<u64>::empty());
        d
    }

    /// Returns `true` if the line is unique (not a duplicate).
    pub fn is_unique(&mut self, line: &str) -> (unique: bool)
        requires
            old(self).wf(),
            old(self).removed() < u64::MAX,
        ensures
            final(self).wf(),
            final(self).size() == old(self).size(),
            unique == !old(self).window().contains(line_hash(line@)),
            unique == !recent_hashes(old(self).accepted(), old(self).size() as int).contains(
                line_hash(line@),
            ),
            hashes_distinct(old(self).accepted(), line@) ==> unique == !last_n(
                old(self).accepted(),
                old(self).size() as int,
            ).contains(line@),
            final(self).window() == recent_hashes(final(self).accepted(), final(self).size() as int),
            unique ==> final(self).accepted() == old(self).accepted().push(line@),
            !unique ==> final(self).accepted() == old(self).accepted(),
            unique ==> final(self).window() == window_after(
                old(self).window(),
                line_hash(line@),
                old(self).size(),
            ) && final(self).removed() == old(self).removed(),
            !unique ==> final(self).window() == old(self).window() && final(self).removed()
                == old(self).removed() + 1,
    {
        let hash = hash_line(line);
        proof {
            if hashes_distinct(self.accepted@, line@) {
                lemma_window_tells_recent(self.accepted@, line@, self.window_size);
            }
        }
        if self.seen.contains(&hash) {
            self.duplicates_removed += 1;
            return false;
        }
        let ghost before = self.order@;
        proof {
            lemma_recent_push(self.accepted@, line@, self.window_size);
            self.accepted@ = self.accepted@.push(line@);
        }
        self.seen.insert(hash);
        self.order.push_back(hash);
        assert(self.order@ == before.push(hash));
        assert(self.order@.to_set() =~= before.to_set().insert(hash)) by {
            assert forall|x: u64| self.order@.contains(x) implies before.contains(x) || x == hash by {
                let i = choose|i: int| 0 <= i < self.order@.len() && self.order@[i] == x;
                if i < before.len() {
                    assert(before[i] == x);
                }
            }
            assert forall|x: u64| before.contains(x) implies self.order@.contains(x) by {
                let i = choose|i: int| 0 <= i < before.len() && before[i] == x;
                assert(self.order@[i] == x);
            }
            assert(self.order@[before.len() as int] == hash);
        }
        if self.order.len() > self.window_size {
            if let Some(evicted) = self.order.pop_front() {
                let ghost pushed = before.push(hash);
                assert(self.order@ =~= pushed.drop_first());
                self.seen.remove(&evicted);
                assert(self.order@.to_set() =~= pushed.to_set().remove(evicted)) by {
                    assert forall|x: u64| self.order@.contains(x) implies x != evicted by {
                        let i = choose|i: int| 0 <= i < self.order@.len() && self.order@[i] == x;
                        assert(pushed[i + 1] == x);
                    }
                    assert forall|x: u64| pushed.contains(x) && x != evicted implies self.order@.contains(x) by {
                        let i = choose|i: int| 0 <= i < pushed.len() && pushed[i] == x;
                        assert(self.order@[i - 1] == x);
                    }
                }
            }
        }
        true
    }

    pub fn duplicates_removed(&self) -> (n: u64)
        ensures
            n == self.removed(),
    {
        self.duplicates_removed
    }

    pub fn reset(&mut self)
        requires
            old(self).wf(),
        ensures
            final(self).wf(),
            final(self).window() == Seq::<u64>::empty(),
            final(self).accepted() == Seq::<Seq<char>>::empty(),
            final(self).size() == old(self).size(),
            final(self).removed() == 0,
    {
        self.seen.clear();
        self.order.clear();
        self.duplicates_removed = 0;
        self.accepted = Ghost(Seq::empty());
        assert(self.order@.to_set() =~= Set::<u64>::empty());
        assert(recent_hashes(Seq::empty(), self.window_size as int) =~= Seq::<u64>::empty());
    }
}

impl Default for Deduplicator {
    fn default() -> (d: Self)
        ensures
            d.wf(),
            d.window() == Seq::<u64>::empty(),
            d.accepted() == Seq::<Seq<char>>::empty(),
            d.size() == 1000,
            d.removed() == 0,
    {
        Self::new(1000)
    }
}

} // verus!
