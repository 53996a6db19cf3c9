//! The latest request timings, newest first, that the pages show in their
//! footer.
use std::collections::VecDeque;
use vstd::prelude::*;

verus! {

/// How many timings are kept.
pub const MAX_ENTRIES: usize = 8;

/// How many timings a page footer shows.
pub const RECENT_ENTRIES: usize = 8;

/// One request: its route and how long it took, in whole milliseconds.
#[derive(Debug)]
pub struct RequestMetric {
    pub path: String,
    pub elapsed_ms: u64,
}

impl Clone for RequestMetric {
    fn clone(&self) -> (r: Self)
        ensures
            r == *self,
    {
        RequestMetric { path: self.path.clone(), elapsed_ms: self.elapsed_ms }
    }
}

/// The timings of the latest requests, newest first.
pub struct RequestMetrics {
    entries: VecDeque<RequestMetric>,
}

/// The first `n` of `s`, or all of `s` when it is shorter.
pub open spec fn first_n<T>(s: Seq<T>, n: int) -> Seq<T> {
    if s.len() <= n {
        s
    } else {
        s.take(n)
    }
}

impl RequestMetrics {
    /// The kept timings, newest first.
    pub closed spec fn entries(&self) -> Seq<RequestMetric> {
        self.entries@
    }

    /// No timings yet.
    pub fn new() -> (r: Self)
        ensures
            r.entries() == Seq::<RequestMetric>::empty(),
    {
        RequestMetrics { entries: VecDeque::new() }
    }

    /// Puts the timing of a request in front; only the newest
    /// `MAX_ENTRIES` stay.
    pub fn record(&mut self, path: String, elapsed_ms: u64)
        ensures
            final(self).entries() == first_n(
                seq![RequestMetric { path, elapsed_ms }] + old(self).entries(),
                MAX_ENTRIES as int,
            ),
    {
        let ghost added = seq![RequestMetric { path, elapsed_ms }] + self.entries@;
        self.entries.push_front(RequestMetric { path, elapsed_ms });
        assert(self.entries@ == added);
        while self.entries.len() > MAX_ENTRIES
            invariant
                self.entries@.len() <= added.len(),
                MAX_ENTRIES as int <= self.entries@.len() || self.entries@.len() == added.len(),
                self.entries@ == added.take(self.entries@.len() as int),
            decreases self.entries@.len(),
        {
            let _ = self.entries.pop_back();
        }
        assert(added.take(added.len() as int) == added);
    }

    /// The newest `RECENT_ENTRIES` timings, newest first.
    pub fn recent(&self) -> (r: Vec<RequestMetric>)
        ensures
            r@ == first_n(self.entries(), RECENT_ENTRIES as int),
    {
        let n: usize = if self.entries.len() < RECENT_ENTRIES {
            self.entries.len()
        } else {
            RECENT_ENTRIES
        };
        let r = self.first(n);
        assert(self.entries@.take(self.entries@.len() as int) == self.entries@);
        r
    }

    /// All kept timings, newest first.
    pub fn all(&self) -> (r: Vec<RequestMetric>)
        ensures
            r@ == self.entries(),
    {
        let r = self.first(self.entries.len());
        assert(self.entries@.take(self.entries@.len() as int) == self.entries@);
        r
    }

    fn first(&self, n: usize) -> (r: Vec<RequestMetric>)
        requires
            n <= self.entries@.len(),
        ensures
            r@ == self.entries@.take(n as int),
    {
        let mut out: Vec<RequestMetric> = Vec::new();
        let mut i: usize = 0;
        while i < n
            invariant
                i <= n <= self.entries@.len(),
                out@ == self.entries@.take(i as int),
            decreases n - i,
        {
            out.push(self.entries[i].clone());
            i += 1;
            assert(self.entries@.take(i as int) == self.entries@.take(i - 1).push(self.entries@[i - 1]));
        }
        out
    }
}

/// At most `MAX_ENTRIES` timings are kept, the one recorded last in front.
pub proof fn lemma_record_keeps_newest_first(before: Seq<RequestMetric>, m: RequestMetric)
    ensures
        first_n(seq![m] + before, MAX_ENTRIES as int).len() <= MAX_ENTRIES,
        first_n(seq![m] + before, MAX_ENTRIES as int)[0] == m,
        forall|i: int|
            0 < i < first_n(seq![m] + before, MAX_ENTRIES as int).len() ==> #[trigger] first_n(
                seq![m] + before,
                MAX_ENTRIES as int,
            )[i] == before[i - 1],
{
}

} // verus!
