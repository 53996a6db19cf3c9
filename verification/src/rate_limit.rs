//! Throttling of sign-in attempts: each key (an email) may fail a limited
//! number of times within a window that starts at its first counted
//! failure.
use std::time::Instant;
use vstd::prelude::*;
use vstd::string::*;

verus! {

#[verifier::external_type_specification]
#[verifier::external_body]
pub struct ExInstant(std::time::Instant);

/// Calls `Instant::now`. Nothing is claimed of the instant.
#[verifier::external_body]
fn instant_now() -> Instant {
    Instant::now()
}

/// Calls `Instant::elapsed` and converts it to whole nanoseconds (the
/// largest `u64` if it does not fit). Nothing is claimed of the reading.
#[verifier::external_body]
fn nanos_since(origin: &Instant) -> u64 {
    u64::try_from(origin.elapsed().as_nanos()).unwrap_or(u64::MAX)
}

/// The failures counted for one key: how many, and when the window began.
#[derive(Debug)]
pub struct AttemptRecord {
    pub key: String,
    pub count: usize,
    pub started_ns: u64,
}

/// Limits the failed sign-ins per key: at most `max_attempts` within
/// `window_ns` nanoseconds of the first counted one.
pub struct LoginRateLimiter {
    records: Vec<AttemptRecord>,
    max_attempts: usize,
    window_ns: u64,
    origin: Instant,
}

/// Time from `start` to `now`, zero when `now` is earlier (as
/// `Instant::duration_since` saturates).
pub open spec fn elapsed(now: u64, start: u64) -> int {
    if now >= start {
        now - start
    } else {
        0
    }
}

/// Whether a key with these counted failures may try again at `now`.
pub open spec fn allowed_in(
    m: Map<Seq<char>, (usize, u64)>,
    max_attempts: usize,
    window_ns: u64,
    key: Seq<char>,
    now: u64,
) -> bool {
    if m.contains_key(key) && elapsed(now, m[key].1) < window_ns {
        m[key].0 < max_attempts
    } else {
        true
    }
}

/// The counted failures after one more failure of `key` at `now`: a
/// window that has run out starts again with one failure.
pub open spec fn after_failure(
    m: Map<Seq<char>, (usize, u64)>,
    window_ns: u64,
    key: Seq<char>,
    now: u64,
) -> Map<Seq<char>, (usize, u64)> {
    if m.contains_key(key) {
        if elapsed(now, m[key].1) >= window_ns {
            m.insert(key, (1usize, now))
        } else {
            m.insert(key, (if m[key].0 < usize::MAX { (m[key].0 + 1) as usize } else { m[key].0 }, m[key].1))
        }
    } else {
        m.insert(key, (1usize, now))
    }
}

impl LoginRateLimiter {
    /// The records hold each key at most once.
    #[verifier::type_invariant]
    closed spec fn well_formed(&self) -> bool {
        forall|i: int, j: int|
            0 <= i < self.records@.len() && 0 <= j < self.records@.len() && i != j
                ==> #[trigger] self.records@[i].key@ != #[trigger] self.records@[j].key@
    }

    /// Whether some record holds `k`.
    closed spec fn holds(&self, k: Seq<char>) -> bool {
        exists|i: int| 0 <= i < self.records@.len() && #[trigger] self.records@[i].key@ == k
    }

    /// The record that holds `k`.
    closed spec fn index_of(&self, k: Seq<char>) -> int {
        choose|i: int| 0 <= i < self.records@.len() && #[trigger] self.records@[i].key@ == k
    }

    /// The counted failures of each key: how many, and when their window
    /// began.
    pub closed spec fn attempts(&self) -> Map<Seq<char>, (usize, u64)> {
        Map::new(
            |k: Seq<char>| self.holds(k),
            |k: Seq<char>|
                {
                    let i = self.index_of(k);
                    (self.records@[i].count, self.records@[i].started_ns)
                },
        )
    }

    /// How many failures are allowed within a window.
    pub closed spec fn spec_max_attempts(&self) -> usize {
        self.max_attempts
    }

    /// The length of a window, in nanoseconds.
    pub closed spec fn spec_window_ns(&self) -> u64 {
        self.window_ns
    }

    /// Whether `key` may try again at `now`.
    pub open spec fn allows(&self, key: Seq<char>, now: u64) -> bool {
        allowed_in(self.attempts(), self.spec_max_attempts(), self.spec_window_ns(), key, now)
    }

    proof fn lemma_index_of(&self, i: int)
        requires
            self.well_formed(),
            0 <= i < self.records@.len(),
        ensures
            self.holds(self.records@[i].key@),
            self.index_of(self.records@[i].key@) == i,
    {
        let k = self.records@[i].key@;
        assert(self.records@[i].key@ == k);
        let j = self.index_of(k);
        assert(0 <= j < self.records@.len() && self.records@[j].key@ == k);
    }

    /// A limiter with nothing counted, allowing `max_attempts` failures
    /// within `window_secs` seconds (a window longer than the largest `u64`
    /// count of nanoseconds, some 584 years, is cut to that).
    pub fn new(max_attempts: usize, window_secs: u64) -> (r: Self)
        ensures
            r.attempts() == Map::<Seq<char>, (usize, u64)>::empty(),
            r.spec_max_attempts() == max_attempts,
            r.spec_window_ns() == (if window_secs <= u64::MAX / 1_000_000_000 {
                window_secs * 1_000_000_000
            } else {
                u64::MAX as int
            }),
    {
        let window_ns: u64 = if window_secs <= u64::MAX / 1_000_000_000 {
            window_secs * 1_000_000_000
        } else {
            u64::MAX
        };
        let r = LoginRateLimiter {
            records: Vec::new(),
            max_attempts,
            window_ns,
            origin: instant_now(),
        };
        assert(r.attempts() =~= Map::<Seq<char>, (usize, u64)>::empty());
        r
    }

    /// The record of `key`, if there is one.
    fn find(&self, key: &String) -> (r: Option<usize>)
        ensures
            match r {
                Some(i) => i < self.records@.len() && self.records@[i as int].key@ == key@,
                None => !self.holds(key@),
            },
    {
        let mut i: usize = 0;
        while i < self.records.len()
            invariant
                i <= self.records@.len(),
                forall|j: int| 0 <= j < i ==> self.records@[j].key@ != key@,
            decreases self.records@.len() - i,
        {
            if self.records[i].key == *key {
                return Some(i);
            }
            i += 1;
        }
        None
    }

    /// Whether `key` may try again at `now` (nanoseconds on the limiter's
    /// clock): refused only while its window runs and it has used up its
    /// attempts.
    pub fn is_allowed_at(&self, key: &str, now: u64) -> (r: bool)
        ensures
            r == self.allows(key@, now),
            !r <==> (self.attempts().contains_key(key@) && elapsed(now, self.attempts()[key@].1)
                < self.spec_window_ns() && self.attempts()[key@].0 >= self.spec_max_attempts()),
    {
        proof {
            use_type_invariant(self);
        }
        let k = String::from_str(key);
        match self.find(&k) {
            Some(i) => {
                proof {
                    self.lemma_index_of(i as int);
                }
                let rec = &self.records[i];
                let since: u64 = now.saturating_sub(rec.started_ns);
                if since < self.window_ns {
                    rec.count < self.max_attempts
                } else {
                    true
                }
            },
            None => true,
        }
    }

    /// Counts a failed attempt of `key` at `now` (nanoseconds on the
    /// limiter's clock).
    pub fn record_attempt_at(&mut self, key: &str, now: u64)
        ensures
            final(self).attempts() == after_failure(old(self).attempts(), old(self).spec_window_ns(), key@, now),
            final(self).spec_max_attempts() == old(self).spec_max_attempts(),
            final(self).spec_window_ns() == old(self).spec_window_ns(),
            final(self).attempts().contains_key(key@),
            !old(self).attempts().contains_key(key@) ==> final(self).attempts()[key@] == (1usize, now),
            old(self).attempts().contains_key(key@) && elapsed(now, old(self).attempts()[key@].1)
                >= old(self).spec_window_ns() ==> final(self).attempts()[key@] == (1usize, now),
            old(self).attempts().contains_key(key@) && elapsed(now, old(self).attempts()[key@].1)
                < old(self).spec_window_ns() ==> final(self).attempts()[key@].1 == old(self).attempts()[key@].1
                && final(self).attempts()[key@].0 as int == (if old(self).attempts()[key@].0 < usize::MAX {
                    old(self).attempts()[key@].0 + 1
                } else {
                    old(self).attempts()[key@].0 as int
                }),
            forall|k: Seq<char>| k != key@ ==> (#[trigger] final(self).attempts().contains_key(k)
                == old(self).attempts().contains_key(k)) && (old(self).attempts().contains_key(k)
                ==> final(self).attempts()[k] == old(self).attempts()[k]),
    {
        proof {
            use_type_invariant(&*self);
        }
        let k = String::from_str(key);
        let ghost old_map = self.attempts();
        match self.find(&k) {
            Some(i) => {
                proof {
                    self.lemma_index_of(i as int);
                }
                let since: u64 = now.saturating_sub(self.records[i].started_ns);
                let (count, started): (usize, u64) = if since >= self.window_ns {
                    (1, now)
                } else {
                    (self.records[i].count.saturating_add(1), self.records[i].started_ns)
                };
                let ghost before = *self;
                let mut records: Vec<AttemptRecord> = Vec::new();
                std::mem::swap(&mut records, &mut self.records);
                records.set(i, AttemptRecord { key: k, count, started_ns: started });
                proof {
                    assert(records@[i as int].key@ == key@);
                    assert forall|a: int, b: int|
                        0 <= a < records@.len() && 0 <= b < records@.len() && a != b
                            implies #[trigger] records@[a].key@ != #[trigger] records@[b].key@ by {
                        assert(before.records@[a].key@ != before.records@[b].key@);
                    }
                }
                self.records = records;
                proof {
                    use_type_invariant(&*self);
                    assert forall|kk: Seq<char>| #![auto] self.holds(kk) == old_map.insert(key@, (count, started)).contains_key(kk) by {
                        if kk == key@ {
                            assert(self.records@[i as int].key@ == kk);
                        } else if before.holds(kk) {
                            let j = before.index_of(kk);
                            assert(self.records@[j].key@ == kk);
                        } else {
                            if self.holds(kk) {
                                let j = self.index_of(kk);
                                assert(before.records@[j].key@ == kk);
                            }
                        }
                    }
                    assert forall|kk: Seq<char>| #![auto] self.holds(kk) implies self.attempts()[kk] == old_map.insert(key@, (count, started))[kk] by {
                        let j = self.index_of(kk);
                        self.lemma_index_of(j);
                        if kk == key@ {
                            self.lemma_index_of(i as int);
                        } else {
                            before.lemma_index_of(j);
                        }
                    }
                    assert(self.attempts() =~= old_map.insert(key@, (count, started)));
                }
            },
            None => {
                let ghost before = *self;
                let mut records: Vec<AttemptRecord> = Vec::new();
                std::mem::swap(&mut records, &mut self.records);
                records.push(AttemptRecord { key: k, count: 1, started_ns: now });
                proof {
                    let n = before.records@.len() as int;
                    assert(records@[n].key@ == key@);
                    assert forall|a: int, b: int|
                        0 <= a < records@.len() && 0 <= b < records@.len() && a != b
                            implies #[trigger] records@[a].key@ != #[trigger] records@[b].key@ by {
                        if a < n && b < n {
                            assert(before.records@[a].key@ != before.records@[b].key@);
                        } else if a < n {
                            assert(before.records@[a].key@ == records@[a].key@);
                        } else if b < n {
                            assert(before.records@[b].key@ == records@[b].key@);
                        }
                    }
                }
                self.records = records;
                proof {
                    use_type_invariant(&*self);
                    let n = before.records@.len() as int;
                    assert forall|kk: Seq<char>| #![auto] self.holds(kk) == old_map.insert(key@, (1usize, now)).contains_key(kk) by {
                        if kk == key@ {
                            assert(self.records@[n].key@ == kk);
                        } else if before.holds(kk) {
                            let j = before.index_of(kk);
                            assert(self.records@[j].key@ == kk);
                        } else {
                            if self.holds(kk) {
                                let j = self.index_of(kk);
                                assert(j < n);
                                assert(before.records@[j].key@ == kk);
                            }
                        }
                    }
                    assert forall|kk: Seq<char>| #![auto] self.holds(kk) implies self.attempts()[kk] == old_map.insert(key@, (1usize, now))[kk] by {
                        let j = self.index_of(kk);
                        self.lemma_index_of(j);
                        if kk == key@ {
                            self.lemma_index_of(n);
                        } else {
                            assert(j < n);
                            before.lemma_index_of(j);
                        }
                    }
                    assert(self.attempts() =~= old_map.insert(key@, (1usize, now)));
                }
            },
        }
    }

    /// Forgets the failures of `key`.
    pub fn clear(&mut self, key: &str)
        ensures
            final(self).attempts() == old(self).attempts().remove(key@),
            final(self).spec_max_attempts() == old(self).spec_max_attempts(),
            final(self).spec_window_ns() == old(self).spec_window_ns(),
    {
        proof {
            use_type_invariant(&*self);
        }
        let k = String::from_str(key);
        let ghost old_map = self.attempts();
        match self.find(&k) {
            Some(i) => {
                let ghost before = *self;
                proof {
                    before.lemma_index_of(i as int);
                }
                let mut records: Vec<AttemptRecord> = Vec::new();
                std::mem::swap(&mut records, &mut self.records);
                let _gone = records.remove(i);
                proof {
                    let ii = i as int;
                    assert forall|a: int| 0 <= a < records@.len() implies #[trigger] records@[a] == before.records@[if a < ii { a } else { a + 1 }] by {}
                    assert forall|a: int, b: int|
                        0 <= a < records@.len() && 0 <= b < records@.len() && a != b
                            implies #[trigger] records@[a].key@ != #[trigger] records@[b].key@ by {
                        let a0 = if a < ii { a } else { a + 1 };
                        let b0 = if b < ii { b } else { b + 1 };
                        assert(records@[a] == before.records@[a0]);
                        assert(records@[b] == before.records@[b0]);
                        assert(before.records@[a0].key@ != before.records@[b0].key@);
                    }
                }
                self.records = records;
                proof {
                    use_type_invariant(&*self);
                    let ii = i as int;
                    assert forall|a: int| 0 <= a < self.records@.len() implies #[trigger] self.records@[a] == before.records@[if a < ii { a } else { a + 1 }] by {}
                    assert forall|kk: Seq<char>| #![auto] self.holds(kk) == old_map.remove(key@).contains_key(kk) by {
                        if self.holds(kk) {
                            let j = self.index_of(kk);
                            let j0 = if j < ii { j } else { j + 1 };
                            assert(self.records@[j] == before.records@[j0]);
                            assert(before.records@[j0].key@ == kk);
                            assert(j0 != ii);
                            assert(before.records@[ii].key@ != before.records@[j0].key@);
                        }
                        if kk != key@ && before.holds(kk) {
                            let j0 = before.index_of(kk);
                            assert(j0 != ii);
                            let j = if j0 < ii { j0 } else { j0 - 1 };
                            assert(self.records@[j] == before.records@[j0]);
                            assert(self.records@[j].key@ == kk);
                        }
                    }
                    assert forall|kk: Seq<char>| #![auto] self.holds(kk) implies self.attempts()[kk] == old_map.remove(key@)[kk] by {
                        let j = self.index_of(kk);
                        self.lemma_index_of(j);
                        let j0 = if j < ii { j } else { j + 1 };
                        assert(self.records@[j] == before.records@[j0]);
                        before.lemma_index_of(j0);
                    }
                    assert(self.attempts() =~= old_map.remove(key@));
                }
            },
            None => {
                assert(self.attempts() =~= old_map.remove(key@));
            },
        }
    }

    /// Whether `key` may try again now.
    pub fn is_allowed(&self, key: &str) -> (r: bool)
        ensures
            exists|now: u64| r == self.allows(key@, now),
    {
        let now = nanos_since(&self.origin);
        self.is_allowed_at(key, now)
    }

    /// Counts a failed attempt of `key` now.
    pub fn record_attempt(&mut self, key: &str)
        ensures
            exists|now: u64|
                final(self).attempts() == after_failure(old(self).attempts(), old(self).spec_window_ns(), key@, now),
            final(self).spec_max_attempts() == old(self).spec_max_attempts(),
            final(self).spec_window_ns() == old(self).spec_window_ns(),
    {
        let now = nanos_since(&self.origin);
        self.record_attempt_at(key, now);
    }
}

/// The counted failures after failures of `key` at each of `times`, in
/// order.
pub open spec fn after_failures(
    m: Map<Seq<char>, (usize, u64)>,
    window_ns: u64,
    key: Seq<char>,
    times: Seq<u64>,
) -> Map<Seq<char>, (usize, u64)>
    decreases times.len(),
{
    if times.len() == 0 {
        m
    } else {
        after_failure(after_failures(m, window_ns, key, times.drop_last()), window_ns, key, times.last())
    }
}

/// A key with nothing counted may always try.
pub proof fn lemma_uncounted_key_allowed(
    m: Map<Seq<char>, (usize, u64)>,
    max_attempts: usize,
    window_ns: u64,
    key: Seq<char>,
    now: u64,
)
    requires
        !m.contains_key(key),
    ensures
        allowed_in(m, max_attempts, window_ns, key, now),
{
}

/// A failure at a time when the key's window has run out opens a new
/// window at that time with exactly one counted failure.
pub proof fn lemma_failure_after_window_restarts(
    m: Map<Seq<char>, (usize, u64)>,
    window_ns: u64,
    key: Seq<char>,
    now: u64,
)
    requires
        m.contains_key(key),
        elapsed(now, m[key].1) >= window_ns,
    ensures
        after_failure(m, window_ns, key, now).contains_key(key),
        after_failure(m, window_ns, key, now)[key] == (1usize, now),
{
}

/// A failure within the key's window adds one to its count (saturating)
/// and keeps the window's start.
pub proof fn lemma_failure_within_window_counts(
    m: Map<Seq<char>, (usize, u64)>,
    window_ns: u64,
    key: Seq<char>,
    now: u64,
)
    requires
        m.contains_key(key),
        elapsed(now, m[key].1) < window_ns,
        m[key].0 < usize::MAX,
    ensures
        after_failure(m, window_ns, key, now).contains_key(key),
        after_failure(m, window_ns, key, now)[key] == ((m[key].0 + 1) as usize, m[key].1),
{
}

/// The first failure of a key opens its window with one counted failure.
pub proof fn lemma_first_failure_opens_window(
    m: Map<Seq<char>, (usize, u64)>,
    window_ns: u64,
    key: Seq<char>,
    now: u64,
)
    requires
        !m.contains_key(key),
    ensures
        after_failure(m, window_ns, key, now)[key] == (1usize, now),
{
}

/// After a failure outside the previous window, a key that may fail more
/// than once may try again anywhere in the new window: the old failures
/// do not carry over.
pub proof fn lemma_new_window_forgets_old_failures(
    m: Map<Seq<char>, (usize, u64)>,
    max_attempts: usize,
    window_ns: u64,
    key: Seq<char>,
    now: u64,
    later: u64,
)
    requires
        m.contains_key(key),
        elapsed(now, m[key].1) >= window_ns,
        max_attempts > 1,
    ensures
        allowed_in(after_failure(m, window_ns, key, now), max_attempts, window_ns, key, later),
{
    lemma_failure_after_window_restarts(m, window_ns, key, now);
}

/// A key is refused exactly while its window runs and it has used up its
/// attempts.
pub proof fn lemma_refused_exactly_when_used_up(
    m: Map<Seq<char>, (usize, u64)>,
    max_attempts: usize,
    window_ns: u64,
    key: Seq<char>,
    now: u64,
)
    ensures
        !allowed_in(m, max_attempts, window_ns, key, now) <==> (m.contains_key(key) && ((now
            < m[key].1 && 0 < window_ns) || (now >= m[key].1 && now - m[key].1 < window_ns))
            && m[key].0 >= max_attempts),
{
}

/// Once cleared (a successful sign-in clears it), a key may try again at
/// any time.
pub proof fn lemma_cleared_key_allowed(
    m: Map<Seq<char>, (usize, u64)>,
    max_attempts: usize,
    window_ns: u64,
    key: Seq<char>,
    now: u64,
)
    ensures
        allowed_in(m.remove(key), max_attempts, window_ns, key, now),
{
}

/// When the window of a key has run out, it may try again.
pub proof fn lemma_expired_window_allows(
    m: Map<Seq<char>, (usize, u64)>,
    max_attempts: usize,
    window_ns: u64,
    key: Seq<char>,
    now: u64,
)
    requires
        m.contains_key(key),
        elapsed(now, m[key].1) >= window_ns,
    ensures
        allowed_in(m, max_attempts, window_ns, key, now),
{
}

/// A failure of one key changes nothing for another.
pub proof fn lemma_other_keys_unaffected(
    m: Map<Seq<char>, (usize, u64)>,
    max_attempts: usize,
    window_ns: u64,
    key: Seq<char>,
    other: Seq<char>,
    at: u64,
    now: u64,
)
    requires
        key != other,
    ensures
        allowed_in(after_failure(m, window_ns, key, at), max_attempts, window_ns, other, now)
            == allowed_in(m, max_attempts, window_ns, other, now),
{
    assert(after_failure(m, window_ns, key, at).contains_key(other) == m.contains_key(other));
    if m.contains_key(other) {
        assert(after_failure(m, window_ns, key, at)[other] == m[other]);
    }
}

/// Failures of a key with nothing counted, all within the window opened by
/// the first of them, are all counted from that first one.
pub proof fn lemma_failures_in_window(
    m: Map<Seq<char>, (usize, u64)>,
    window_ns: u64,
    key: Seq<char>,
    times: Seq<u64>,
)
    requires
        !m.contains_key(key),
        times.len() >= 1,
        times.len() <= usize::MAX,
        forall|i: int| 0 <= i < times.len() ==> elapsed(#[trigger] times[i], times[0]) < window_ns,
    ensures
        after_failures(m, window_ns, key, times).contains_key(key),
        after_failures(m, window_ns, key, times)[key] == (times.len() as usize, times[0]),
    decreases times.len(),
{
    if times.len() == 1 {
        assert(times.drop_last().len() == 0);
        assert(after_failures(m, window_ns, key, times.drop_last()) == m);
        assert(times.last() == times[0]);
    } else {
        let prefix = times.drop_last();
        assert forall|i: int| 0 <= i < prefix.len() implies elapsed(#[trigger] prefix[i], prefix[0]) < window_ns by {
            assert(prefix[i] == times[i]);
        }
        lemma_failures_in_window(m, window_ns, key, prefix);
        assert(prefix[0] == times[0]);
        assert(elapsed(times.last(), times[0]) < window_ns);
        let before = after_failures(m, window_ns, key, prefix);
        assert(before[key].0 == prefix.len());
        assert(prefix.len() < usize::MAX);
    }
}

/// Within one window, a key may fail exactly `max_attempts` times: after
/// `n` failures of a key that had nothing counted, all within the window
/// of the first, it may try again at a time still in that window exactly
/// when `n` is below `max_attempts`.
pub proof fn lemma_attempts_per_window(
    m: Map<Seq<char>, (usize, u64)>,
    max_attempts: usize,
    window_ns: u64,
    key: Seq<char>,
    times: Seq<u64>,
    now: u64,
)
    requires
        !m.contains_key(key),
        times.len() >= 1,
        times.len() <= usize::MAX,
        forall|i: int| 0 <= i < times.len() ==> elapsed(#[trigger] times[i], times[0]) < window_ns,
        elapsed(now, times[0]) < window_ns,
    ensures
        allowed_in(after_failures(m, window_ns, key, times), max_attempts, window_ns, key, now)
            <==> times.len() < max_attempts,
{
    lemma_failures_in_window(m, window_ns, key, times);
}

} // verus!
