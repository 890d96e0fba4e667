use vstd::prelude::*;

verus! {

/// Sum of a sequence of latencies.
pub open spec fn total(times: Seq<u64>) -> int
    decreases times.len(),
{
    if times.len() == 0 {
        0
    } else {
        total(times.drop_last()) + times.last()
    }
}

/// Mean of a sequence of latencies, rounded down; zero for no samples.
pub open spec fn mean(times: Seq<u64>) -> int {
    if times.len() == 0 {
        0
    } else {
        total(times) / (times.len() as int)
    }
}

proof fn lemma_total_bounds(times: Seq<u64>)
    ensures
        0 <= total(times) <= times.len() * (u64::MAX as int),
    decreases times.len(),
{
    if times.len() > 0 {
        lemma_total_bounds(times.drop_last());
    }
}

proof fn lemma_mean_fits(times: Seq<u64>)
    ensures
        0 <= mean(times) <= u64::MAX,
{
    lemma_total_bounds(times);
    if times.len() > 0 {
        let n = times.len() as int;
        assert(total(times) / n <= u64::MAX) by (nonlinear_arith)
            requires
                0 <= total(times) <= n * (u64::MAX as int),
                n > 0,
        ;
        assert(total(times) / n >= 0) by (nonlinear_arith)
            requires
                0 <= total(times),
                n > 0,
        ;
    }
}

/// What the tracker knows of one expected character.
pub struct KeyStat {
    pub key: char,
    pub times: Seq<u64>,
    pub errors: nat,
}

/// Latency samples (nanoseconds) and error count for one expected character.
pub struct KeyMetrics {
    pub times: Vec<u64>,
    pub errors: usize,
}

impl KeyMetrics {
    pub fn new() -> (r: Self)
        ensures
            r.times@ == Seq::<u64>::empty(),
            r.errors == 0,
    {
        KeyMetrics { times: Vec::new(), errors: 0 }
    }

    /// Mean latency of the samples, or `None` when there are none.
    pub fn average_time(&self) -> (r: Option<u64>)
        ensures
            r is None <==> self.times@.len() == 0,
            r matches Some(a) ==> a == mean(self.times@),
    {
        let n = self.times.len();
        if n == 0 {
            return None;
        }
        let mut sum: u128 = 0;
        let mut i: usize = 0;
        while i < n
            invariant
                n == self.times@.len(),
                i <= n,
                sum == total(self.times@.take(i as int)),
                sum <= i * (u64::MAX as int),
            decreases n - i,
        {
            assert(self.times@.take(i as int + 1).drop_last() == self.times@.take(i as int));
            sum = sum + self.times[i] as u128;
            i = i + 1;
        }
        assert(self.times@.take(n as int) == self.times@);
        proof {
            lemma_mean_fits(self.times@);
        }
        Some((sum / (n as u128)) as u64)
    }
}

/// Per-character metrics, keyed by the character that was expected, in the
/// order in which the characters were first seen.
pub struct KeyMetricsTracker {
    pub entries: Vec<(char, KeyMetrics)>,
}

pub open spec fn stat_of(e: (char, KeyMetrics)) -> KeyStat {
    KeyStat { key: e.0, times: e.1.times@, errors: e.1.errors as nat }
}

/// No character has two entries.
pub open spec fn keys_unique(s: Seq<KeyStat>) -> bool {
    forall|i: int, j: int| 0 <= i < s.len() && 0 <= j < s.len() && i != j ==> s[i].key != s[j].key
}

pub open spec fn has_key(s: Seq<KeyStat>, k: char) -> bool {
    exists|i: int| 0 <= i < s.len() && s[i].key == k
}

/// Position of the entry for `k`; meaningful only where `has_key(s, k)`.
pub open spec fn key_index(s: Seq<KeyStat>, k: char) -> int {
    choose|i: int| 0 <= i < s.len() && s[i].key == k
}

/// The metrics after a latency sample for `k`.
pub open spec fn with_attempt(s: Seq<KeyStat>, k: char, latency: u64) -> Seq<KeyStat> {
    if has_key(s, k) {
        let i = key_index(s, k);
        s.update(i, KeyStat { key: k, times: s[i].times.push(latency), errors: s[i].errors })
    } else {
        s.push(KeyStat { key: k, times: seq![latency], errors: 0 })
    }
}

/// The metrics after an error against `k`.
pub open spec fn with_error(s: Seq<KeyStat>, k: char) -> Seq<KeyStat> {
    if has_key(s, k) {
        let i = key_index(s, k);
        s.update(i, KeyStat { key: k, times: s[i].times, errors: s[i].errors + 1 })
    } else {
        s.push(KeyStat { key: k, times: Seq::empty(), errors: 1 })
    }
}

pub proof fn lemma_key_index(s: Seq<KeyStat>, i: int)
    requires
        keys_unique(s),
        0 <= i < s.len(),
    ensures
        has_key(s, s[i].key),
        key_index(s, s[i].key) == i,
{
    assert(has_key(s, s[i].key));
}

impl View for KeyMetricsTracker {
    type V = Seq<KeyStat>;

    open spec fn view(&self) -> Seq<KeyStat> {
        self.entries@.map_values(|e: (char, KeyMetrics)| stat_of(e))
    }
}

impl KeyMetricsTracker {
    pub open spec fn wf(&self) -> bool {
        keys_unique(self@)
    }

    pub fn new() -> (r: Self)
        ensures
            r@ == Seq::<KeyStat>::empty(),
            r.wf(),
    {
        KeyMetricsTracker { entries: Vec::new() }
    }

    /// Position of the entry for `k`, if any.
    pub fn find(&self, k: char) -> (r: Option<usize>)
        ensures
            r is None <==> !has_key(self@, k),
            r matches Some(i) ==> i < self@.len() && self@[i as int].key == k,
    {
        let mut i: usize = 0;
        while i < self.entries.len()
            invariant
                i <= self@.len(),
                self@.len() == self.entries@.len(),
                forall|j: int| 0 <= j < i ==> self@[j].key != k,
            decreases self.entries.len() - i,
        {
            if self.entries[i].0 == k {
                assert(self@[i as int].key == k);
                return Some(i);
            }
            i = i + 1;
        }
        None
    }

    /// Records one latency sample for the expected character `k`.
    pub fn record_attempt(&mut self, k: char, latency: u64)
        requires
            old(self).wf(),
        ensures
            final(self).wf(),
            final(self)@ == with_attempt(old(self)@, k, latency),
    {
        match self.find(k) {
            Some(i) => {
                proof {
                    lemma_key_index(self@, i as int);
                }
                self.entries[i].1.times.push(latency);
                assert(self@ =~= with_attempt(old(self)@, k, latency));
            },
            None => {
                let mut m = KeyMetrics::new();
                m.times.push(latency);
                self.entries.push((k, m));
                assert(self@ =~= with_attempt(old(self)@, k, latency));
            },
        }
    }

    /// Records one error against the expected character `k`.
    pub fn record_error(&mut self, k: char)
        requires
            old(self).wf(),
            has_key(old(self)@, k) ==> old(self)@[key_index(old(self)@, k)].errors < usize::MAX,
        ensures
            final(self).wf(),
            final(self)@ == with_error(old(self)@, k),
    {
        match self.find(k) {
            Some(i) => {
                proof {
                    lemma_key_index(self@, i as int);
                }
                self.entries[i].1.errors = self.entries[i].1.errors + 1;
                assert(self@ =~= with_error(old(self)@, k));
            },
            None => {
                let mut m = KeyMetrics::new();
                m.errors = 1;
                self.entries.push((k, m));
                assert(self@ =~= with_error(old(self)@, k));
            },
        }
    }
}


/// Every character's error count is at most its number of samples.
pub open spec fn errors_within_samples(s: Seq<KeyStat>) -> bool {
    forall|i: int| 0 <= i < s.len() ==> #[trigger] s[i].errors <= s[i].times.len()
}

/// A latency sample followed by an error against the same character keeps
/// the keys unique and every error count within its samples.
pub proof fn lemma_attempt_then_error(s: Seq<KeyStat>, k: char, latency: u64)
    requires
        keys_unique(s),
        errors_within_samples(s),
    ensures
        keys_unique(with_attempt(s, k, latency)),
        errors_within_samples(with_attempt(s, k, latency)),
        has_key(with_attempt(s, k, latency), k),
        keys_unique(with_error(with_attempt(s, k, latency), k)),
        errors_within_samples(with_error(with_attempt(s, k, latency), k)),
{
    let a = with_attempt(s, k, latency);
    if has_key(s, k) {
        let i = key_index(s, k);
        assert(a[i].key == k);
    } else {
        assert(a[s.len() as int].key == k);
    }
    assert(keys_unique(a));
    let j = key_index(a, k);
    lemma_key_index(a, j);
    let e = with_error(a, k);
    assert(e =~= a.update(j, KeyStat { key: k, times: a[j].times, errors: a[j].errors + 1 }));
    if has_key(s, k) {
        let i = key_index(s, k);
        assert(j == i);
    } else {
        assert(j == s.len());
    }
    assert(keys_unique(e));
}

} // verus!
