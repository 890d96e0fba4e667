use vstd::prelude::*;
use crate::metrics::{has_key, key_index, keys_unique, mean, KeyMetricsTracker, KeyStat};
use crate::ranking::correct_of;

verus! {

/// Speed classes of a character, relative to the other characters.
#[derive(Clone, Copy, Debug, PartialEq, Eq, Structural)]
pub enum SpeedBand {
    Fastest,
    Fast,
    Medium,
    Slow,
    Slowest,
    NoData,
    Unused,
}

/// Accuracy classes of a character.
#[derive(Clone, Copy, Debug, PartialEq, Eq, Structural)]
pub enum AccuracyBand {
    Highest,
    High,
    Medium,
    Low,
    Lowest,
    NoData,
    Unused,
}

/// Upper bounds, in percent of the latency range, of the speed bands, fastest
/// first; anything from the last bound on is slowest.
pub const FASTEST_BELOW: u64 = 16;
pub const FAST_BELOW: u64 = 33;
pub const MEDIUM_BELOW: u64 = 67;
pub const SLOW_BELOW: u64 = 83;

/// Lower bounds, in percent of error-free attempts, of the accuracy bands,
/// highest first; anything below the last bound is lowest.
pub const HIGHEST_FROM: u64 = 95;
pub const HIGH_FROM: u64 = 85;
pub const MEDIUM_FROM: u64 = 70;
pub const LOW_FROM: u64 = 50;

/// Number of characters with at least one sample.
pub open spec fn timed_count(s: Seq<KeyStat>) -> int
    decreases s.len(),
{
    if s.len() == 0 {
        0
    } else {
        timed_count(s.drop_last()) + if s.last().times.len() > 0 {
            1int
        } else {
            0int
        }
    }
}

/// Least mean latency over the characters with samples.
pub open spec fn min_mean(s: Seq<KeyStat>) -> int
    decreases s.len(),
{
    if s.len() == 0 {
        0
    } else if s.last().times.len() == 0 {
        min_mean(s.drop_last())
    } else if timed_count(s.drop_last()) == 0 || mean(s.last().times) < min_mean(s.drop_last()) {
        mean(s.last().times)
    } else {
        min_mean(s.drop_last())
    }
}

/// Greatest mean latency over the characters with samples.
pub open spec fn max_mean(s: Seq<KeyStat>) -> int
    decreases s.len(),
{
    if s.len() == 0 {
        0
    } else if s.last().times.len() == 0 {
        max_mean(s.drop_last())
    } else if timed_count(s.drop_last()) == 0 || mean(s.last().times) > max_mean(s.drop_last()) {
        mean(s.last().times)
    } else {
        max_mean(s.drop_last())
    }
}

/// The band of a relative position `offset / range` (with `range > 0`).
pub open spec fn speed_band_for(offset: int, range: int) -> SpeedBand {
    if offset * 100 < FASTEST_BELOW * range {
        SpeedBand::Fastest
    } else if offset * 100 < FAST_BELOW * range {
        SpeedBand::Fast
    } else if offset * 100 < MEDIUM_BELOW * range {
        SpeedBand::Medium
    } else if offset * 100 < SLOW_BELOW * range {
        SpeedBand::Slow
    } else {
        SpeedBand::Slowest
    }
}

/// Speed band of `k`: where its mean latency lies between the least and the
/// greatest mean over all characters with samples.
pub open spec fn speed_band_of(s: Seq<KeyStat>, k: char) -> SpeedBand {
    if !has_key(s, k) {
        SpeedBand::Unused
    } else if s[key_index(s, k)].times.len() == 0 || timed_count(s) < 2 || max_mean(s) == min_mean(s) {
        SpeedBand::NoData
    } else {
        speed_band_for(mean(s[key_index(s, k)].times) - min_mean(s), max_mean(s) - min_mean(s))
    }
}

/// The band of `correct` error-free attempts out of `attempts > 0`.
pub open spec fn accuracy_band_for(correct: int, attempts: int) -> AccuracyBand {
    if correct * 100 >= HIGHEST_FROM * attempts {
        AccuracyBand::Highest
    } else if correct * 100 >= HIGH_FROM * attempts {
        AccuracyBand::High
    } else if correct * 100 >= MEDIUM_FROM * attempts {
        AccuracyBand::Medium
    } else if correct * 100 >= LOW_FROM * attempts {
        AccuracyBand::Low
    } else {
        AccuracyBand::Lowest
    }
}

/// Accuracy band of `k`.
pub open spec fn accuracy_band_of(s: Seq<KeyStat>, k: char) -> AccuracyBand {
    if !has_key(s, k) {
        AccuracyBand::Unused
    } else if s[key_index(s, k)].times.len() == 0 {
        AccuracyBand::NoData
    } else {
        accuracy_band_for(correct_of(s[key_index(s, k)]), s[key_index(s, k)].times.len() as int)
    }
}

proof fn lemma_timed_count_nonneg(s: Seq<KeyStat>)
    ensures
        0 <= timed_count(s) <= s.len(),
    decreases s.len(),
{
    if s.len() > 0 {
        lemma_timed_count_nonneg(s.drop_last());
    }
}

proof fn lemma_mean_range(s: Seq<KeyStat>, i: int)
    requires
        0 <= i < s.len(),
        s[i].times.len() > 0,
    ensures
        timed_count(s) > 0,
        min_mean(s) <= mean(s[i].times) <= max_mean(s),
    decreases s.len(),
{
    lemma_timed_count_nonneg(s.drop_last());
    if i < s.len() - 1 {
        lemma_mean_range(s.drop_last(), i);
    }
}

/// When fewer than two characters have samples, no character that was
/// attempted gets a speed band other than "no data".
pub proof fn lemma_speed_band_needs_two(s: Seq<KeyStat>, k: char)
    requires
        has_key(s, k),
        timed_count(s) < 2,
    ensures
        speed_band_of(s, k) == SpeedBand::NoData,
{
}

impl KeyMetricsTracker {
    /// Speed band of the character `k`.
    pub fn speed_band(&self, k: char) -> (r: SpeedBand)
        requires
            self.wf(),
        ensures
            r == speed_band_of(self@, k),
    {
        let pos = match self.find(k) {
            None => return SpeedBand::Unused,
            Some(i) => i,
        };
        proof {
            crate::metrics::lemma_key_index(self@, pos as int);
        }
        let own = match self.entries[pos].1.average_time() {
            None => return SpeedBand::NoData,
            Some(m) => m,
        };
        let n = self.entries.len();
        let mut count: usize = 0;
        let mut lo: u64 = 0;
        let mut hi: u64 = 0;
        let mut i: usize = 0;
        while i < n
            invariant
                n == self@.len(),
                i <= n,
                count == timed_count(self@.take(i as int)),
                count <= i,
                lo == min_mean(self@.take(i as int)),
                hi == max_mean(self@.take(i as int)),
            decreases n - i,
        {
            let ghost t = self@.take(i as int + 1);
            assert(t.drop_last() == self@.take(i as int));
            assert(t.last() == self@[i as int]);
            match self.entries[i].1.average_time() {
                None => {},
                Some(m) => {
                    if count == 0 || m < lo {
                        lo = m;
                    }
                    if count == 0 || m > hi {
                        hi = m;
                    }
                    count = count + 1;
                },
            }
            i = i + 1;
        }
        assert(self@.take(n as int) == self@);
        if count < 2 || hi == lo {
            return SpeedBand::NoData;
        }
        proof {
            lemma_mean_range(self@, pos as int);
        }
        let offset = (own - lo) as u128;
        let range = (hi - lo) as u128;
        if offset * 100 < (FASTEST_BELOW as u128) * range {
            SpeedBand::Fastest
        } else if offset * 100 < (FAST_BELOW as u128) * range {
            SpeedBand::Fast
        } else if offset * 100 < (MEDIUM_BELOW as u128) * range {
            SpeedBand::Medium
        } else if offset * 100 < (SLOW_BELOW as u128) * range {
            SpeedBand::Slow
        } else {
            SpeedBand::Slowest
        }
    }

    /// Accuracy band of the character `k`.
    pub fn accuracy_band(&self, k: char) -> (r: AccuracyBand)
        requires
            self.wf(),
        ensures
            r == accuracy_band_of(self@, k),
    {
        let pos = match self.find(k) {
            None => return AccuracyBand::Unused,
            Some(i) => i,
        };
        proof {
            crate::metrics::lemma_key_index(self@, pos as int);
        }
        let m = &self.entries[pos].1;
        let n = m.times.len();
        if n == 0 {
            return AccuracyBand::NoData;
        }
        let c: usize = if m.errors <= n {
            n - m.errors
        } else {
            0
        };
        let c100 = (c as u128) * 100;
        let n128 = n as u128;
        if c100 >= (HIGHEST_FROM as u128) * n128 {
            AccuracyBand::Highest
        } else if c100 >= (HIGH_FROM as u128) * n128 {
            AccuracyBand::High
        } else if c100 >= (MEDIUM_FROM as u128) * n128 {
            AccuracyBand::Medium
        } else if c100 >= (LOW_FROM as u128) * n128 {
            AccuracyBand::Low
        } else {
            AccuracyBand::Lowest
        }
    }
}

} // verus!
