use vstd::prelude::*;
use crate::metrics::{mean, KeyMetricsTracker, KeyStat};

verus! {

/// The orders in which characters can be ranked.
#[derive(Clone, Copy, Debug, PartialEq, Eq, Structural)]
pub enum Ranking {
    /// Lowest mean latency first, among characters with samples.
    Fastest,
    /// Highest mean latency first, among characters with samples.
    Slowest,
    /// Most errors first, among characters with at least one error.
    ErrorProne,
    /// Highest share of error-free attempts first, among characters with samples.
    Accurate,
}

/// Attempts of a character that were not errors.
pub open spec fn correct_of(st: KeyStat) -> int {
    if st.errors <= st.times.len() {
        st.times.len() - st.errors
    } else {
        0
    }
}

/// Whether a character takes part in a ranking.
pub open spec fn eligible(kind: Ranking, st: KeyStat) -> bool {
    match kind {
        Ranking::ErrorProne => st.errors > 0,
        _ => st.times.len() > 0,
    }
}

/// `a` ranks strictly above `b` on the ranking's metric.
pub open spec fn outranks(kind: Ranking, a: KeyStat, b: KeyStat) -> bool {
    match kind {
        Ranking::Fastest => mean(a.times) < mean(b.times),
        Ranking::Slowest => mean(a.times) > mean(b.times),
        Ranking::ErrorProne => a.errors > b.errors,
        Ranking::Accurate => correct_of(a) * b.times.len() > correct_of(b) * a.times.len(),
    }
}

/// Share of a character's attempts that were not errors, in hundredths of
/// a percent, rounded down; zero without samples.
pub open spec fn accuracy_bp(st: KeyStat) -> int {
    if st.times.len() == 0 {
        0
    } else {
        correct_of(st) * 10000 / (st.times.len() as int)
    }
}

/// The value a ranking reports for a character.
pub open spec fn rank_value(kind: Ranking, st: KeyStat) -> int {
    match kind {
        Ranking::Fastest | Ranking::Slowest => mean(st.times),
        Ranking::ErrorProne => st.errors as int,
        Ranking::Accurate => accuracy_bp(st),
    }
}

/// Entry `i` comes before entry `j`: it ranks higher, or ties and was seen
/// first.
pub open spec fn before(kind: Ranking, s: Seq<KeyStat>, i: int, j: int) -> bool {
    outranks(kind, s[i], s[j]) || (!outranks(kind, s[j], s[i]) && i < j)
}

/// `idx` lists, best first, the first `count` eligible entries of `s` in the
/// order `before`, or all of them if there are fewer.
pub open spec fn is_ranking(kind: Ranking, s: Seq<KeyStat>, count: int, idx: Seq<int>) -> bool {
    &&& idx.len() <= count
    &&& forall|k: int| 0 <= k < idx.len() ==> 0 <= #[trigger] idx[k] < s.len() && eligible(kind, s[idx[k]])
    &&& forall|a: int, b: int| 0 <= a < b < idx.len() ==> before(kind, s, #[trigger] idx[a], #[trigger] idx[b])
    &&& forall|j: int|
        0 <= j < s.len() && eligible(kind, #[trigger] s[j]) && !idx.contains(j) ==> {
            &&& idx.len() == count
            &&& forall|k: int| 0 <= k < idx.len() ==> before(kind, s, #[trigger] idx[k], j)
        }
}

proof fn lemma_before_transitive(kind: Ranking, s: Seq<KeyStat>, i: int, j: int, k: int)
    requires
        0 <= i < s.len(),
        0 <= j < s.len(),
        0 <= k < s.len(),
        eligible(kind, s[i]),
        eligible(kind, s[j]),
        eligible(kind, s[k]),
        before(kind, s, i, j),
        before(kind, s, j, k),
    ensures
        before(kind, s, i, k),
{
    if kind == Ranking::Accurate {
        let (ci, cj, ck) = (correct_of(s[i]), correct_of(s[j]), correct_of(s[k]));
        let (ni, nj, nk) = (s[i].times.len() as int, s[j].times.len() as int, s[k].times.len() as int);
        assert(ci * nj >= cj * ni && cj * nk >= ck * nj ==> ci * nk >= ck * ni) by (nonlinear_arith)
            requires
                ni > 0,
                nj > 0,
                nk > 0,
                ci >= 0,
                cj >= 0,
                ck >= 0,
        ;
        assert(ci * nj > cj * ni && cj * nk >= ck * nj ==> ci * nk > ck * ni) by (nonlinear_arith)
            requires
                ni > 0,
                nj > 0,
                nk > 0,
                ci >= 0,
                cj >= 0,
                ck >= 0,
        ;
        assert(ci * nj >= cj * ni && cj * nk > ck * nj ==> ci * nk > ck * ni) by (nonlinear_arith)
            requires
                ni > 0,
                nj > 0,
                nk > 0,
                ci >= 0,
                cj >= 0,
                ck >= 0,
        ;
    }
}

impl KeyMetricsTracker {
    fn outranks_at(&self, kind: Ranking, i: usize, j: usize) -> (r: bool)
        requires
            i < self@.len(),
            j < self@.len(),
        ensures
            r == outranks(kind, self@[i as int], self@[j as int]),
    {
        let a = &self.entries[i].1;
        let b = &self.entries[j].1;
        match kind {
            Ranking::Fastest | Ranking::Slowest => {
                let ma = match a.average_time() {
                    Some(m) => m,
                    None => 0,
                };
                let mb = match b.average_time() {
                    Some(m) => m,
                    None => 0,
                };
                if kind == Ranking::Fastest {
                    ma < mb
                } else {
                    ma > mb
                }
            },
            Ranking::ErrorProne => a.errors > b.errors,
            Ranking::Accurate => {
                let na = a.times.len();
                let nb = b.times.len();
                let ca: usize = if a.errors <= na {
                    na - a.errors
                } else {
                    0
                };
                let cb: usize = if b.errors <= nb {
                    nb - b.errors
                } else {
                    0
                };
                assert((ca as int) * (nb as int) <= u128::MAX) by (nonlinear_arith)
                    requires
                        ca <= usize::MAX,
                        nb <= usize::MAX,
                ;
                assert((cb as int) * (na as int) <= u128::MAX) by (nonlinear_arith)
                    requires
                        cb <= usize::MAX,
                        na <= usize::MAX,
                ;
                (ca as u128) * (nb as u128) > (cb as u128) * (na as u128)
            },
        }
    }

    fn eligible_at(&self, kind: Ranking, i: usize) -> (r: bool)
        requires
            i < self@.len(),
        ensures
            r == eligible(kind, self@[i as int]),
    {
        match kind {
            Ranking::ErrorProne => self.entries[i].1.errors > 0,
            _ => self.entries[i].1.times.len() > 0,
        }
    }

    fn before_at(&self, kind: Ranking, i: usize, j: usize) -> (r: bool)
        requires
            i < self@.len(),
            j < self@.len(),
        ensures
            r == before(kind, self@, i as int, j as int),
    {
        self.outranks_at(kind, i, j) || (!self.outranks_at(kind, j, i) && i < j)
    }

    /// Positions of the first `count` eligible entries in ranking order.
    pub fn rank_indices(&self, kind: Ranking, count: usize) -> (r: Vec<usize>)
        ensures
            is_ranking(kind, self@, count as int, r@.map_values(|i: usize| i as int)),
    {
        let n = self.entries.len();
        let ghost s = self@;
        let mut chosen: Vec<bool> = Vec::new();
        let mut i: usize = 0;
        while i < n
            invariant
                i <= n,
                n == s.len(),
                chosen@.len() == i,
                forall|j: int| 0 <= j < i ==> !chosen@[j],
            decreases n - i,
        {
            chosen.push(false);
            i = i + 1;
        }
        let mut r: Vec<usize> = Vec::new();
        let mut done = false;
        while !done && r.len() < count
            invariant
                n == s.len(),
                s == self@,
                chosen@.len() == n,
                r@.len() <= count,
                forall|k: int| 0 <= k < r@.len() ==> (#[trigger] r@[k]) < n && eligible(kind, s[r@[k] as int]) && chosen@[r@[k] as int],
                forall|j: int| 0 <= j < n && #[trigger] chosen@[j] ==> r@.contains(j as usize),
                forall|a: int, b: int| 0 <= a < b < r@.len() ==> before(kind, s, #[trigger] r@[a] as int, #[trigger] r@[b] as int),
                forall|k: int, j: int|
                    0 <= k < r@.len() && 0 <= j < n && eligible(kind, s[j]) && !#[trigger] chosen@[j] ==> before(kind, s, #[trigger] r@[k] as int, j),
                done ==> forall|j: int| 0 <= j < n && eligible(kind, #[trigger] s[j]) ==> chosen@[j],
            decreases count - r@.len() + (if done { 0int } else { 1int }),
        {
            let mut best: Option<usize> = None;
            let mut j: usize = 0;
            while j < n
                invariant
                    n == s.len(),
                    s == self@,
                    j <= n,
                    chosen@.len() == n,
                    best matches Some(b) ==> b < j && eligible(kind, s[b as int]) && !chosen@[b as int],
                    best matches Some(b) ==> forall|x: int|
                        0 <= x < j && x != b && eligible(kind, #[trigger] s[x]) && !chosen@[x] ==> before(kind, s, b as int, x),
                    best is None ==> forall|x: int| 0 <= x < j && eligible(kind, #[trigger] s[x]) ==> chosen@[x],
                decreases n - j,
            {
                if self.eligible_at(kind, j) && !chosen[j] {
                    match best {
                        None => {
                            best = Some(j);
                        },
                        Some(b) => {
                            if self.before_at(kind, j, b) {
                                proof {
                                    assert forall|x: int|
                                        0 <= x < j + 1 && x != j && eligible(kind, #[trigger] s[x]) && !chosen@[x] implies before(kind, s, j as int, x) by {
                                        if x != b {
                                            lemma_before_transitive(kind, s, j as int, b as int, x);
                                        }
                                    }
                                }
                                best = Some(j);
                            }
                        },
                    }
                }
                j = j + 1;
            }
            match best {
                None => {
                    done = true;
                },
                Some(b) => {
                    let ghost old_r = r@;
                    let ghost old_chosen = chosen@;
                    r.push(b);
                    chosen.set(b, true);
                    proof {
                        assert forall|x: int| 0 <= x < n && #[trigger] chosen@[x] implies r@.contains(x as usize) by {
                            if x == b {
                                assert(r@[old_r.len() as int] == b);
                            } else {
                                assert(old_chosen[x]);
                                let k = choose|k: int| 0 <= k < old_r.len() && old_r[k] == x as usize;
                                assert(r@[k] == x as usize);
                            }
                        }
                        assert forall|a: int, c: int| 0 <= a < c < r@.len() implies before(kind, s, #[trigger] r@[a] as int, #[trigger] r@[c] as int) by {
                            if c == old_r.len() {
                                assert(!old_chosen[b as int]);
                            }
                        }
                    }
                },
            }
        }
        proof {
            let idx = r@.map_values(|i: usize| i as int);
            assert forall|j: int| 0 <= j < s.len() && eligible(kind, #[trigger] s[j]) && !idx.contains(j) implies {
                &&& idx.len() == count
                &&& forall|k: int| 0 <= k < idx.len() ==> before(kind, s, #[trigger] idx[k], j)
            } by {
                if chosen@[j] {
                    let k = choose|k: int| 0 <= k < r@.len() && r@[k] == j as usize;
                    assert(idx[k] == j);
                }
            }
        }
        r
    }

    fn rank_value_at(&self, kind: Ranking, i: usize) -> (r: u64)
        requires
            i < self@.len(),
            eligible(kind, self@[i as int]),
        ensures
            r as int == rank_value(kind, self@[i as int]),
    {
        let m = &self.entries[i].1;
        match kind {
            Ranking::Fastest | Ranking::Slowest => match m.average_time() {
                Some(a) => a,
                None => 0,
            },
            Ranking::ErrorProne => m.errors as u64,
            Ranking::Accurate => {
                let n = m.times.len();
                let c: usize = if m.errors <= n {
                    n - m.errors
                } else {
                    0
                };
                let v = (c as u128) * 10000 / (n as u128);
                assert(v <= 10000) by (nonlinear_arith)
                    requires
                        c <= n,
                        n > 0,
                        v as int == (c as int * 10000) / (n as int),
                ;
                v as u64
            },
        }
    }

    /// The first `count` characters of `kind`'s order, each with its value
    /// there: mean latency in nanoseconds for `Fastest` and `Slowest`, error
    /// count for `ErrorProne`, share of error-free attempts in hundredths of a
    /// percent for `Accurate`. Ties go to the character seen first.
    pub fn ranked(&self, kind: Ranking, count: usize) -> (r: Vec<(char, u64)>)
        ensures
            exists|idx: Seq<int>|
                #[trigger] is_ranking(kind, self@, count as int, idx) && r@.len() == idx.len() && forall|k: int|
                    0 <= k < idx.len() ==> r@[k].0 == self@[idx[k]].key && r@[k].1 as int == rank_value(
                        kind,
                        self@[idx[k]],
                    ),
    {
        let order = self.rank_indices(kind, count);
        let ghost idx = order@.map_values(|i: usize| i as int);
        let mut r: Vec<(char, u64)> = Vec::new();
        let mut k: usize = 0;
        while k < order.len()
            invariant
                k <= order@.len(),
                idx == order@.map_values(|i: usize| i as int),
                is_ranking(kind, self@, count as int, idx),
                r@.len() == k,
                forall|q: int|
                    0 <= q < k ==> r@[q].0 == self@[idx[q]].key && r@[q].1 as int == rank_value(kind, self@[idx[q]]),
            decreases order@.len() - k,
        {
            assert(idx[k as int] == order@[k as int] as int);
            let i = order[k];
            let v = self.rank_value_at(kind, i);
            r.push((self.entries[i].0, v));
            k = k + 1;
        }
        r
    }

    /// Characters with samples, lowest mean latency first.
    pub fn fastest(&self, count: usize) -> (r: Vec<(char, u64)>)
        ensures
            exists|idx: Seq<int>|
                #[trigger] is_ranking(Ranking::Fastest, self@, count as int, idx) && r@.len() == idx.len()
                    && forall|k: int|
                    0 <= k < idx.len() ==> r@[k].0 == self@[idx[k]].key && r@[k].1 == mean(self@[idx[k]].times),
    {
        self.ranked(Ranking::Fastest, count)
    }

    /// Characters with samples, highest mean latency first.
    pub fn slowest(&self, count: usize) -> (r: Vec<(char, u64)>)
        ensures
            exists|idx: Seq<int>|
                #[trigger] is_ranking(Ranking::Slowest, self@, count as int, idx) && r@.len() == idx.len()
                    && forall|k: int|
                    0 <= k < idx.len() ==> r@[k].0 == self@[idx[k]].key && r@[k].1 == mean(self@[idx[k]].times),
    {
        self.ranked(Ranking::Slowest, count)
    }

    /// Characters with errors, most errors first.
    pub fn most_error_prone(&self, count: usize) -> (r: Vec<(char, u64)>)
        ensures
            exists|idx: Seq<int>|
                #[trigger] is_ranking(Ranking::ErrorProne, self@, count as int, idx) && r@.len() == idx.len()
                    && forall|k: int|
                    0 <= k < idx.len() ==> r@[k].0 == self@[idx[k]].key && r@[k].1 == self@[idx[k]].errors,
    {
        self.ranked(Ranking::ErrorProne, count)
    }

    /// Characters with samples, highest share of error-free attempts first,
    /// each with that share in hundredths of a percent.
    pub fn most_accurate(&self, count: usize) -> (r: Vec<(char, u64)>)
        ensures
            exists|idx: Seq<int>|
                #[trigger] is_ranking(Ranking::Accurate, self@, count as int, idx) && r@.len() == idx.len()
                    && forall|k: int|
                    0 <= k < idx.len() ==> r@[k].0 == self@[idx[k]].key && r@[k].1 == accuracy_bp(
                        self@[idx[k]],
                    ),
    {
        self.ranked(Ranking::Accurate, count)
    }
}

} // verus!
