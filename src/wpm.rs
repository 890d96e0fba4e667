use vstd::prelude::*;

verus! {

/// No sample is taken before this much time has passed since the start.
pub const INITIAL_WPM_DELAY_NS: u64 = 2_000_000_000;

/// Least time between two samples.
pub const WPM_UPDATE_INTERVAL_NS: u64 = 1_000_000_000;

/// Characters that count as one word.
pub const CHARS_PER_WORD: u64 = 5;

/// Largest value a sample may hold: 500 words per minute, in hundredths.
pub const MAX_WPM_CENTI: u64 = 50_000;

/// Hundredths of a word per minute for one character per nanosecond:
/// 100 hundredths, 60 seconds of 10^9 nanoseconds, `CHARS_PER_WORD` characters.
pub const CENTI_WPM_PER_CHAR_NS: u128 = 1_200_000_000_000;

/// One reading: time since the start of the session (nanoseconds) and the
/// words per minute (hundredths) at that time.
#[derive(Clone, Copy, Debug, PartialEq, Eq, Structural)]
pub struct WpmSample {
    pub at: u64,
    pub wpm: u64,
}

/// Words per minute, in hundredths, rounded down and capped, for `chars`
/// characters in `elapsed_ns` nanoseconds.
pub open spec fn wpm_of(elapsed_ns: u64, chars: int) -> int {
    let raw = chars * (CENTI_WPM_PER_CHAR_NS as int) / (elapsed_ns as int);
    if raw > MAX_WPM_CENTI {
        MAX_WPM_CENTI as int
    } else {
        raw
    }
}

/// Whether a reading is taken at `elapsed_ns`: after the warm-up, and a full
/// interval after the previous reading.
pub open spec fn sample_due(samples: Seq<WpmSample>, elapsed_ns: u64) -> bool {
    &&& elapsed_ns >= INITIAL_WPM_DELAY_NS
    &&& (samples.len() == 0 || elapsed_ns >= samples.last().at + WPM_UPDATE_INTERVAL_NS)
}

/// The readings after an advance to `chars` characters at `elapsed_ns`.
pub open spec fn sampled(samples: Seq<WpmSample>, elapsed_ns: u64, chars: int) -> Seq<WpmSample> {
    if sample_due(samples, elapsed_ns) {
        samples.push(WpmSample { at: elapsed_ns, wpm: wpm_of(elapsed_ns, chars) as u64 })
    } else {
        samples
    }
}

/// Every reading is after the warm-up and within the cap, and readings are a
/// full interval apart.
pub open spec fn samples_wf(s: Seq<WpmSample>) -> bool {
    &&& forall|i: int| 0 <= i < s.len() ==> s[i].at >= INITIAL_WPM_DELAY_NS && s[i].wpm <= MAX_WPM_CENTI
    &&& forall|i: int| 0 < i < s.len() ==> #[trigger] s[i].at >= s[i - 1].at + WPM_UPDATE_INTERVAL_NS
}

/// A reading is only ever added after the warm-up and a full interval after
/// the previous one, and its value lies between zero and the cap.
pub proof fn lemma_sampling_keeps_spacing(s: Seq<WpmSample>, elapsed_ns: u64, chars: int)
    requires
        samples_wf(s),
        chars >= 0,
    ensures
        samples_wf(sampled(s, elapsed_ns, chars)),
        sampled(s, elapsed_ns, chars).len() > s.len() ==> {
            &&& elapsed_ns >= INITIAL_WPM_DELAY_NS
            &&& (s.len() == 0 || elapsed_ns >= s.last().at + WPM_UPDATE_INTERVAL_NS)
            &&& 0 <= sampled(s, elapsed_ns, chars).last().wpm <= MAX_WPM_CENTI
        },
{
}

pub open spec fn wpm_total(s: Seq<WpmSample>) -> int
    decreases s.len(),
{
    if s.len() == 0 {
        0
    } else {
        wpm_total(s.drop_last()) + s.last().wpm
    }
}

pub open spec fn wpm_peak(s: Seq<WpmSample>) -> int
    decreases s.len(),
{
    if s.len() == 0 {
        0
    } else if wpm_peak(s.drop_last()) >= s.last().wpm {
        wpm_peak(s.drop_last())
    } else {
        s.last().wpm as int
    }
}

proof fn lemma_wpm_total_bound(s: Seq<WpmSample>)
    requires
        samples_wf(s),
    ensures
        0 <= wpm_total(s) <= s.len() * MAX_WPM_CENTI,
    decreases s.len(),
{
    if s.len() > 0 {
        assert(samples_wf(s.drop_last()));
        lemma_wpm_total_bound(s.drop_last());
    }
}

proof fn lemma_wpm_peak_bound(s: Seq<WpmSample>)
    requires
        samples_wf(s),
    ensures
        0 <= wpm_peak(s) <= MAX_WPM_CENTI,
    decreases s.len(),
{
    if s.len() > 0 {
        assert(samples_wf(s.drop_last()));
        lemma_wpm_peak_bound(s.drop_last());
    }
}

/// The series of words-per-minute readings of a session.
pub struct WpmSampler {
    pub samples: Vec<WpmSample>,
}

impl View for WpmSampler {
    type V = Seq<WpmSample>;

    open spec fn view(&self) -> Seq<WpmSample> {
        self.samples@
    }
}

impl WpmSampler {
    pub open spec fn wf(&self) -> bool {
        samples_wf(self@)
    }

    pub fn new() -> (r: Self)
        ensures
            r@ == Seq::<WpmSample>::empty(),
            r.wf(),
    {
        WpmSampler { samples: Vec::new() }
    }

    /// Called after each advance to `chars` correctly typed characters,
    /// `elapsed_ns` after the start: takes a reading when one is due.
    pub fn maybe_sample(&mut self, elapsed_ns: u64, chars: usize)
        requires
            old(self).wf(),
        ensures
            final(self).wf(),
            final(self)@ == sampled(old(self)@, elapsed_ns, chars as int),
    {
        if elapsed_ns < INITIAL_WPM_DELAY_NS {
            return;
        }
        let n = self.samples.len();
        if n > 0 {
            let last = self.samples[n - 1].at;
            if (elapsed_ns as u128) < (last as u128) + (WPM_UPDATE_INTERVAL_NS as u128) {
                return;
            }
        }
        assert((chars as int) * (CENTI_WPM_PER_CHAR_NS as int) <= (usize::MAX as int) * (
        CENTI_WPM_PER_CHAR_NS as int)) by (nonlinear_arith)
            requires
                0 <= chars <= usize::MAX,
        ;
        let raw: u128 = (chars as u128) * CENTI_WPM_PER_CHAR_NS / (elapsed_ns as u128);
        let wpm: u64 = if raw > MAX_WPM_CENTI as u128 {
            MAX_WPM_CENTI
        } else {
            raw as u64
        };
        self.samples.push(WpmSample { at: elapsed_ns, wpm });
    }

    /// The latest reading, or zero before the first.
    pub fn current(&self) -> (r: u64)
        ensures
            r == (if self@.len() == 0 {
                0
            } else {
                self@.last().wpm
            }),
    {
        let n = self.samples.len();
        if n == 0 {
            0
        } else {
            self.samples[n - 1].wpm
        }
    }

    /// Mean of the readings, rounded down, or zero when there are none.
    pub fn average(&self) -> (r: u64)
        requires
            self.wf(),
        ensures
            r == (if self@.len() == 0 {
                0
            } else {
                wpm_total(self@) / (self@.len() as int)
            }),
    {
        let n = self.samples.len();
        if n == 0 {
            return 0;
        }
        let mut sum: u128 = 0;
        let mut i: usize = 0;
        while i < n
            invariant
                n == self@.len(),
                i <= n,
                samples_wf(self@),
                sum == wpm_total(self@.take(i as int)),
                sum <= i * MAX_WPM_CENTI,
            decreases n - i,
        {
            assert(self@.take(i as int + 1).drop_last() == self@.take(i as int));
            sum = sum + self.samples[i].wpm as u128;
            i = i + 1;
        }
        assert(self@.take(n as int) == self@);
        let avg = sum / (n as u128);
        assert(avg <= MAX_WPM_CENTI) by (nonlinear_arith)
            requires
                sum <= n * MAX_WPM_CENTI,
                n > 0,
                avg as int == (sum as int) / (n as int),
        ;
        avg as u64
    }

    /// Highest reading, or zero when there are none.
    pub fn peak(&self) -> (r: u64)
        requires
            self.wf(),
        ensures
            r == wpm_peak(self@),
    {
        let n = self.samples.len();
        let mut best: u64 = 0;
        let mut i: usize = 0;
        while i < n
            invariant
                n == self@.len(),
                i <= n,
                best == wpm_peak(self@.take(i as int)),
            decreases n - i,
        {
            assert(self@.take(i as int + 1).drop_last() == self@.take(i as int));
            if self.samples[i].wpm > best {
                best = self.samples[i].wpm;
            }
            i = i + 1;
        }
        assert(self@.take(n as int) == self@);
        best
    }
}

} // verus!
