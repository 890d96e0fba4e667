use vstd::prelude::*;
use crate::metrics::{
    errors_within_samples, keys_unique, lemma_attempt_then_error, has_key,
    key_index, with_attempt, with_error, KeyMetricsTracker, KeyStat,
};
use crate::wpm::{lemma_sampling_keeps_spacing, sampled, samples_wf, wpm_peak, wpm_total, WpmSample, WpmSampler};

verus! {

pub const NANOS_PER_SEC: u64 = 1_000_000_000;

/// One input event: a printable character, or a backspace.
#[derive(Clone, Copy, Debug, PartialEq, Eq, Structural)]
pub enum Keystroke {
    Char(char),
    Backspace,
}

/// How a character of the target text is shown.
#[derive(Clone, Copy, Debug, PartialEq, Eq, Structural)]
pub enum CharState {
    /// Typed right the first time.
    Correct,
    /// Typed right after at least one miss.
    Corrected,
    /// Typed wrong.
    Wrong,
    /// Waiting at the cursor.
    Current,
    /// Not reached yet.
    Pending,
}

/// How position `i` of the target text is shown.
pub open spec fn char_state_of(v: SessionView, i: int) -> CharState {
    if i < v.echo.len() {
        if v.echo[i] != v.target[i] {
            CharState::Wrong
        } else if v.marks[i] {
            CharState::Corrected
        } else {
            CharState::Correct
        }
    } else if i == v.cursor {
        CharState::Current
    } else {
        CharState::Pending
    }
}

/// The state of a session as a mathematical value.
pub struct SessionView {
    pub target: Seq<char>,
    pub echo: Seq<char>,
    pub cursor: int,
    pub marks: Seq<bool>,
    pub keystrokes: int,
    pub errors: int,
    pub started_at: Option<u64>,
    pub finished: bool,
    pub correction_mode: bool,
    pub duration_secs: u64,
    pub key_timer: Option<u64>,
    pub metrics: Seq<KeyStat>,
    pub samples: Seq<WpmSample>,
}

/// Time from `then` to `now`, zero if `now` is earlier.
pub open spec fn since(now: u64, then: u64) -> u64 {
    if now >= then {
        (now - then) as u64
    } else {
        0
    }
}

/// Time since the first keystroke, zero before it.
pub open spec fn elapsed_of(v: SessionView, now: u64) -> u64 {
    match v.started_at {
        Some(t) => since(now, t),
        None => 0,
    }
}

/// The per-key timer once the cursor stands at `cursor`: restarted while
/// there is a character there to wait for.
pub open spec fn timer_at(v: SessionView, cursor: int, now: u64) -> Option<u64> {
    if cursor < v.target.len() {
        Some(now)
    } else {
        v.key_timer
    }
}

/// A fresh session on `target`.
pub open spec fn fresh(target: Seq<char>, correction_mode: bool, duration_secs: u64) -> SessionView {
    SessionView {
        target,
        echo: Seq::empty(),
        cursor: 0,
        marks: Seq::new(target.len(), |i: int| false),
        keystrokes: 0,
        errors: 0,
        started_at: None,
        finished: false,
        correction_mode,
        duration_secs,
        key_timer: None,
        metrics: Seq::empty(),
        samples: Seq::empty(),
    }
}

/// The first keystroke starts the clock and the per-key timer.
pub open spec fn started(v: SessionView, now: u64) -> SessionView {
    if v.started_at is None {
        SessionView { started_at: Some(now), key_timer: timer_at(v, v.cursor, now), ..v }
    } else {
        v
    }
}

/// A printable character typed with the cursor on a character of the text.
pub open spec fn type_char(v: SessionView, c: char, now: u64) -> SessionView {
    let expected = v.target[v.cursor];
    let timed = match v.key_timer {
        Some(t) => with_attempt(v.metrics, expected, since(now, t)),
        None => v.metrics,
    };
    let next = v.cursor + 1;
    let w = if c == expected {
        SessionView {
            echo: v.echo.push(c),
            keystrokes: v.keystrokes + 1,
            cursor: next,
            key_timer: timer_at(v, next, now),
            metrics: timed,
            samples: sampled(v.samples, elapsed_of(v, now), next),
            ..v
        }
    } else if v.correction_mode {
        SessionView {
            keystrokes: v.keystrokes + 1,
            errors: v.errors + 1,
            metrics: with_error(timed, expected),
            marks: v.marks.update(v.cursor, true),
            ..v
        }
    } else {
        SessionView {
            echo: v.echo.push(c),
            keystrokes: v.keystrokes + 1,
            errors: v.errors + 1,
            metrics: with_error(timed, expected),
            marks: v.marks.update(v.cursor, true),
            cursor: next,
            key_timer: timer_at(v, next, now),
            ..v
        }
    };
    SessionView { finished: w.finished || w.cursor >= v.target.len(), ..w }
}

/// A backspace: drops the last echoed character and steps the cursor back.
/// Errors, marks and metrics are kept.
pub open spec fn backspace(v: SessionView, now: u64) -> SessionView {
    if v.echo.len() > 0 {
        let w = SessionView { echo: v.echo.drop_last(), keystrokes: v.keystrokes + 1, ..v };
        if v.cursor > 0 {
            SessionView { cursor: v.cursor - 1, key_timer: timer_at(v, v.cursor - 1, now), ..w }
        } else {
            w
        }
    } else {
        v
    }
}

/// The session after keystroke `k` at time `now`.
pub open spec fn step(v: SessionView, k: Keystroke, now: u64) -> SessionView {
    if v.finished {
        v
    } else {
        let s = started(v, now);
        match k {
            Keystroke::Char(c) => if s.cursor < s.target.len() {
                type_char(s, c, now)
            } else {
                s
            },
            Keystroke::Backspace => backspace(s, now),
        }
    }
}

/// The session after a timeout check at time `now`.
pub open spec fn tick(v: SessionView, now: u64) -> SessionView {
    if v.started_at is Some && since(now, v.started_at->0) >= v.duration_secs * NANOS_PER_SEC {
        SessionView { finished: true, ..v }
    } else {
        v
    }
}

/// What holds of every reachable session.
pub open spec fn inv(v: SessionView) -> bool {
    &&& v.marks.len() == v.target.len()
    &&& 0 <= v.cursor <= v.target.len()
    &&& v.echo.len() == v.cursor
    &&& 0 <= v.errors <= v.keystrokes
    &&& keys_unique(v.metrics)
    &&& errors_within_samples(v.metrics)
    &&& (v.started_at is Some && v.cursor < v.target.len() ==> v.key_timer is Some)
    &&& samples_wf(v.samples)
}

/// Accuracy in hundredths of a percent: all when nothing was typed, else
/// the share of keystrokes that were not errors, rounded down.
pub open spec fn accuracy_of(keystrokes: int, errors: int) -> int {
    if keystrokes == 0 {
        10000
    } else {
        (keystrokes - errors) * 10000 / keystrokes
    }
}

pub proof fn lemma_step_inv(v: SessionView, k: Keystroke, now: u64)
    requires
        inv(v),
    ensures
        inv(step(v, k, now)),
{
    if !v.finished {
        let s = started(v, now);
        if let Keystroke::Char(c) = k {
            if s.cursor < s.target.len() {
                let expected = s.target[s.cursor];
                let lat = since(now, s.key_timer->0);
                lemma_attempt_then_error(s.metrics, expected, lat);
                lemma_sampling_keeps_spacing(s.samples, elapsed_of(s, now), s.cursor + 1);
                assert(inv(s));
                assert(inv(type_char(s, c, now)));
            }
        } else {
            assert(inv(s));
            assert(inv(backspace(s, now)));
        }
    }
}

/// A typing session on one target text.
pub struct Session {
    pub target: Vec<char>,
    pub echo: Vec<char>,
    pub cursor: usize,
    pub correction_marks: Vec<bool>,
    pub total_keystrokes: u64,
    pub total_errors: u64,
    pub started_at: Option<u64>,
    pub finished: bool,
    pub correction_mode: bool,
    pub duration_secs: u64,
    pub key_timer: Option<u64>,
    pub metrics: KeyMetricsTracker,
    pub wpm: WpmSampler,
}

impl View for Session {
    type V = SessionView;

    open spec fn view(&self) -> SessionView {
        SessionView {
            target: self.target@,
            echo: self.echo@,
            cursor: self.cursor as int,
            marks: self.correction_marks@,
            keystrokes: self.total_keystrokes as int,
            errors: self.total_errors as int,
            started_at: self.started_at,
            finished: self.finished,
            correction_mode: self.correction_mode,
            duration_secs: self.duration_secs,
            key_timer: self.key_timer,
            metrics: self.metrics@,
            samples: self.wpm@,
        }
    }
}

fn all_false(n: usize) -> (r: Vec<bool>)
    ensures
        r@ == Seq::new(n as nat, |i: int| false),
{
    let mut r: Vec<bool> = Vec::new();
    let mut i: usize = 0;
    while i < n
        invariant
            i <= n,
            r@ == Seq::new(i as nat, |j: int| false),
        decreases n - i,
    {
        r.push(false);
        i = i + 1;
        assert(r@ =~= Seq::new(i as nat, |j: int| false));
    }
    r
}

fn saturating_since(now: u64, then: u64) -> (r: u64)
    ensures
        r == since(now, then),
{
    if now >= then {
        now - then
    } else {
        0
    }
}

impl Session {
    pub open spec fn wf(&self) -> bool {
        inv(self@)
    }

    /// A session on `target` that ends after `duration_secs` seconds; with
    /// `correction_mode` each character must be typed right before moving on.
    pub fn new(duration_secs: u64, correction_mode: bool, target: Vec<char>) -> (r: Session)
        ensures
            r.wf(),
            r@ == fresh(target@, correction_mode, duration_secs),
    {
        let n = target.len();
        let marks = all_false(n);
        let r = Session {
            target,
            echo: Vec::new(),
            cursor: 0,
            correction_marks: marks,
            total_keystrokes: 0,
            total_errors: 0,
            started_at: None,
            finished: false,
            correction_mode,
            duration_secs,
            key_timer: None,
            metrics: KeyMetricsTracker::new(),
            wpm: WpmSampler::new(),
        };
        assert(r@ == fresh(r.target@, correction_mode, duration_secs));
        r
    }

    /// Starts over on a new target text, keeping the mode and the duration.
    pub fn restart(&mut self, target: Vec<char>)
        ensures
            final(self).wf(),
            final(self)@ == fresh(target@, old(self).correction_mode, old(self).duration_secs),
    {
        *self = Session::new(self.duration_secs, self.correction_mode, target);
    }

    /// Starts the per-key timer where a character waits at the cursor.
    fn start_timing_current_key(&mut self, now: u64)
        ensures
            final(self)@ == (SessionView { key_timer: timer_at(old(self)@, old(self).cursor as int, now), ..old(self)@ }),
    {
        if self.cursor < self.target.len() {
            self.key_timer = Some(now);
        }
    }

    /// Applies one keystroke made at time `now`.
    pub fn apply_keystroke(&mut self, key: Keystroke, now: u64)
        requires
            old(self).wf(),
            old(self).total_keystrokes < u64::MAX,
        ensures
            final(self).wf(),
            final(self)@ == step(old(self)@, key, now),
    {
        proof {
            lemma_step_inv(self@, key, now);
        }
        if self.finished {
            return;
        }
        if self.started_at.is_none() {
            self.started_at = Some(now);
            self.start_timing_current_key(now);
        }
        assert(self@ == started(old(self)@, now));
        match key {
            Keystroke::Char(c) => {
                if self.cursor < self.target.len() {
                    self.type_char(c, now);
                }
            },
            Keystroke::Backspace => {
                if self.echo.len() > 0 {
                    self.echo.pop();
                    self.total_keystrokes = self.total_keystrokes + 1;
                    if self.cursor > 0 {
                        self.cursor = self.cursor - 1;
                        self.start_timing_current_key(now);
                    }
                }
            },
        }
    }

    fn type_char(&mut self, c: char, now: u64)
        requires
            inv(old(self)@),
            old(self).total_keystrokes < u64::MAX,
            old(self).cursor < old(self).target.len(),
            old(self).started_at is Some,
        ensures
            final(self)@ == type_char(old(self)@, c, now),
    {
        let expected = self.target[self.cursor];
        let ghost v = self@;
        proof {
            lemma_attempt_then_error(v.metrics, expected, since(now, v.key_timer->0));
        }
        if let Some(t) = self.key_timer {
            self.metrics.record_attempt(expected, saturating_since(now, t));
        }
        if c == expected {
            self.echo.push(c);
            self.total_keystrokes = self.total_keystrokes + 1;
            self.cursor = self.cursor + 1;
            self.start_timing_current_key(now);
            let elapsed = match self.started_at {
                Some(s) => saturating_since(now, s),
                None => 0,
            };
            self.wpm.maybe_sample(elapsed, self.cursor);
        } else {
            proof {
                let m = self.metrics@;
                let j = key_index(m, expected);
                assert(m[j].errors <= m[j].times.len());
                let tv = self.metrics.entries@[j].1.times;
                assert(tv.len() == tv@.len());
                assert(m[j].times == tv@);
            }
            self.total_errors = self.total_errors + 1;
            self.total_keystrokes = self.total_keystrokes + 1;
            self.metrics.record_error(expected);
            self.correction_marks.set(self.cursor, true);
            if !self.correction_mode {
                self.echo.push(c);
                self.cursor = self.cursor + 1;
                self.start_timing_current_key(now);
            }
        }
        if self.cursor >= self.target.len() {
            self.finished = true;
        }
    }

    /// How position `i` of the target text is shown: by what was typed there,
    /// whether it was ever missed, and where the cursor stands.
    pub fn char_state(&self, i: usize) -> (r: CharState)
        requires
            self.wf(),
            i < self@.target.len(),
        ensures
            r == char_state_of(self@, i as int),
    {
        if i < self.echo.len() {
            if self.echo[i] != self.target[i] {
                CharState::Wrong
            } else if self.correction_marks[i] {
                CharState::Corrected
            } else {
                CharState::Correct
            }
        } else if i == self.cursor {
            CharState::Current
        } else {
            CharState::Pending
        }
    }

    /// Ends the session once `duration_secs` have passed since the first
    /// keystroke, whether or not the text is done.
    pub fn tick_timeout(&mut self, now: u64)
        requires
            old(self).wf(),
        ensures
            final(self).wf(),
            final(self)@ == tick(old(self)@, now),
    {
        if let Some(t) = self.started_at {
            let elapsed = saturating_since(now, t);
            if (elapsed as u128) >= (self.duration_secs as u128) * (NANOS_PER_SEC as u128) {
                self.finished = true;
            }
        }
    }

    /// Time since the first keystroke, or zero before it.
    pub fn elapsed(&self, now: u64) -> (r: u64)
        ensures
            r == elapsed_of(self@, now),
    {
        match self.started_at {
            Some(t) => saturating_since(now, t),
            None => 0,
        }
    }

    /// Share of keystrokes that were not errors, in hundredths of a percent,
    /// rounded down; 10000 before any keystroke.
    pub fn accuracy(&self) -> (r: u64)
        requires
            self.wf(),
        ensures
            r == accuracy_of(self@.keystrokes, self@.errors),
            r <= 10000,
    {
        if self.total_keystrokes == 0 {
            10000
        } else {
            let k = self.total_keystrokes as u128;
            let good = (self.total_keystrokes - self.total_errors) as u128;
            assert(good * 10000 <= k * 10000) by (nonlinear_arith)
                requires
                    good <= k,
            ;
            let r = good * 10000 / k;
            assert(r <= 10000) by (nonlinear_arith)
                requires
                    good <= k,
                    k > 0,
                    r as int == (good as int * 10000) / (k as int),
            ;
            r as u64
        }
    }

    /// Latest words-per-minute reading, in hundredths; zero before the first.
    pub fn current_wpm(&self) -> (r: u64)
        ensures
            r == (if self@.samples.len() == 0 {
                0
            } else {
                self@.samples.last().wpm
            }),
    {
        self.wpm.current()
    }

    /// Mean of the words-per-minute readings, in hundredths; zero when none.
    pub fn average_wpm(&self) -> (r: u64)
        requires
            self.wf(),
        ensures
            r == (if self@.samples.len() == 0 {
                0
            } else {
                wpm_total(self@.samples) / (self@.samples.len() as int)
            }),
    {
        self.wpm.average()
    }

    /// Highest words-per-minute reading, in hundredths; zero when none.
    pub fn peak_wpm(&self) -> (r: u64)
        requires
            self.wf(),
        ensures
            r == wpm_peak(self@.samples),
    {
        self.wpm.peak()
    }
}

/// The session after a sequence of keystrokes, each with its time.
pub open spec fn run(v: SessionView, keys: Seq<(Keystroke, u64)>) -> SessionView
    decreases keys.len(),
{
    if keys.len() == 0 {
        v
    } else {
        step(run(v, keys.drop_last()), keys.last().0, keys.last().1)
    }
}

/// Error count recorded against `k`, zero if it has no entry.
pub open spec fn error_count(s: Seq<KeyStat>, k: char) -> int {
    if has_key(s, k) {
        s[key_index(s, k)].errors as int
    } else {
        0
    }
}

/// Keystroke `key` is a wrong character typed while the cursor stood on
/// position `i` of an unfinished session.
pub open spec fn is_miss(v: SessionView, key: Keystroke, i: int) -> bool {
    &&& !v.finished
    &&& v.cursor == i
    &&& i < v.target.len()
    &&& key matches Keystroke::Char(c) && c != v.target[i]
}

/// Position `i` was mistyped at some keystroke of `keys`.
pub open spec fn mistyped_at(v: SessionView, keys: Seq<(Keystroke, u64)>, i: int) -> bool {
    exists|k: int| 0 <= k < keys.len() && #[trigger] is_miss(run(v, keys.take(k)), keys[k].0, i)
}

/// Any sequence of keystrokes keeps the invariant and the target text: the
/// cursor stays within the text, errors never exceed keystrokes, and the
/// words-per-minute readings stay after the warm-up, a full interval apart
/// and within the cap.
pub proof fn lemma_run_inv(v: SessionView, keys: Seq<(Keystroke, u64)>)
    requires
        inv(v),
    ensures
        inv(run(v, keys)),
        run(v, keys).target == v.target,
        0 <= run(v, keys).cursor <= v.target.len(),
        samples_wf(run(v, keys).samples),
    decreases keys.len(),
{
    if keys.len() > 0 {
        lemma_run_inv(v, keys.drop_last());
        lemma_step_inv(run(v, keys.drop_last()), keys.last().0, keys.last().1);
    }
}

proof fn lemma_error_count_after(s: Seq<KeyStat>, k: char, latency: u64)
    requires
        keys_unique(s),
        errors_within_samples(s),
    ensures
        error_count(with_attempt(s, k, latency), k) == error_count(s, k),
        error_count(with_error(with_attempt(s, k, latency), k), k) == error_count(s, k) + 1,
{
    lemma_attempt_then_error(s, k, latency);
    let a = with_attempt(s, k, latency);
    let j = key_index(a, k);
    if has_key(s, k) {
        let i = key_index(s, k);
        crate::metrics::lemma_key_index(a, i);
    } else {
        crate::metrics::lemma_key_index(a, s.len() as int);
    }
    crate::metrics::lemma_key_index(with_error(a, k), j);
}

/// In correction mode the cursor moves on exactly when the typed character
/// is the expected one; a wrong one leaves the cursor where it is and adds
/// one error to the session and one to the expected character.
pub proof fn lemma_correction_mode_step(v: SessionView, c: char, now: u64)
    requires
        inv(v),
        v.correction_mode,
        !v.finished,
        v.cursor < v.target.len(),
    ensures
        (step(v, Keystroke::Char(c), now).cursor == v.cursor + 1) <==> (c == v.target[v.cursor]),
        c != v.target[v.cursor] ==> {
            &&& step(v, Keystroke::Char(c), now).cursor == v.cursor
            &&& step(v, Keystroke::Char(c), now).errors == v.errors + 1
            &&& error_count(step(v, Keystroke::Char(c), now).metrics, v.target[v.cursor])
                == error_count(v.metrics, v.target[v.cursor]) + 1
        },
{
    let s = started(v, now);
    lemma_error_count_after(s.metrics, s.target[s.cursor], since(now, s.key_timer->0));
}

/// Without correction mode every printable character moves the cursor on;
/// a wrong one still adds an error and marks the position it was typed at.
pub proof fn lemma_normal_mode_step(v: SessionView, c: char, now: u64)
    requires
        inv(v),
        !v.correction_mode,
        !v.finished,
        v.cursor < v.target.len(),
    ensures
        step(v, Keystroke::Char(c), now).cursor == v.cursor + 1,
        c != v.target[v.cursor] ==> {
            &&& step(v, Keystroke::Char(c), now).errors == v.errors + 1
            &&& step(v, Keystroke::Char(c), now).marks[v.cursor]
        },
{
}

/// A position is marked exactly when it was marked before or was mistyped
/// at some keystroke; in particular, from a fresh session, exactly when it
/// was mistyped.
pub proof fn lemma_marks_record_misses(v: SessionView, keys: Seq<(Keystroke, u64)>, i: int)
    requires
        inv(v),
        0 <= i < v.target.len(),
    ensures
        run(v, keys).marks[i] == (v.marks[i] || mistyped_at(v, keys, i)),
    decreases keys.len(),
{
    if keys.len() > 0 {
        let n = keys.len() - 1;
        let prefix = keys.drop_last();
        lemma_marks_record_misses(v, prefix, i);
        lemma_run_inv(v, prefix);
        let u = run(v, prefix);
        assert(keys.take(n) =~= prefix);
        assert forall|k: int| 0 <= k < n implies keys.take(k) =~= prefix.take(k) && keys[k] == prefix[k] by {}
        if mistyped_at(v, prefix, i) {
            let k = choose|k: int| 0 <= k < prefix.len() && #[trigger] is_miss(run(v, prefix.take(k)), prefix[k].0, i);
            assert(keys.take(k) =~= prefix.take(k));
            assert(is_miss(run(v, keys.take(k)), keys[k].0, i));
        }
        if mistyped_at(v, keys, i) {
            let k = choose|k: int| 0 <= k < keys.len() && #[trigger] is_miss(run(v, keys.take(k)), keys[k].0, i);
            if k < n {
                assert(keys.take(k) =~= prefix.take(k));
                assert(is_miss(run(v, prefix.take(k)), prefix[k].0, i));
            }
        }
        if is_miss(u, keys[n].0, i) {
            assert(is_miss(run(v, keys.take(n)), keys[n].0, i));
        }
    }
}

/// Once the configured duration has passed since the first keystroke, a
/// timeout check ends the session, whatever the cursor.
pub proof fn lemma_timeout_finishes(v: SessionView, now: u64)
    requires
        v.started_at is Some,
        since(now, v.started_at->0) >= v.duration_secs * NANOS_PER_SEC,
    ensures
        tick(v, now).finished,
{
}

/// Once finished, a session stays finished.
pub proof fn lemma_finished_stays(v: SessionView, keys: Seq<(Keystroke, u64)>)
    requires
        v.finished,
    ensures
        run(v, keys) == v,
    decreases keys.len(),
{
    if keys.len() > 0 {
        lemma_finished_stays(v, keys.drop_last());
    }
}

} // verus!
