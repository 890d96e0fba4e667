use ratatype::{CharState, Keystroke, Session};

const SEC: u64 = 1_000_000_000;

fn chars(s: &str) -> Vec<char> {
    s.chars().collect()
}

fn type_all(session: &mut Session, keys: &[Keystroke], start: u64, step: u64) {
    let mut now = start;
    for k in keys {
        session.apply_keystroke(*k, now);
        now += step;
    }
}

#[test]
fn normal_mode_keeps_going_past_errors() {
    let mut s = Session::new(30, false, chars("abc"));
    type_all(
        &mut s,
        &[Keystroke::Char('a'), Keystroke::Char('x'), Keystroke::Char('c')],
        0,
        SEC / 10,
    );
    assert_eq!(s.cursor, 3);
    assert_eq!(s.total_errors, 1);
    assert_eq!(s.total_keystrokes, 3);
    assert_eq!(s.correction_marks, vec![false, true, false]);
    assert!(s.finished);
    assert_eq!(s.echo, chars("axc"));
}

#[test]
fn correction_mode_waits_for_the_right_key() {
    let mut s = Session::new(30, true, chars("ab"));
    type_all(
        &mut s,
        &[Keystroke::Char('x'), Keystroke::Char('a'), Keystroke::Char('b')],
        0,
        SEC / 10,
    );
    assert_eq!(s.cursor, 2);
    assert_eq!(s.total_errors, 1);
    assert_eq!(s.total_keystrokes, 3);
    assert_eq!(s.correction_marks, vec![true, false]);
    assert!(s.finished);
    assert_eq!(s.echo, chars("ab"));
}

#[test]
fn backspace_keeps_recorded_metrics() {
    let mut s = Session::new(30, false, chars("ab"));
    s.apply_keystroke(Keystroke::Char('a'), 5 * SEC);
    s.apply_keystroke(Keystroke::Backspace, 6 * SEC);
    assert_eq!(s.cursor, 0);
    assert!(s.echo.is_empty());
    assert_eq!(s.total_errors, 0);
    assert_eq!(s.total_keystrokes, 2);
    let i = s.metrics.find('a').expect("metrics for 'a'");
    assert_eq!(s.metrics.entries[i].1.times.len(), 1);
    assert!(!s.finished);
}

#[test]
fn timeout_ends_an_unfinished_session() {
    let mut s = Session::new(30, false, chars("abcdef"));
    s.apply_keystroke(Keystroke::Char('a'), 10 * SEC);
    s.tick_timeout(39 * SEC);
    assert!(!s.finished);
    s.tick_timeout(40 * SEC);
    assert!(s.finished);
    assert!(s.cursor < s.target.len());
}

#[test]
fn timeout_needs_a_first_keystroke() {
    let mut s = Session::new(1, false, chars("abc"));
    s.tick_timeout(100 * SEC);
    assert!(!s.finished);
    assert_eq!(s.elapsed(100 * SEC), 0);
}

#[test]
fn finished_session_ignores_keys() {
    let mut s = Session::new(30, false, chars("a"));
    s.apply_keystroke(Keystroke::Char('a'), 0);
    assert!(s.finished);
    s.apply_keystroke(Keystroke::Backspace, 1);
    s.apply_keystroke(Keystroke::Char('q'), 2);
    assert_eq!(s.cursor, 1);
    assert_eq!(s.total_keystrokes, 1);
    assert!(s.finished);
}

#[test]
fn correction_mode_mismatch_counts_one_error_against_expected() {
    let mut s = Session::new(30, true, chars("hello"));
    s.apply_keystroke(Keystroke::Char('h'), 0);
    s.apply_keystroke(Keystroke::Char('x'), 10);
    s.apply_keystroke(Keystroke::Char('y'), 20);
    assert_eq!(s.cursor, 1);
    assert_eq!(s.total_errors, 2);
    let i = s.metrics.find('e').expect("metrics for 'e'");
    assert_eq!(s.metrics.entries[i].1.errors, 2);
    assert_eq!(s.metrics.entries[i].1.times, vec![10, 20]);
    assert!(s.metrics.find('x').is_none());
    s.apply_keystroke(Keystroke::Char('e'), 35);
    assert_eq!(s.cursor, 2);
    assert_eq!(s.metrics.entries[i].1.times, vec![10, 20, 35]);
}

#[test]
fn normal_mode_advances_on_every_character() {
    let mut s = Session::new(30, false, chars("abcd"));
    for (n, c) in ['z', 'b', 'q', 'd'].iter().enumerate() {
        s.apply_keystroke(Keystroke::Char(*c), n as u64);
        assert_eq!(s.cursor, n + 1);
    }
    assert_eq!(s.total_errors, 2);
    assert_eq!(s.correction_marks, vec![true, false, true, false]);
}

#[test]
fn marks_survive_backspace_and_retyping() {
    let mut s = Session::new(30, false, chars("abc"));
    s.apply_keystroke(Keystroke::Char('x'), 0);
    s.apply_keystroke(Keystroke::Backspace, 1);
    s.apply_keystroke(Keystroke::Char('a'), 2);
    assert_eq!(s.cursor, 1);
    assert_eq!(s.correction_marks, vec![true, false, false]);
    assert_eq!(s.total_errors, 1);
    assert_eq!(s.total_keystrokes, 3);
}

#[test]
fn cursor_stays_within_text() {
    let text = "the cat";
    for correction in [false, true] {
        let mut s = Session::new(30, correction, chars(text));
        let keys = "thx\u{8}e cqt zzzzzzzzzzzz";
        let mut now = 0;
        for c in keys.chars() {
            let k = if c == '\u{8}' { Keystroke::Backspace } else { Keystroke::Char(c) };
            s.apply_keystroke(k, now);
            now += 1000;
            assert!(s.cursor <= s.target.len());
            assert_eq!(s.echo.len(), s.cursor);
            assert!(s.total_errors <= s.total_keystrokes);
        }
        for _ in 0..20 {
            s.apply_keystroke(Keystroke::Backspace, now);
            assert!(s.cursor <= s.target.len());
        }
    }
}

#[test]
fn backspace_at_start_does_nothing_but_start_the_clock() {
    let mut s = Session::new(30, false, chars("ab"));
    s.apply_keystroke(Keystroke::Backspace, 7 * SEC);
    assert_eq!(s.cursor, 0);
    assert_eq!(s.total_keystrokes, 0);
    assert_eq!(s.started_at, Some(7 * SEC));
    assert_eq!(s.elapsed(9 * SEC), 2 * SEC);
}

#[test]
fn accuracy_is_full_before_typing() {
    let s = Session::new(30, false, chars("abc"));
    assert_eq!(s.accuracy(), 10000);
}

#[test]
fn accuracy_counts_error_free_keystrokes() {
    let mut s = Session::new(30, false, chars("abcd"));
    type_all(
        &mut s,
        &[Keystroke::Char('a'), Keystroke::Char('x'), Keystroke::Char('c')],
        0,
        1,
    );
    assert_eq!(s.accuracy(), 6666);
    s.apply_keystroke(Keystroke::Char('d'), 10);
    assert_eq!(s.accuracy(), 7500);
}

#[test]
fn accuracy_is_zero_when_every_key_was_wrong() {
    let mut s = Session::new(30, true, chars("a"));
    s.apply_keystroke(Keystroke::Char('b'), 0);
    s.apply_keystroke(Keystroke::Char('c'), 1);
    assert_eq!(s.accuracy(), 0);
}

#[test]
fn wpm_readings_follow_the_clock() {
    let text: String = std::iter::repeat("a").take(100).collect();
    let mut s = Session::new(60, false, chars(&text));
    s.apply_keystroke(Keystroke::Char('a'), 0);
    for n in 1..50u64 {
        s.apply_keystroke(Keystroke::Char('a'), n * SEC / 10);
    }
    assert_eq!(s.cursor, 50);
    let samples = &s.wpm.samples;
    assert!(!samples.is_empty());
    assert!(samples[0].at >= 2 * SEC);
    for w in samples.windows(2) {
        assert!(w[1].at >= w[0].at + SEC);
    }
    for x in samples {
        assert!(x.wpm <= 50_000);
    }
    assert_eq!(samples[0].at, 2 * SEC);
    assert_eq!(samples[0].wpm, 21 * 1_200_000_000_000 / (2 * SEC));
    assert_eq!(s.current_wpm(), samples[samples.len() - 1].wpm);
}

#[test]
fn restart_starts_over() {
    let mut s = Session::new(45, true, chars("ab"));
    s.apply_keystroke(Keystroke::Char('x'), 0);
    s.restart(chars("xyz"));
    assert_eq!(s.target, chars("xyz"));
    assert_eq!(s.cursor, 0);
    assert_eq!(s.total_errors, 0);
    assert_eq!(s.total_keystrokes, 0);
    assert_eq!(s.correction_marks, vec![false, false, false]);
    assert!(s.correction_mode);
    assert_eq!(s.duration_secs, 45);
    assert!(s.started_at.is_none());
    assert!(s.metrics.entries.is_empty());
    assert!(s.wpm.samples.is_empty());
}

#[test]
fn characters_are_shown_by_what_was_typed() {
    let mut s = Session::new(30, false, chars("abcde"));
    s.apply_keystroke(Keystroke::Char('a'), 0);
    s.apply_keystroke(Keystroke::Char('x'), 1);
    s.apply_keystroke(Keystroke::Char('c'), 2);
    assert_eq!(s.char_state(0), CharState::Correct);
    assert_eq!(s.char_state(1), CharState::Wrong);
    assert_eq!(s.char_state(2), CharState::Correct);
    assert_eq!(s.char_state(3), CharState::Current);
    assert_eq!(s.char_state(4), CharState::Pending);
    s.apply_keystroke(Keystroke::Backspace, 3);
    s.apply_keystroke(Keystroke::Backspace, 4);
    s.apply_keystroke(Keystroke::Char('b'), 5);
    assert_eq!(s.char_state(1), CharState::Corrected);
    assert_eq!(s.char_state(2), CharState::Current);
}
