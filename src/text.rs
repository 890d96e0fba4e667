use vstd::prelude::*;
use rand::Rng;

verus! {

/// Generated texts are at least this many characters long.
pub const MIN_TEXT_LENGTH: usize = 500;

/// Shortest word taken from a word list.
pub const MIN_WORD_LENGTH: usize = 3;

/// Relies on rand's `thread_rng` and `Rng::gen_range`, which returns a value
/// of the half-open range it is given and panics only when it is empty.
#[verifier::external_body]
fn random_below(n: usize) -> (r: usize)
    requires
        n > 0,
    ensures
        r < n,
{
    rand::thread_rng().gen_range(0..n)
}

/// The characters of `s`, in order.
pub(crate) fn chars_of(s: &str) -> (r: Vec<char>)
    ensures
        r@ == s@,
{
    let mut r: Vec<char> = Vec::new();
    for c in it: s.chars()
        invariant
            it.seq() == s@,
            r@ == it.seq().take(it.index() as int),
    {
        r.push(c);
        assert(r@ =~= it.seq().take(it.index() as int + 1));
    }
    assert(s@.take(s@.len() as int) =~= s@);
    r
}

/// The characters of each word.
pub open spec fn views(words: Seq<Vec<char>>) -> Seq<Seq<char>> {
    words.map_values(|w: Vec<char>| w@)
}

/// The words `picks` chooses from `words`, separated by single spaces.
pub open spec fn joined(words: Seq<Seq<char>>, picks: Seq<int>) -> Seq<char>
    decreases picks.len(),
{
    if picks.len() == 0 {
        Seq::empty()
    } else if picks.len() == 1 {
        words[picks[0]]
    } else {
        joined(words, picks.drop_last()) + seq![' '] + words[picks.last()]
    }
}

/// `picks` are positions in a list of `n` words.
pub open spec fn valid_picks(picks: Seq<int>, n: int) -> bool {
    forall|k: int| 0 <= k < picks.len() ==> 0 <= #[trigger] picks[k] < n
}

/// `text` is made of randomly chosen words, space-separated, added until it
/// reached `MIN_TEXT_LENGTH` characters and no further.
pub open spec fn is_generated_text(words: Seq<Seq<char>>, text: Seq<char>) -> bool {
    exists|picks: Seq<int>|
        {
            &&& valid_picks(picks, words.len() as int)
            &&& picks.len() > 0
            &&& #[trigger] joined(words, picks) == text
            &&& text.len() >= MIN_TEXT_LENGTH
            &&& joined(words, picks.drop_last()).len() < MIN_TEXT_LENGTH
        }
}

fn append_chars(text: &mut Vec<char>, w: &Vec<char>)
    ensures
        final(text)@ == old(text)@ + w@,
{
    let mut j: usize = 0;
    while j < w.len()
        invariant
            j <= w@.len(),
            text@ == old(text)@ + w@.take(j as int),
        decreases w@.len() - j,
    {
        text.push(w[j]);
        j = j + 1;
        assert(text@ =~= old(text)@ + w@.take(j as int));
    }
    assert(w@.take(w@.len() as int) =~= w@);
}

/// A text of randomly chosen words from `words`, separated by spaces, at
/// least `MIN_TEXT_LENGTH` characters long.
pub fn generate_word_text(words: &Vec<Vec<char>>) -> (r: Vec<char>)
    requires
        words@.len() > 0,
    ensures
        is_generated_text(views(words@), r@),
{
    let ghost ws = views(words@);
    let mut text: Vec<char> = Vec::new();
    let mut first = true;
    let ghost mut picks: Seq<int> = Seq::empty();
    while text.len() < MIN_TEXT_LENGTH
        invariant
            ws == views(words@),
            words@.len() > 0,
            valid_picks(picks, ws.len() as int),
            text@ == joined(ws, picks),
            first <==> picks.len() == 0,
            picks.len() > 0 ==> joined(ws, picks.drop_last()).len() < MIN_TEXT_LENGTH,
        decreases (if text@.len() < MIN_TEXT_LENGTH {
            MIN_TEXT_LENGTH - text@.len()
        } else {
            0
        }) + (if first {
            1int
        } else {
            0int
        }),
    {
        let i = random_below(words.len());
        let ghost old_picks = picks;
        if !first {
            text.push(' ');
        }
        first = false;
        append_chars(&mut text, &words[i]);
        proof {
            picks = picks.push(i as int);
            assert(picks.drop_last() =~= old_picks);
            assert(ws[i as int] == words@[i as int]@);
            assert(text@ =~= joined(ws, picks));
        }
    }
    text
}

/// The sample passages used when no word list is at hand.
pub open spec fn passages() -> Seq<Seq<char>> {
    seq![
        "The quick brown fox jumps over the lazy dog. This pangram contains every letter of the alphabet at least once."@,
        "In a hole in the ground there lived a hobbit. Not a nasty, dirty, wet hole filled with the ends of worms and an oozy smell."@,
        "To be or not to be, that is the question. Whether 'tis nobler in the mind to suffer the slings and arrows of outrageous fortune."@,
        "It was the best of times, it was the worst of times, it was the age of wisdom, it was the age of foolishness and doubt."@,
        "All human beings are born free and equal in dignity and rights. They are endowed with reason and conscience."@,
        "The only way to do great work is to love what you do. If you haven't found it yet, keep looking and don't settle."@,
        "Two things are infinite: the universe and human stupidity; and I'm not sure about the universe and its vast mysteries."@,
        "In the midst of winter, I found there was, within me, an invincible summer that could not be defeated by any force."@,
    ]
}

/// The sample passages, as character vectors.
pub fn builtin_samples() -> (r: Vec<Vec<char>>)
    ensures
        views(r@) == passages(),
{
    let mut r: Vec<Vec<char>> = Vec::new();
    r.push(chars_of("The quick brown fox jumps over the lazy dog. This pangram contains every letter of the alphabet at least once."));
    r.push(chars_of("In a hole in the ground there lived a hobbit. Not a nasty, dirty, wet hole filled with the ends of worms and an oozy smell."));
    r.push(chars_of("To be or not to be, that is the question. Whether 'tis nobler in the mind to suffer the slings and arrows of outrageous fortune."));
    r.push(chars_of("It was the best of times, it was the worst of times, it was the age of wisdom, it was the age of foolishness and doubt."));
    r.push(chars_of("All human beings are born free and equal in dignity and rights. They are endowed with reason and conscience."));
    r.push(chars_of("The only way to do great work is to love what you do. If you haven't found it yet, keep looking and don't settle."));
    r.push(chars_of("Two things are infinite: the universe and human stupidity; and I'm not sure about the universe and its vast mysteries."));
    r.push(chars_of("In the midst of winter, I found there was, within me, an invincible summer that could not be defeated by any force."));
    assert(views(r@) =~= passages());
    r
}

/// A text made of randomly chosen sample passages.
pub fn generate_builtin_text() -> (r: Vec<char>)
    ensures
        is_generated_text(passages(), r@),
{
    let samples = builtin_samples();
    assert(passages().len() == 8);
    assert(views(samples@).len() == samples@.len());
    generate_word_text(&samples)
}

/// A text from `words`, or from the sample passages when there are none.
pub fn generate_text_or_builtin(words: &Vec<Vec<char>>) -> (r: Vec<char>)
    ensures
        words@.len() > 0 ==> is_generated_text(views(words@), r@),
        words@.len() == 0 ==> is_generated_text(passages(), r@),
{
    if words.len() > 0 {
        generate_word_text(words)
    } else {
        generate_builtin_text()
    }
}

/// Whitespace trimmed from the ends of a word-list line.
pub open spec fn is_space(c: char) -> bool {
    c == ' ' || c == '\t' || c == '\r' || c == '\x0B' || c == '\x0C'
}

pub open spec fn trim_end(l: Seq<char>) -> Seq<char>
    decreases l.len(),
{
    if l.len() > 0 && is_space(l.last()) {
        trim_end(l.drop_last())
    } else {
        l
    }
}

pub open spec fn trim_start(l: Seq<char>) -> Seq<char>
    decreases l.len(),
{
    if l.len() > 0 && is_space(l.first()) {
        trim_start(l.drop_first())
    } else {
        l
    }
}

pub open spec fn trim(l: Seq<char>) -> Seq<char> {
    trim_start(trim_end(l))
}

/// A usable word: between `MIN_WORD_LENGTH` and `max_len` characters, all
/// lowercase ASCII letters.
pub open spec fn is_word(w: Seq<char>, max_len: int) -> bool {
    &&& MIN_WORD_LENGTH <= w.len() <= max_len
    &&& forall|i: int| 0 <= i < w.len() ==> 'a' <= #[trigger] w[i] <= 'z'
}

/// The pieces of `s` between line feeds; the last piece is what follows the
/// last line feed.
pub open spec fn split_lines(s: Seq<char>) -> Seq<Seq<char>>
    decreases s.len(),
{
    if s.len() == 0 {
        seq![Seq::empty()]
    } else if s.last() == '\n' {
        split_lines(s.drop_last()).push(Seq::empty())
    } else {
        let p = split_lines(s.drop_last());
        p.update(p.len() - 1, p.last().push(s.last()))
    }
}

/// The trimmed lines that are usable words, in order.
pub open spec fn words_of(lines: Seq<Seq<char>>, max_len: int) -> Seq<Seq<char>>
    decreases lines.len(),
{
    if lines.len() == 0 {
        Seq::empty()
    } else if is_word(trim(lines.last()), max_len) {
        words_of(lines.drop_last(), max_len).push(trim(lines.last()))
    } else {
        words_of(lines.drop_last(), max_len)
    }
}

proof fn lemma_split_lines_nonempty(s: Seq<char>)
    ensures
        split_lines(s).len() >= 1,
    decreases s.len(),
{
    if s.len() > 0 {
        lemma_split_lines_nonempty(s.drop_last());
    }
}

fn trim_chars(l: &Vec<char>) -> (r: Vec<char>)
    ensures
        r@ == trim(l@),
{
    let mut e: usize = l.len();
    assert(l@.take(e as int) =~= l@);
    while e > 0 && (l[e - 1] == ' ' || l[e - 1] == '\t' || l[e - 1] == '\r' || l[e - 1] == '\x0B' || l[e - 1] == '\x0C')
        invariant
            e <= l@.len(),
            trim_end(l@) == trim_end(l@.take(e as int)),
        decreases e,
    {
        assert(l@.take(e as int).drop_last() =~= l@.take(e as int - 1));
        e = e - 1;
    }
    let ghost t = l@.take(e as int);
    assert(trim_end(t) == t);
    let mut b: usize = 0;
    assert(t.subrange(0, e as int) =~= t);
    while b < e && (l[b] == ' ' || l[b] == '\t' || l[b] == '\r' || l[b] == '\x0B' || l[b] == '\x0C')
        invariant
            b <= e <= l@.len(),
            t == l@.take(e as int),
            trim_start(t) == trim_start(t.subrange(b as int, e as int)),
        decreases e - b,
    {
        assert(t.subrange(b as int, e as int).drop_first() =~= t.subrange(b as int + 1, e as int));
        b = b + 1;
    }
    let mut r: Vec<char> = Vec::new();
    let mut k: usize = b;
    while k < e
        invariant
            b <= k <= e <= l@.len(),
            r@ == l@.subrange(b as int, k as int),
        decreases e - k,
    {
        r.push(l[k]);
        k = k + 1;
        assert(r@ =~= l@.subrange(b as int, k as int));
    }
    assert(t.subrange(b as int, e as int) =~= l@.subrange(b as int, e as int));
    r
}

fn is_word_chars(w: &Vec<char>, max_len: usize) -> (r: bool)
    ensures
        r == is_word(w@, max_len as int),
{
    if w.len() < MIN_WORD_LENGTH || w.len() > max_len {
        return false;
    }
    let mut i: usize = 0;
    while i < w.len()
        invariant
            i <= w@.len(),
            forall|j: int| 0 <= j < i ==> 'a' <= #[trigger] w@[j] <= 'z',
        decreases w@.len() - i,
    {
        if w[i] < 'a' || w[i] > 'z' {
            return false;
        }
        i = i + 1;
    }
    true
}

/// The usable words of a word list with one word per line: each line is
/// trimmed, and kept if it is between `MIN_WORD_LENGTH` and `max_word_length`
/// lowercase ASCII letters.
pub fn dictionary_words(content: &str, max_word_length: usize) -> (r: Vec<Vec<char>>)
    ensures
        views(r@) == words_of(split_lines(content@), max_word_length as int),
{
    let cs = chars_of(content);
    let mut out: Vec<Vec<char>> = Vec::new();
    let mut line: Vec<char> = Vec::new();
    let mut i: usize = 0;
    while i < cs.len()
        invariant
            cs@ == content@,
            i <= cs@.len(),
            views(out@) == words_of(split_lines(cs@.take(i as int)).drop_last(), max_word_length as int),
            line@ == split_lines(cs@.take(i as int)).last(),
        decreases cs@.len() - i,
    {
        let ghost p = split_lines(cs@.take(i as int));
        proof {
            lemma_split_lines_nonempty(cs@.take(i as int));
            assert(cs@.take(i as int + 1).drop_last() =~= cs@.take(i as int));
        }
        let c = cs[i];
        let ghost old_out = out@;
        if c == '\n' {
            let t = trim_chars(&line);
            if is_word_chars(&t, max_word_length) {
                out.push(t);
                assert(views(out@) =~= views(old_out).push(t@));
            }
            line = Vec::new();
            assert(split_lines(cs@.take(i as int + 1)).drop_last() =~= p);
        } else {
            line.push(c);
            assert(split_lines(cs@.take(i as int + 1)).drop_last() =~= p.drop_last());
        }
        i = i + 1;
    }
    proof {
        lemma_split_lines_nonempty(cs@);
        assert(cs@.take(cs@.len() as int) =~= cs@);
    }
    let t = trim_chars(&line);
    let ghost old_out = out@;
    if is_word_chars(&t, max_word_length) {
        out.push(t);
        assert(views(out@) =~= views(old_out).push(t@));
    }
    out
}

} // verus!
