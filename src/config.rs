use vstd::prelude::*;
use crate::text::{chars_of, MIN_WORD_LENGTH};

verus! {

/// Longest word length that can be asked for.
pub const MAX_WORD_LENGTH_LIMIT: usize = 20;

/// Where the words of a session's text come from.
#[derive(Clone, Copy, Debug, PartialEq, Eq, Structural)]
pub enum TextSource {
    /// The bundled list of the most frequent English words.
    Google10k,
    /// The system's word list.
    SystemDict,
    /// The built-in sample passages.
    Builtin,
}

/// What `str::to_lowercase` makes of a string.
pub uninterp spec fn lower_of(s: Seq<char>) -> Seq<char>;

/// Relies on `str::to_lowercase`, whose result depends on the characters
/// alone, and is empty for an empty string.
#[verifier::external_body]
fn lowercase(s: &str) -> (r: String)
    ensures
        r@ == lower_of(s@),
        s@.len() == 0 ==> r@.len() == 0,
{
    s.to_lowercase()
}

/// The source that a lowercase name selects.
pub open spec fn source_named(n: Seq<char>) -> Option<TextSource> {
    if n == "google"@ || n == "google10k"@ || n == "top10k"@ {
        Some(TextSource::Google10k)
    } else if n == "system"@ || n == "dict"@ || n == "dictionary"@ {
        Some(TextSource::SystemDict)
    } else if n == "builtin"@ || n == "built-in"@ || n == "samples"@ {
        Some(TextSource::Builtin)
    } else {
        None
    }
}

/// The name under which a source is shown.
pub open spec fn source_name(t: TextSource) -> Seq<char> {
    match t {
        TextSource::Google10k => "google"@,
        TextSource::SystemDict => "system"@,
        TextSource::Builtin => "builtin"@,
    }
}

fn same_chars(a: &Vec<char>, b: &Vec<char>) -> (r: bool)
    ensures
        r == (a@ == b@),
{
    if a.len() != b.len() {
        return false;
    }
    let mut i: usize = 0;
    while i < a.len()
        invariant
            a@.len() == b@.len(),
            i <= a@.len(),
            forall|j: int| 0 <= j < i ==> a@[j] == b@[j],
        decreases a@.len() - i,
    {
        if a[i] != b[i] {
            return false;
        }
        i = i + 1;
    }
    assert(a@ =~= b@);
    true
}

fn is_one_of(n: &Vec<char>, a: &str, b: &str, c: &str) -> (r: bool)
    ensures
        r == (n@ == a@ || n@ == b@ || n@ == c@),
{
    same_chars(n, &chars_of(a)) || same_chars(n, &chars_of(b)) || same_chars(n, &chars_of(c))
}

impl TextSource {
    /// The source selected by `name`, which is already in lowercase.
    pub fn from_lowercase_name(name: &str) -> (r: Option<TextSource>)
        ensures
            r == source_named(name@),
    {
        let n = chars_of(name);
        if is_one_of(&n, "google", "google10k", "top10k") {
            Some(TextSource::Google10k)
        } else if is_one_of(&n, "system", "dict", "dictionary") {
            Some(TextSource::SystemDict)
        } else if is_one_of(&n, "builtin", "built-in", "samples") {
            Some(TextSource::Builtin)
        } else {
            None
        }
    }

    /// The source selected by `name`, in any case.
    pub fn from_name(name: &str) -> (r: Option<TextSource>)
        ensures
            r == source_named(lower_of(name@)),
    {
        let lower = lowercase(name);
        TextSource::from_lowercase_name(lower.as_str())
    }

    /// The name under which the source is shown.
    pub fn name(&self) -> (r: &'static str)
        ensures
            r@ == source_name(*self),
    {
        match self {
            TextSource::Google10k => "google",
            TextSource::SystemDict => "system",
            TextSource::Builtin => "builtin",
        }
    }
}

/// Value of a string of decimal digits.
pub open spec fn digits_value(d: Seq<char>) -> int
    decreases d.len(),
{
    if d.len() == 0 {
        0
    } else {
        digits_value(d.drop_last()) * 10 + (d.last() as int - '0' as int)
    }
}

/// What `usize`'s `FromStr` accepts: an optional `+`, then one or more
/// decimal digits and nothing else, whose value fits in a `usize`.
pub open spec fn parsed_usize(s: Seq<char>) -> Option<usize> {
    let d = if s.len() > 0 && s[0] == '+' {
        s.drop_first()
    } else {
        s
    };
    if d.len() > 0 && (forall|i: int| 0 <= i < d.len() ==> '0' <= #[trigger] d[i] <= '9') && digits_value(d)
        <= usize::MAX {
        Some(digits_value(d) as usize)
    } else {
        None
    }
}

/// Relies on `usize`'s `FromStr`, which takes an optional `+` followed by
/// decimal digits only, and fails on anything else or on overflow.
#[verifier::external_body]
fn parse_usize(s: &str) -> (r: Option<usize>)
    ensures
        r == parsed_usize(s@),
{
    s.parse::<usize>().ok()
}

/// Why a maximum word length was refused.
#[derive(Clone, Copy, Debug, PartialEq, Eq, Structural)]
pub enum WordLengthError {
    NotANumber,
    TooShort,
    TooLong,
}

impl WordLengthError {
    /// A sentence for the user.
    pub fn message(&self) -> (r: &'static str)
        ensures
            r@ == (match *self {
                WordLengthError::NotANumber => "Must be a positive integer"@,
                WordLengthError::TooShort => "Word length must be at least 3"@,
                WordLengthError::TooLong => "Word length must be 20 or less"@,
            }),
    {
        match self {
            WordLengthError::NotANumber => "Must be a positive integer",
            WordLengthError::TooShort => "Word length must be at least 3",
            WordLengthError::TooLong => "Word length must be 20 or less",
        }
    }
}

/// Reads a maximum word length, which must lie between `MIN_WORD_LENGTH`
/// and `MAX_WORD_LENGTH_LIMIT`.
pub fn validate_word_length(s: &str) -> (r: Result<usize, WordLengthError>)
    ensures
        r == (match parsed_usize(s@) {
            None => Err(WordLengthError::NotANumber),
            Some(v) => if v < MIN_WORD_LENGTH {
                Err(WordLengthError::TooShort)
            } else if v > MAX_WORD_LENGTH_LIMIT {
                Err(WordLengthError::TooLong)
            } else {
                Ok(v)
            },
        }),
{
    match parse_usize(s) {
        None => Err(WordLengthError::NotANumber),
        Some(v) => if v < MIN_WORD_LENGTH {
            Err(WordLengthError::TooShort)
        } else if v > MAX_WORD_LENGTH_LIMIT {
            Err(WordLengthError::TooLong)
        } else {
            Ok(v)
        },
    }
}

} // verus!
