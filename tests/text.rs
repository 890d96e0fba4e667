use ratatype::{
    builtin_samples, dictionary_words, generate_builtin_text, generate_text_or_builtin, generate_word_text,
    validate_word_length, TextSource, WordLengthError,
};

fn chars(s: &str) -> Vec<char> {
    s.chars().collect()
}

#[test]
fn dictionary_keeps_short_lowercase_words() {
    let content = "apple\nBanana\n  cat \nxy\nlongerword\nok-go\ndog\r\n\nzebra";
    let words = dictionary_words(content, 7);
    assert_eq!(words, vec![chars("apple"), chars("cat"), chars("dog"), chars("zebra")]);
    let words = dictionary_words(content, 3);
    assert_eq!(words, vec![chars("cat"), chars("dog")]);
    assert!(dictionary_words("", 7).is_empty());
}

#[test]
fn word_text_is_long_enough_and_made_of_words() {
    let words = vec![chars("alpha"), chars("beta"), chars("gamma")];
    let text = generate_word_text(&words);
    assert!(text.len() >= 500);
    let s: String = text.iter().collect();
    let tokens: Vec<&str> = s.split(' ').collect();
    for t in &tokens {
        assert!(["alpha", "beta", "gamma"].contains(t));
    }
    let without_last = s.len() - tokens[tokens.len() - 1].len() - 1;
    assert!(without_last < 500);
}

#[test]
fn builtin_text_uses_the_sample_passages() {
    let samples = builtin_samples();
    assert_eq!(samples.len(), 8);
    assert!(samples.iter().all(|p| !p.is_empty()));
    let text = generate_builtin_text();
    assert!(text.len() >= 500);
    let s: String = text.iter().collect();
    assert!(samples.iter().any(|p| s.starts_with(&p.iter().collect::<String>())));
}

#[test]
fn word_length_validation() {
    assert_eq!(validate_word_length("7"), Ok(7));
    assert_eq!(validate_word_length("3"), Ok(3));
    assert_eq!(validate_word_length("20"), Ok(20));
    assert_eq!(validate_word_length("+5"), Ok(5));
    assert_eq!(validate_word_length("2"), Err(WordLengthError::TooShort));
    assert_eq!(validate_word_length("21"), Err(WordLengthError::TooLong));
    assert_eq!(validate_word_length("abc"), Err(WordLengthError::NotANumber));
    assert_eq!(validate_word_length("-5"), Err(WordLengthError::NotANumber));
    assert_eq!(validate_word_length(""), Err(WordLengthError::NotANumber));
    assert_eq!(validate_word_length("99999999999999999999999"), Err(WordLengthError::NotANumber));
    assert_eq!(WordLengthError::TooShort.message(), "Word length must be at least 3");
    assert_eq!(WordLengthError::TooLong.message(), "Word length must be 20 or less");
    assert_eq!(WordLengthError::NotANumber.message(), "Must be a positive integer");
}

#[test]
fn text_source_names() {
    assert_eq!(TextSource::from_name("google"), Some(TextSource::Google10k));
    assert_eq!(TextSource::from_name("TOP10K"), Some(TextSource::Google10k));
    assert_eq!(TextSource::from_name("Dictionary"), Some(TextSource::SystemDict));
    assert_eq!(TextSource::from_name("BUILT-IN"), Some(TextSource::Builtin));
    assert_eq!(TextSource::from_name("samples"), Some(TextSource::Builtin));
    assert_eq!(TextSource::from_name("words"), None);
    assert_eq!(TextSource::from_lowercase_name("system"), Some(TextSource::SystemDict));
    assert_eq!(TextSource::from_lowercase_name("System"), None);
    assert_eq!(TextSource::Google10k.name(), "google");
    assert_eq!(TextSource::SystemDict.name(), "system");
    assert_eq!(TextSource::Builtin.name(), "builtin");
}

#[test]
fn empty_word_list_falls_back_to_passages() {
    let text = generate_text_or_builtin(&vec![]);
    assert!(text.len() >= 500);
    let s: String = text.iter().collect();
    let samples: Vec<String> = builtin_samples().iter().map(|p| p.iter().collect()).collect();
    assert!(samples.iter().any(|p| s.starts_with(p.as_str())));
    let words = vec![chars("kiwi")];
    let text: String = generate_text_or_builtin(&words).iter().collect();
    assert!(text.split(' ').all(|t| t == "kiwi"));
}
