//! Core of a terminal typing trainer: the keystroke-matching session engine,
//! per-character latency and error analytics, a windowed words-per-minute
//! sampler and the heatmap classification of per-character metrics, with the
//! assembly of target texts from word lists.
//!
//! Time is passed in as plain integers: instants and latencies are counted in
//! nanoseconds, words per minute and percentages in hundredths.

pub mod config;
pub mod heatmap;
pub mod metrics;
pub mod ranking;
pub mod session;
pub mod text;
pub mod wpm;

pub use config::{validate_word_length, TextSource, WordLengthError};
pub use heatmap::{AccuracyBand, SpeedBand};
pub use metrics::{KeyMetrics, KeyMetricsTracker};
pub use ranking::Ranking;
pub use session::{CharState, Keystroke, Session};
pub use text::{
    builtin_samples, dictionary_words, generate_builtin_text, generate_text_or_builtin,
    generate_word_text,
};
pub use wpm::{WpmSample, WpmSampler};
