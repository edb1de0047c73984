//! Homophone lookup for Japanese words.
//!
//! Given a word in kanji, hiragana or katakana, a lookup finds every word of
//! a dictionary that is read like it and ranks the words by frequency. With
//! a table of pitch accents it also tells the words that sound like the
//! query from those that are merely spelt alike in kana.
//!
//! The dictionary and the pitch table are values that the caller builds and
//! hands to each lookup; a lookup keeps nothing between calls.
//!
//! - [`kana_utils`]: katakana to hiragana, long-vowel marks spelt out;
//! - [`dictionary`]: entries, priorities and the pitch table;
//! - [`score`]: the frequency score of a priority record;
//! - [`collector`]: the two walks over the dictionary that gather candidates;
//! - [`ranking`]: the stable order by descending score;
//! - [`resolver`]: the three kinds of outcome and the split by pitch;
//! - [`katakana_support`]: the plain lookup;
//! - [`collection_laws`], [`agreement`]: what holds of every lookup.

use vstd::prelude::*;

pub mod agreement;
pub mod collection_laws;
pub mod collector;
pub mod dictionary;
pub mod kana_utils;
pub mod katakana_support;
pub mod ranking;
pub mod resolver;
pub mod score;
pub mod words;

pub use crate::dictionary::{
    Dictionary, DictionaryEntry, KanjiElement, PitchAccentSource, PitchRecord, Priority,
    PriorityInCorpus, ReadingElement,
};
pub use crate::resolver::find_with_nhk;
pub use crate::score::calculate_frequency_score;
pub use crate::words::{FindWithNhkResult, WordFrequency, WordFrequencyWithPitch};

verus! {

/// Finds the homophones of `word`: every word of the dictionary that is read
/// like it, in descending order of frequency score, each pair of text and
/// reading once. Pitch accents play no part.
pub fn find(dict: &Dictionary, word: &str) -> (r: Vec<WordFrequency>)
    requires
        dict.well_formed(),
    ensures
        crate::words::views(r@) == crate::katakana_support::homophones(dict@, word@),
        crate::ranking::sorted_by_score(crate::words::views(r@)),
        crate::collector::distinct_keys(crate::words::views(r@)),
{
    crate::katakana_support::find_with_katakana_support(dict, word)
}

} // verus!
