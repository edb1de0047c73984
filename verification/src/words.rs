//! The words that a lookup hands back, and how the contracts see them.

use vstd::prelude::*;

verus! {

/// The views of the items of `s`, in order.
pub open spec fn views<T: View>(s: Seq<T>) -> Seq<T::V> {
    Seq::new(s.len(), |i: int| s[i]@)
}

/// A word found by a lookup, as the contracts see it: a surface text with one
/// of its readings, the frequency score and the common-word mark of that
/// pair, and its accepted pitch accents.
pub struct Candidate {
    pub text: Seq<char>,
    pub reading: Seq<char>,
    pub frequency_score: nat,
    pub is_common: bool,
    pub pitch_accent: Seq<u8>,
}

/// A word with its frequency.
#[derive(Debug, Clone, PartialEq)]
pub struct WordFrequency {
    pub text: String,
    pub reading: String,
    pub frequency_score: u32,
    pub is_common: bool,
}

/// A word with its frequency and its accepted pitch accents, in order of
/// preference.
#[derive(Debug, Clone, PartialEq)]
pub struct WordFrequencyWithPitch {
    pub text: String,
    pub reading: String,
    pub frequency_score: u32,
    pub is_common: bool,
    pub pitch_accent: Vec<u8>,
}

impl View for WordFrequencyWithPitch {
    type V = Candidate;

    open spec fn view(&self) -> Candidate {
        Candidate {
            text: self.text@,
            reading: self.reading@,
            frequency_score: self.frequency_score as nat,
            is_common: self.is_common,
            pitch_accent: self.pitch_accent@,
        }
    }
}

impl View for WordFrequency {
    type V = Candidate;

    /// A word without pitch data is seen as one whose accents are unknown.
    open spec fn view(&self) -> Candidate {
        Candidate {
            text: self.text@,
            reading: self.reading@,
            frequency_score: self.frequency_score as nat,
            is_common: self.is_common,
            pitch_accent: Seq::empty(),
        }
    }
}

/// The outcome of a lookup with pitch accents, as the contracts see it.
pub enum Resolution {
    NoHomophones,
    UniqueMatch {
        pitch_accent: Seq<u8>,
        true_homophones: Seq<Candidate>,
        different_pitch_homophones: Seq<Candidate>,
    },
    MultipleMatches { homophones: Seq<Candidate> },
}

/// The outcome of a lookup with pitch accents.
#[derive(Debug, Clone, PartialEq)]
pub enum FindWithNhkResult {
    /// The query names at most one word.
    NoHomophones,
    /// The query is the surface text of a word. `pitch_accent` holds the
    /// accents of that word; the words that are read like it are split into
    /// those that also sound like it and those that do not.
    UniqueMatch {
        pitch_accent: Vec<u8>,
        true_homophones: Vec<WordFrequencyWithPitch>,
        different_pitch_homophones: Vec<WordFrequencyWithPitch>,
    },
    /// The query is a reading that several words share.
    MultipleMatches { homophones: Vec<WordFrequencyWithPitch> },
}

impl View for FindWithNhkResult {
    type V = Resolution;

    open spec fn view(&self) -> Resolution {
        match self {
            FindWithNhkResult::NoHomophones => Resolution::NoHomophones,
            FindWithNhkResult::UniqueMatch {
                pitch_accent,
                true_homophones,
                different_pitch_homophones,
            } => Resolution::UniqueMatch {
                pitch_accent: pitch_accent@,
                true_homophones: views(true_homophones@),
                different_pitch_homophones: views(different_pitch_homophones@),
            },
            FindWithNhkResult::MultipleMatches { homophones } => Resolution::MultipleMatches {
                homophones: views(homophones@),
            },
        }
    }
}

} // verus!
