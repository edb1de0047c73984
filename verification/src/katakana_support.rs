//! The plain lookup: the homophones of a word in hiragana, katakana or
//! kanji, ranked by frequency, without regard to pitch.

use vstd::prelude::*;
use crate::collector::{collect, collection, distinct_keys};
use crate::dictionary::{Dictionary, EntryView, PitchAccentSource, PitchRecordView};
use crate::ranking::{rank, ranked, sorted_by_score};
use crate::words::{views, Candidate, WordFrequency, WordFrequencyWithPitch};

verus! {

/// `c` with its pitch accents left out.
pub open spec fn without_pitch(c: Candidate) -> Candidate {
    Candidate { pitch_accent: Seq::empty(), ..c }
}

/// The candidates of `s`, in order, each without its pitch accents.
pub open spec fn without_pitches(s: Seq<Candidate>) -> Seq<Candidate> {
    Seq::new(s.len(), |i: int| without_pitch(s[i]))
}

/// The homophones of `query`: what a collection run without pitch data
/// gathers, ranked.
pub open spec fn homophones(dict: Seq<EntryView>, query: Seq<char>) -> Seq<Candidate> {
    without_pitches(ranked(collection(dict, Seq::<PitchRecordView>::empty(), query).candidates))
}

/// Leaving the pitch accents out changes neither the order by score nor the
/// keys.
pub proof fn lemma_without_pitches(s: Seq<Candidate>)
    ensures
        without_pitches(s).len() == s.len(),
        sorted_by_score(s) ==> sorted_by_score(without_pitches(s)),
        distinct_keys(s) ==> distinct_keys(without_pitches(s)),
{
    let w = without_pitches(s);
    if sorted_by_score(s) {
        assert forall|i: int, j: int| 0 <= i < j < w.len() implies (#[trigger] w[i]).frequency_score
            >= (#[trigger] w[j]).frequency_score by {
            assert(w[i] == without_pitch(s[i]) && w[j] == without_pitch(s[j]));
        }
    }
    if distinct_keys(s) {
        assert forall|i: int, j: int| 0 <= i < j < w.len() implies !((#[trigger] w[i]).text == (
        #[trigger] w[j]).text && w[i].reading == w[j].reading) by {
            assert(w[i] == without_pitch(s[i]) && w[j] == without_pitch(s[j]));
        }
    }
}

/// The words of `words`, in order, without their pitch accents.
pub fn strip_pitch(words: &Vec<WordFrequencyWithPitch>) -> (out: Vec<WordFrequency>)
    ensures
        views(out@) == without_pitches(views(words@)),
{
    let mut out: Vec<WordFrequency> = Vec::new();
    let mut i: usize = 0;
    while i < words.len()
        invariant
            i <= words@.len(),
            out@.len() == i,
            forall|j: int| 0 <= j < i ==> (#[trigger] out@[j])@ == without_pitch(words@[j]@),
        decreases words@.len() - i,
    {
        let w = &words[i];
        out.push(
            WordFrequency {
                text: w.text.clone(),
                reading: w.reading.clone(),
                frequency_score: w.frequency_score,
                is_common: w.is_common,
            },
        );
        i += 1;
    }
    assert(views(out@) =~= without_pitches(views(words@)));
    out
}

/// Finds the homophones of `word`, which may be written in katakana: every
/// word of the dictionary that is read like it, in descending order of
/// frequency score, each pair of text and reading once.
pub fn find_with_katakana_support(dict: &Dictionary, word: &str) -> (r: Vec<WordFrequency>)
    requires
        dict.well_formed(),
    ensures
        views(r@) == homophones(dict@, word@),
        sorted_by_score(views(r@)),
        distinct_keys(views(r@)),
{
    let pitch = PitchAccentSource::empty();
    let st = collect(dict, &pitch, word);
    let all = rank(st.candidates);
    proof {
        lemma_without_pitches(views(all@));
    }
    strip_pitch(&all)
}

} // verus!
