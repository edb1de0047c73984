//! The homophone resolver: ranks what the collector gathered and sorts the
//! outcome into one of three kinds.

use vstd::prelude::*;
use crate::collector::{
    collect, collection, contains_reading, distinct_keys, Collection, Collector,
};
use crate::collection_laws::{
    is_reading_of_query, is_surface_text, lemma_exact_match, lemma_unknown_query,
};
use crate::dictionary::{
    copy_accents, well_formed_entries, Dictionary, EntryView, PitchAccentSource, PitchRecordView,
};
use crate::kana_utils::has_katakana;
use crate::ranking::{lemma_ranked, rank, ranked, sorted_by_score};
use crate::words::{views, Candidate, FindWithNhkResult, Resolution, WordFrequencyWithPitch};

verus! {

/// All candidates of `s` have one surface text: `s` names at most one word.
pub open spec fn single_text(s: Seq<Candidate>) -> bool {
    forall|i: int, j: int|
        0 <= i < s.len() && 0 <= j < s.len() ==> (#[trigger] s[i]).text == (#[trigger] s[j]).text
}

/// Some accent of `a` is an accent of `b`.
pub open spec fn shares_pitch(a: Seq<u8>, b: Seq<u8>) -> bool {
    exists|i: int| 0 <= i < a.len() && b.contains(#[trigger] a[i])
}

/// `c` sounds like the query's word, whose accents are `target`: it is that
/// word, or the two share an accent, or the accents of one of them are
/// unknown.
pub open spec fn sounds_like(c: Candidate, query: Seq<char>, target: Seq<u8>) -> bool {
    c.text == query || target.len() == 0 || c.pitch_accent.len() == 0 || shares_pitch(
        target,
        c.pitch_accent,
    )
}

/// The candidates whose reading is one of `targets`.
pub open spec fn read_as(targets: Seq<Seq<char>>) -> spec_fn(Candidate) -> bool {
    |c: Candidate| targets.contains(c.reading)
}

/// The candidates that sound like the query's word.
pub open spec fn true_homophone(query: Seq<char>, target: Seq<u8>) -> spec_fn(Candidate) -> bool {
    |c: Candidate| sounds_like(c, query, target)
}

/// The candidates that are read like the query's word and sound otherwise.
pub open spec fn fake_homophone(query: Seq<char>, target: Seq<u8>) -> spec_fn(Candidate) -> bool {
    |c: Candidate| !sounds_like(c, query, target)
}

/// The outcome for what a collection run gathered. Where the query is a word
/// of the dictionary, only candidates with one of its readings count: one
/// surface text among them means no homophones, else they are split by
/// pitch. Where the query is a mere reading, every candidate counts: one
/// surface text means no homophones, else all are handed back.
pub open spec fn resolution(col: Collection, query: Seq<char>) -> Resolution {
    let all = ranked(col.candidates);
    if col.exact_match {
        let same = all.filter(read_as(col.target_readings));
        if single_text(same) {
            Resolution::NoHomophones
        } else {
            Resolution::UniqueMatch {
                pitch_accent: col.target_pitches,
                true_homophones: same.filter(true_homophone(query, col.target_pitches)),
                different_pitch_homophones: same.filter(
                    fake_homophone(query, col.target_pitches),
                ),
            }
        }
    } else if single_text(all) {
        Resolution::NoHomophones
    } else {
        Resolution::MultipleMatches { homophones: all }
    }
}

/// The outcome of a lookup of `query` with pitch accents.
pub open spec fn resolve(
    dict: Seq<EntryView>,
    pitch: Seq<PitchRecordView>,
    query: Seq<char>,
) -> Resolution {
    resolution(collection(dict, pitch, query), query)
}

/// Every list of the outcome is in descending order of score and holds no
/// pair of text and reading twice.
pub open spec fn lists_in_order(r: Resolution) -> bool {
    match r {
        Resolution::NoHomophones => true,
        Resolution::UniqueMatch { pitch_accent, true_homophones, different_pitch_homophones } => {
            &&& sorted_by_score(true_homophones)
            &&& sorted_by_score(different_pitch_homophones)
            &&& distinct_keys(true_homophones)
            &&& distinct_keys(different_pitch_homophones)
        },
        Resolution::MultipleMatches { homophones } => {
            &&& sorted_by_score(homophones)
            &&& distinct_keys(homophones)
            &&& !single_text(homophones)
        },
    }
}

/// The split by pitch is consistent: a true homophone is the query's word,
/// or shares an accent with it, or the accents of one of the two are
/// unknown; a homophone of different pitch has known accents, none of which
/// is an accent of the query's word, whose accents are known too.
pub open spec fn split_by_pitch(r: Resolution, query: Seq<char>) -> bool {
    match r {
        Resolution::UniqueMatch { pitch_accent, true_homophones, different_pitch_homophones } => {
            &&& forall|i: int|
                0 <= i < true_homophones.len() ==> {
                    let c = #[trigger] true_homophones[i];
                    c.text == query || shares_pitch(pitch_accent, c.pitch_accent)
                        || c.pitch_accent.len() == 0 || pitch_accent.len() == 0
                }
            &&& forall|i: int|
                0 <= i < different_pitch_homophones.len() ==> {
                    let c = #[trigger] different_pitch_homophones[i];
                    c.text != query && c.pitch_accent.len() > 0 && pitch_accent.len() > 0
                        && !shares_pitch(pitch_accent, c.pitch_accent)
                }
        },
        _ => true,
    }
}

/// Keeping some candidates of a list keeps its order and its distinct keys,
/// and what is kept was in the list.
pub proof fn lemma_filter_keeps_order(s: Seq<Candidate>, pred: spec_fn(Candidate) -> bool)
    ensures
        forall|i: int| 0 <= i < s.filter(pred).len() ==> s.contains(#[trigger] s.filter(pred)[i]),
        sorted_by_score(s) ==> sorted_by_score(s.filter(pred)),
        distinct_keys(s) ==> distinct_keys(s.filter(pred)),
    decreases s.len(),
{
    let f = s.filter(pred);
    if s.len() == 0 {
        s.lemma_filter_len(pred);
    } else {
        let d = s.drop_last();
        let l = s.last();
        let g = d.filter(pred);
        assert(s =~= d.push(l));
        d.lemma_filter_push(l, pred);
        lemma_filter_keeps_order(d, pred);
        d.lemma_filter_len(pred);
        assert forall|i: int| 0 <= i < g.len() implies s.contains(#[trigger] g[i]) && exists|k: int|
            0 <= k < d.len() && d[k] == g[i] by {
            assert(d.contains(g[i]));
            let k = choose|k: int| 0 <= k < d.len() && d[k] == g[i];
            assert(s[k] == g[i]);
        }
        if pred(l) {
            assert(f == g.push(l));
            assert(s[s.len() - 1] == l);
            assert forall|i: int| 0 <= i < f.len() implies s.contains(#[trigger] f[i]) by {
                if i < g.len() {
                    assert(f[i] == g[i]);
                }
            }
            if sorted_by_score(s) {
                assert(sorted_by_score(d)) by {
                    assert forall|i: int, j: int| 0 <= i < j < d.len() implies (
                    #[trigger] d[i]).frequency_score >= (#[trigger] d[j]).frequency_score by {
                        assert(d[i] == s[i] && d[j] == s[j]);
                    }
                }
                assert forall|i: int, j: int| 0 <= i < j < f.len() implies (
                #[trigger] f[i]).frequency_score >= (#[trigger] f[j]).frequency_score by {
                    if j == g.len() {
                        assert(f[i] == g[i]);
                        let k = choose|k: int| 0 <= k < d.len() && d[k] == g[i];
                        assert(s[k] == f[i]);
                    } else {
                        assert(f[i] == g[i] && f[j] == g[j]);
                    }
                }
            }
            if distinct_keys(s) {
                assert(distinct_keys(d)) by {
                    assert forall|i: int, j: int| 0 <= i < j < d.len() implies !((
                    #[trigger] d[i]).text == (#[trigger] d[j]).text && d[i].reading
                        == d[j].reading) by {
                        assert(d[i] == s[i] && d[j] == s[j]);
                    }
                }
                assert forall|i: int, j: int| 0 <= i < j < f.len() implies !((
                #[trigger] f[i]).text == (#[trigger] f[j]).text && f[i].reading
                    == f[j].reading) by {
                    if j == g.len() {
                        assert(f[i] == g[i]);
                        let k = choose|k: int| 0 <= k < d.len() && d[k] == g[i];
                        assert(s[k] == f[i]);
                    } else {
                        assert(f[i] == g[i] && f[j] == g[j]);
                    }
                }
            }
        } else {
            assert(f == g);
            if sorted_by_score(s) {
                assert forall|i: int, j: int| 0 <= i < j < d.len() implies (
                #[trigger] d[i]).frequency_score >= (#[trigger] d[j]).frequency_score by {
                    assert(d[i] == s[i] && d[j] == s[j]);
                }
            }
            if distinct_keys(s) {
                assert forall|i: int, j: int| 0 <= i < j < d.len() implies !((
                #[trigger] d[i]).text == (#[trigger] d[j]).text && d[i].reading
                    == d[j].reading) by {
                    assert(d[i] == s[i] && d[j] == s[j]);
                }
            }
        }
    }
}

/// Whatever was gathered, as long as no pair of text and reading was gathered
/// twice: every list of the outcome is in descending order of score and
/// holds no pair twice, and the split by pitch is consistent.
pub proof fn lemma_resolution_in_order(col: Collection, query: Seq<char>)
    requires
        distinct_keys(col.candidates),
    ensures
        lists_in_order(resolution(col, query)),
        split_by_pitch(resolution(col, query), query),
{
    let all = ranked(col.candidates);
    lemma_ranked(col.candidates);
    let same = all.filter(read_as(col.target_readings));
    lemma_filter_keeps_order(all, read_as(col.target_readings));
    let yes = same.filter(true_homophone(query, col.target_pitches));
    let no = same.filter(fake_homophone(query, col.target_pitches));
    lemma_filter_keeps_order(same, true_homophone(query, col.target_pitches));
    lemma_filter_keeps_order(same, fake_homophone(query, col.target_pitches));
    assert forall|i: int| 0 <= i < yes.len() implies sounds_like(
        #[trigger] yes[i],
        query,
        col.target_pitches,
    ) by {
        same.lemma_filter_pred(true_homophone(query, col.target_pitches), i);
    }
    assert forall|i: int| 0 <= i < no.len() implies !sounds_like(
        #[trigger] no[i],
        query,
        col.target_pitches,
    ) by {
        same.lemma_filter_pred(fake_homophone(query, col.target_pitches), i);
    }
}

/// Whether an accent is among `v`.
pub fn contains_accent(v: &Vec<u8>, accent: u8) -> (b: bool)
    ensures
        b == v@.contains(accent),
{
    let mut i: usize = 0;
    while i < v.len()
        invariant
            i <= v@.len(),
            forall|j: int| 0 <= j < i ==> v@[j] != accent,
        decreases v@.len() - i,
    {
        if v[i] == accent {
            return true;
        }
        i += 1;
    }
    false
}

/// Whether two words share an accent.
pub fn share_accent(a: &Vec<u8>, b: &Vec<u8>) -> (r: bool)
    ensures
        r == shares_pitch(a@, b@),
{
    let mut i: usize = 0;
    while i < a.len()
        invariant
            i <= a@.len(),
            forall|j: int| 0 <= j < i ==> !b@.contains(#[trigger] a@[j]),
        decreases a@.len() - i,
    {
        if contains_accent(b, a[i]) {
            return true;
        }
        i += 1;
    }
    false
}

/// Whether all words have one surface text.
pub fn has_single_text(words: &Vec<WordFrequencyWithPitch>) -> (b: bool)
    ensures
        b == single_text(views(words@)),
{
    let mut i: usize = 1;
    while i < words.len()
        invariant
            1 <= i,
            forall|j: int| 0 <= j < i && j < words@.len() ==> (#[trigger] views(words@)[j]).text == views(
                words@,
            )[0].text,
        decreases words@.len() - i,
    {
        if words[i].text != words[0].text {
            assert(views(words@)[i as int].text != views(words@)[0].text);
            return false;
        }
        i += 1;
    }
    true
}

/// A copy of a word.
pub fn copy_word(w: &WordFrequencyWithPitch) -> (r: WordFrequencyWithPitch)
    ensures
        r@ == w@,
{
    WordFrequencyWithPitch {
        text: w.text.clone(),
        reading: w.reading.clone(),
        frequency_score: w.frequency_score,
        is_common: w.is_common,
        pitch_accent: copy_accents(&w.pitch_accent),
    }
}

/// The words whose reading is a reading of the query, in order.
pub fn keep_read_as(words: &Vec<WordFrequencyWithPitch>, targets: &Vec<String>) -> (out: Vec<
    WordFrequencyWithPitch,
>)
    ensures
        views(out@) == views(words@).filter(read_as(views(targets@))),
{
    let ghost all = views(words@);
    let ghost pred = read_as(views(targets@));
    let mut out: Vec<WordFrequencyWithPitch> = Vec::new();
    let mut i: usize = 0;
    proof {
        all.take(0).lemma_filter_len(pred);
        assert(views(out@) =~= all.take(0).filter(pred));
    }
    while i < words.len()
        invariant
            i <= words@.len(),
            all == views(words@),
            pred == read_as(views(targets@)),
            views(out@) == all.take(i as int).filter(pred),
        decreases words@.len() - i,
    {
        proof {
            all.take(i as int).lemma_filter_push(all[i as int], pred);
            assert(all.take(i as int).push(all[i as int]) =~= all.take(i as int + 1));
        }
        if contains_reading(targets, &words[i].reading) {
            let ghost before = out@;
            out.push(copy_word(&words[i]));
            assert(views(out@) =~= views(before).push(all[i as int]));
        }
        i += 1;
    }
    assert(all.take(all.len() as int) =~= all);
    out
}

/// Whether a word sounds like the query's word.
pub fn is_true_homophone(word: &WordFrequencyWithPitch, query: &String, target: &Vec<u8>) -> (b:
    bool)
    ensures
        b == sounds_like(word@, query@, target@),
{
    word.text == *query || target.len() == 0 || word.pitch_accent.len() == 0 || share_accent(
        target,
        &word.pitch_accent,
    )
}

/// Splits the words into those that sound like the query's word and those
/// that do not, each part in order.
pub fn split_homophones(
    words: &Vec<WordFrequencyWithPitch>,
    query: &String,
    target: &Vec<u8>,
) -> (parts: (Vec<WordFrequencyWithPitch>, Vec<WordFrequencyWithPitch>))
    ensures
        views(parts.0@) == views(words@).filter(true_homophone(query@, target@)),
        views(parts.1@) == views(words@).filter(fake_homophone(query@, target@)),
{
    let ghost all = views(words@);
    let ghost yes = true_homophone(query@, target@);
    let ghost no = fake_homophone(query@, target@);
    let mut same: Vec<WordFrequencyWithPitch> = Vec::new();
    let mut other: Vec<WordFrequencyWithPitch> = Vec::new();
    let mut i: usize = 0;
    proof {
        all.take(0).lemma_filter_len(yes);
        all.take(0).lemma_filter_len(no);
        assert(views(same@) =~= all.take(0).filter(yes));
        assert(views(other@) =~= all.take(0).filter(no));
    }
    while i < words.len()
        invariant
            i <= words@.len(),
            all == views(words@),
            yes == true_homophone(query@, target@),
            no == fake_homophone(query@, target@),
            views(same@) == all.take(i as int).filter(yes),
            views(other@) == all.take(i as int).filter(no),
        decreases words@.len() - i,
    {
        proof {
            all.take(i as int).lemma_filter_push(all[i as int], yes);
            all.take(i as int).lemma_filter_push(all[i as int], no);
            assert(all.take(i as int).push(all[i as int]) =~= all.take(i as int + 1));
        }
        if is_true_homophone(&words[i], query, target) {
            let ghost before = same@;
            same.push(copy_word(&words[i]));
            assert(views(same@) =~= views(before).push(all[i as int]));
        } else {
            let ghost before = other@;
            other.push(copy_word(&words[i]));
            assert(views(other@) =~= views(before).push(all[i as int]));
        }
        i += 1;
    }
    assert(all.take(all.len() as int) =~= all);
    (same, other)
}

/// Ranks what was gathered for `query` and decides the outcome.
pub fn classify(st: Collector, query: &str) -> (r: FindWithNhkResult)
    ensures
        r@ == resolution(st@, query@),
        distinct_keys(st@.candidates) ==> lists_in_order(r@) && split_by_pitch(r@, query@),
{
    proof {
        if distinct_keys(st@.candidates) {
            lemma_resolution_in_order(st@, query@);
        }
    }
    let Collector { target_readings, candidates, exact_match, target_pitches } = st;
    let all = rank(candidates);
    if exact_match {
        let same = keep_read_as(&all, &target_readings);
        if has_single_text(&same) {
            FindWithNhkResult::NoHomophones
        } else {
            let raw = query.to_owned();
            let (true_homophones, different_pitch_homophones) = split_homophones(
                &same,
                &raw,
                &target_pitches,
            );
            FindWithNhkResult::UniqueMatch {
                pitch_accent: target_pitches,
                true_homophones,
                different_pitch_homophones,
            }
        }
    } else if has_single_text(&all) {
        FindWithNhkResult::NoHomophones
    } else {
        FindWithNhkResult::MultipleMatches { homophones: all }
    }
}

/// Finds the homophones of `word` and splits them by pitch accent.
///
/// A word of the dictionary gives `UniqueMatch`, with the words read like it
/// split into true homophones and homophones of different pitch, or
/// `NoHomophones` where no other word is read like it. A reading gives
/// `MultipleMatches` with every word read so, or `NoHomophones` where at most
/// one word is. Every list is in descending order of frequency score.
pub fn find_with_nhk(dict: &Dictionary, pitch: &PitchAccentSource, word: &str) -> (r:
    FindWithNhkResult)
    requires
        dict.well_formed(),
    ensures
        r@ == resolve(dict@, pitch@, word@),
        lists_in_order(r@),
        split_by_pitch(r@, word@),
{
    let st = collect(dict, pitch, word);
    classify(st, word)
}

/// The kind of the outcome goes by the query: a surface text of the
/// dictionary never gives `MultipleMatches`, and anything else never gives
/// `UniqueMatch`.
pub proof fn lemma_outcome_kind(
    dict: Seq<EntryView>,
    pitch: Seq<PitchRecordView>,
    query: Seq<char>,
)
    ensures
        is_surface_text(dict, query, dict.len() as int) ==> !(resolve(dict, pitch, query) is MultipleMatches),
        !is_surface_text(dict, query, dict.len() as int) ==> !(resolve(dict, pitch, query) is UniqueMatch),
{
    lemma_exact_match(dict, pitch, query);
}

/// A query without katakana that is neither a spelling nor a reading in a
/// well-formed dictionary has no homophones.
pub proof fn lemma_unknown_query_has_no_homophones(
    dict: Seq<EntryView>,
    pitch: Seq<PitchRecordView>,
    query: Seq<char>,
)
    requires
        well_formed_entries(dict),
        !has_katakana(query),
        forall|r: Seq<char>| !is_reading_of_query(dict, query, query, r, dict.len() as int),
    ensures
        resolve(dict, pitch, query) == Resolution::NoHomophones,
{
    lemma_unknown_query(dict, pitch, query);
    lemma_ranked(collection(dict, pitch, query).candidates);
}

} // verus!
