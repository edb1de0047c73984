//! The plain lookup and the lookup with pitch accents gather the same words:
//! the pitch table decides the accents of a candidate and nothing else.

use vstd::prelude::*;
use crate::collector::{
    add_candidate, candidate_for, collection, direct_matches, expansion, has_key,
    normalized_query, query_candidate, seed, with_entry_expansion, with_reading_matches,
    with_spelling_matches, with_spelling_readings, with_spellings_of, with_words_read, Collection,
};
use crate::dictionary::{ElementView, EntryView, PitchRecordView};
use crate::kana_utils::has_katakana;
use crate::katakana_support::{homophones, without_pitch, without_pitches};
use crate::ranking::{rank_position, ranked, ranked_from, with_ranked};
use crate::resolver::resolve;
use crate::words::{Candidate, Resolution};

verus! {

/// `a` and `b` hold the same candidates but for their pitch accents.
pub open spec fn same_words(a: Seq<Candidate>, b: Seq<Candidate>) -> bool {
    without_pitches(a) == without_pitches(b)
}

/// Two collection runs have gathered the same but for pitch accents.
pub open spec fn same_gathering(a: Collection, b: Collection) -> bool {
    &&& a.target_readings == b.target_readings
    &&& a.exact_match == b.exact_match
    &&& same_words(a.candidates, b.candidates)
}

/// Lists of the same words have the same length and agree at each position.
pub proof fn lemma_same_words(a: Seq<Candidate>, b: Seq<Candidate>)
    ensures
        same_words(a, b) <==> a.len() == b.len() && forall|i: int|
            0 <= i < a.len() ==> without_pitch(#[trigger] a[i]) == without_pitch(b[i]),
{
    if same_words(a, b) {
        assert(without_pitches(a).len() == a.len());
        assert(without_pitches(b).len() == b.len());
        assert forall|i: int| 0 <= i < a.len() implies without_pitch(#[trigger] a[i])
            == without_pitch(b[i]) by {
            assert(without_pitches(a)[i] == without_pitches(b)[i]);
        }
    }
    if a.len() == b.len() && forall|i: int|
        0 <= i < a.len() ==> without_pitch(#[trigger] a[i]) == without_pitch(b[i]) {
        assert(without_pitches(a) =~= without_pitches(b));
    }
}

/// Lists of the same words hold the same pairs of text and reading.
pub proof fn lemma_same_keys(a: Seq<Candidate>, b: Seq<Candidate>, text: Seq<char>, reading: Seq<char>)
    requires
        same_words(a, b),
    ensures
        has_key(a, text, reading) == has_key(b, text, reading),
{
    lemma_same_words(a, b);
    lemma_same_words(b, a);
    if has_key(a, text, reading) {
        let i = choose|i: int|
            0 <= i < a.len() && (#[trigger] a[i]).text == text && a[i].reading == reading;
        assert(without_pitch(a[i]) == without_pitch(b[i]));
        assert(b[i].text == text && b[i].reading == reading);
    }
    if has_key(b, text, reading) {
        let i = choose|i: int|
            0 <= i < b.len() && (#[trigger] b[i]).text == text && b[i].reading == reading;
        assert(without_pitch(a[i]) == without_pitch(b[i]));
        assert(a[i].text == text && a[i].reading == reading);
    }
}

/// Adding the same word to lists of the same words gives lists of the same
/// words.
pub proof fn lemma_add_same(a: Seq<Candidate>, b: Seq<Candidate>, c: Candidate, d: Candidate)
    requires
        same_words(a, b),
        without_pitch(c) == without_pitch(d),
    ensures
        same_words(add_candidate(a, c), add_candidate(b, d)),
{
    lemma_same_words(a, b);
    lemma_same_keys(a, b, c.text, c.reading);
    assert(c.text == without_pitch(c).text && d.text == without_pitch(d).text);
    assert(c.reading == without_pitch(c).reading && d.reading == without_pitch(d).reading);
    lemma_same_words(add_candidate(a, c), add_candidate(b, d));
}

/// Recording spellings under two pitch tables gives the same words.
pub proof fn lemma_spellings_same(
    a: Seq<Candidate>,
    b: Seq<Candidate>,
    spellings: Seq<ElementView>,
    reading: Seq<char>,
    n: int,
    p: Seq<PitchRecordView>,
    q: Seq<PitchRecordView>,
)
    requires
        same_words(a, b),
    ensures
        same_words(
            with_spellings_of(a, spellings, reading, n, p),
            with_spellings_of(b, spellings, reading, n, q),
        ),
    decreases n,
{
    if n > 0 {
        let e = spellings[n - 1];
        lemma_spellings_same(a, b, spellings, reading, n - 1, p, q);
        lemma_add_same(
            with_spellings_of(a, spellings, reading, n - 1, p),
            with_spellings_of(b, spellings, reading, n - 1, q),
            candidate_for(e.text, reading, e.priority, p),
            candidate_for(e.text, reading, e.priority, q),
        );
    }
}

/// Recording the words of a reading under two pitch tables gives the same
/// words.
pub proof fn lemma_words_read_same(
    a: Seq<Candidate>,
    b: Seq<Candidate>,
    e: EntryView,
    r: ElementView,
    p: Seq<PitchRecordView>,
    q: Seq<PitchRecordView>,
)
    requires
        same_words(a, b),
    ensures
        same_words(with_words_read(a, e, r, p), with_words_read(b, e, r, q)),
{
    if e.kana_only() {
        lemma_add_same(
            a,
            b,
            candidate_for(r.text, r.text, r.priority, p),
            candidate_for(r.text, r.text, r.priority, q),
        );
    } else {
        lemma_spellings_same(a, b, e.kanji, r.text, e.kanji.len() as int, p, q);
    }
}

/// Pairing a spelling with readings under two pitch tables gathers the same.
pub proof fn lemma_spelling_readings_same(
    a: Collection,
    b: Collection,
    spelling: Seq<char>,
    readings: Seq<ElementView>,
    n: int,
    p: Seq<PitchRecordView>,
    q: Seq<PitchRecordView>,
)
    requires
        same_gathering(a, b),
    ensures
        same_gathering(
            with_spelling_readings(a, spelling, readings, n, p),
            with_spelling_readings(b, spelling, readings, n, q),
        ),
    decreases n,
{
    if n > 0 {
        let r = readings[n - 1];
        lemma_spelling_readings_same(a, b, spelling, readings, n - 1, p, q);
        lemma_add_same(
            with_spelling_readings(a, spelling, readings, n - 1, p).candidates,
            with_spelling_readings(b, spelling, readings, n - 1, q).candidates,
            candidate_for(spelling, r.text, r.priority, p),
            candidate_for(spelling, r.text, r.priority, q),
        );
    }
}

/// Holding the spellings of an entry against the query under two pitch
/// tables gathers the same.
pub proof fn lemma_spelling_matches_same(
    a: Collection,
    b: Collection,
    e: EntryView,
    n: int,
    query: Seq<char>,
    p: Seq<PitchRecordView>,
    q: Seq<PitchRecordView>,
)
    requires
        same_gathering(a, b),
    ensures
        same_gathering(
            with_spelling_matches(a, e, n, query, p),
            with_spelling_matches(b, e, n, query, q),
        ),
    decreases n,
{
    if n > 0 {
        lemma_spelling_matches_same(a, b, e, n - 1, query, p, q);
        lemma_spelling_readings_same(
            Collection { exact_match: true, ..with_spelling_matches(a, e, n - 1, query, p) },
            Collection { exact_match: true, ..with_spelling_matches(b, e, n - 1, query, q) },
            query,
            e.readings,
            e.readings.len() as int,
            p,
            q,
        );
    }
}

/// Holding the readings of an entry against the query under two pitch
/// tables gathers the same.
pub proof fn lemma_reading_matches_same(
    a: Collection,
    b: Collection,
    e: EntryView,
    n: int,
    query: Seq<char>,
    normalized: Seq<char>,
    p: Seq<PitchRecordView>,
    q: Seq<PitchRecordView>,
)
    requires
        same_gathering(a, b),
    ensures
        same_gathering(
            with_reading_matches(a, e, n, query, normalized, p),
            with_reading_matches(b, e, n, query, normalized, q),
        ),
    decreases n,
{
    if n > 0 {
        lemma_reading_matches_same(a, b, e, n - 1, query, normalized, p, q);
        lemma_words_read_same(
            with_reading_matches(a, e, n - 1, query, normalized, p).candidates,
            with_reading_matches(b, e, n - 1, query, normalized, q).candidates,
            e,
            e.readings[n - 1],
            p,
            q,
        );
    }
}

/// The first walk under two pitch tables gathers the same.
pub proof fn lemma_direct_matches_same(
    a: Collection,
    b: Collection,
    dict: Seq<EntryView>,
    n: int,
    query: Seq<char>,
    normalized: Seq<char>,
    p: Seq<PitchRecordView>,
    q: Seq<PitchRecordView>,
)
    requires
        same_gathering(a, b),
    ensures
        same_gathering(
            direct_matches(a, dict, n, query, normalized, p),
            direct_matches(b, dict, n, query, normalized, q),
        ),
    decreases n,
{
    if n > 0 {
        let e = dict[n - 1];
        let x = direct_matches(a, dict, n - 1, query, normalized, p);
        let y = direct_matches(b, dict, n - 1, query, normalized, q);
        lemma_direct_matches_same(a, b, dict, n - 1, query, normalized, p, q);
        lemma_spelling_matches_same(x, y, e, e.kanji.len() as int, query, p, q);
        lemma_reading_matches_same(
            with_spelling_matches(x, e, e.kanji.len() as int, query, p),
            with_spelling_matches(y, e, e.kanji.len() as int, query, q),
            e,
            e.readings.len() as int,
            query,
            normalized,
            p,
            q,
        );
    }
}

/// The second walk over an entry under two pitch tables gives the same
/// words.
pub proof fn lemma_entry_expansion_same(
    a: Seq<Candidate>,
    b: Seq<Candidate>,
    e: EntryView,
    n: int,
    targets: Seq<Seq<char>>,
    p: Seq<PitchRecordView>,
    q: Seq<PitchRecordView>,
)
    requires
        same_words(a, b),
    ensures
        same_words(
            with_entry_expansion(a, e, n, targets, p),
            with_entry_expansion(b, e, n, targets, q),
        ),
    decreases n,
{
    if n > 0 {
        lemma_entry_expansion_same(a, b, e, n - 1, targets, p, q);
        lemma_words_read_same(
            with_entry_expansion(a, e, n - 1, targets, p),
            with_entry_expansion(b, e, n - 1, targets, q),
            e,
            e.readings[n - 1],
            p,
            q,
        );
    }
}

/// The second walk under two pitch tables gives the same words.
pub proof fn lemma_expansion_same(
    a: Seq<Candidate>,
    b: Seq<Candidate>,
    dict: Seq<EntryView>,
    n: int,
    targets: Seq<Seq<char>>,
    p: Seq<PitchRecordView>,
    q: Seq<PitchRecordView>,
)
    requires
        same_words(a, b),
    ensures
        same_words(expansion(a, dict, n, targets, p), expansion(b, dict, n, targets, q)),
    decreases n,
{
    if n > 0 {
        lemma_expansion_same(a, b, dict, n - 1, targets, p, q);
        lemma_entry_expansion_same(
            expansion(a, dict, n - 1, targets, p),
            expansion(b, dict, n - 1, targets, q),
            dict[n - 1],
            dict[n - 1].readings.len() as int,
            targets,
            p,
            q,
        );
    }
}

/// Whatever the pitch table, a collection run finds the same readings of
/// the query, takes the query for a word in the same cases, and gathers the
/// same candidates with the same scores in the same order.
pub proof fn lemma_collection_without_pitch(
    dict: Seq<EntryView>,
    p: Seq<PitchRecordView>,
    q: Seq<PitchRecordView>,
    query: Seq<char>,
)
    ensures
        same_gathering(collection(dict, p, query), collection(dict, q, query)),
{
    let normalized = normalized_query(query);
    let n = dict.len() as int;
    let a = direct_matches(seed(query), dict, n, query, normalized, p);
    let b = direct_matches(seed(query), dict, n, query, normalized, q);
    lemma_direct_matches_same(seed(query), seed(query), dict, n, query, normalized, p, q);
    lemma_expansion_same(a.candidates, b.candidates, dict, n, a.target_readings, p, q);
    let x = if a.target_readings.len() > 0 {
        expansion(a.candidates, dict, n, a.target_readings, p)
    } else {
        a.candidates
    };
    let y = if b.target_readings.len() > 0 {
        expansion(b.candidates, dict, n, b.target_readings, q)
    } else {
        b.candidates
    };
    if has_katakana(query) {
        lemma_add_same(x, y, query_candidate(query, normalized), query_candidate(query, normalized));
    }
}

/// The place of a score in a ranking does not depend on pitch accents.
pub proof fn lemma_rank_position_same(a: Seq<Candidate>, b: Seq<Candidate>, score: nat, k: int)
    requires
        same_words(a, b),
        0 <= k,
    ensures
        rank_position(a, score, k) == rank_position(b, score, k),
    decreases a.len() - k,
{
    lemma_same_words(a, b);
    if k < a.len() {
        assert(without_pitch(a[k]) == without_pitch(b[k]));
        assert(a[k].frequency_score == without_pitch(a[k]).frequency_score);
        assert(b[k].frequency_score == without_pitch(b[k]).frequency_score);
        if a[k].frequency_score > score {
            lemma_rank_position_same(a, b, score, k + 1);
        }
    }
}

/// Rankings of the same words hold the same words.
pub proof fn lemma_ranked_from_same(a: Seq<Candidate>, b: Seq<Candidate>, from: int)
    requires
        same_words(a, b),
        0 <= from,
    ensures
        same_words(ranked_from(a, from), ranked_from(b, from)),
    decreases a.len() - from,
{
    lemma_same_words(a, b);
    if from < a.len() {
        let x = ranked_from(a, from + 1);
        let y = ranked_from(b, from + 1);
        lemma_ranked_from_same(a, b, from + 1);
        lemma_same_words(x, y);
        assert(without_pitch(a[from]) == without_pitch(b[from]));
        assert(a[from].frequency_score == without_pitch(a[from]).frequency_score);
        assert(b[from].frequency_score == without_pitch(b[from]).frequency_score);
        lemma_rank_position_same(x, y, a[from].frequency_score, 0);
        let pos = rank_position(x, a[from].frequency_score, 0);
        crate::ranking::lemma_rank_position(x, a[from].frequency_score, 0);
        assert forall|i: int| 0 <= i < x.len() + 1 implies without_pitch(
            #[trigger] with_ranked(x, a[from])[i],
        ) == without_pitch(with_ranked(y, b[from])[i]) by {
            crate::ranking::lemma_inserted_at(x, pos, a[from], i);
            crate::ranking::lemma_inserted_at(y, pos, b[from], i);
            if i < pos {
                assert(without_pitch(x[i]) == without_pitch(y[i]));
            } else if i > pos {
                assert(without_pitch(x[i - 1]) == without_pitch(y[i - 1]));
            }
        }
        x.insert_ensures(pos, a[from]);
        y.insert_ensures(pos, b[from]);
        lemma_same_words(with_ranked(x, a[from]), with_ranked(y, b[from]));
    }
}

/// The plain lookup finds what the lookup with pitch accents gathers and
/// ranks, whatever the pitch table: the same words with the same scores in
/// the same order.
pub proof fn lemma_lookups_agree(
    dict: Seq<EntryView>,
    pitch: Seq<PitchRecordView>,
    query: Seq<char>,
)
    ensures
        homophones(dict, query) == without_pitches(
            ranked(collection(dict, pitch, query).candidates),
        ),
        match resolve(dict, pitch, query) {
            Resolution::MultipleMatches { homophones: all } => without_pitches(all) == homophones(
                dict,
                query,
            ),
            _ => true,
        },
{
    let plain = collection(dict, Seq::<PitchRecordView>::empty(), query).candidates;
    let pitched = collection(dict, pitch, query).candidates;
    lemma_collection_without_pitch(dict, Seq::<PitchRecordView>::empty(), pitch, query);
    lemma_ranked_from_same(plain, pitched, 0);
}

} // verus!
