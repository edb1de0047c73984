//! What holds of every collection run: when the query counts as a word of
//! the dictionary, which readings it is given, whose pitch accents it takes
//! for those of the query, that no word read like the query is missed, and
//! that nothing but such words is gathered.

use vstd::prelude::*;
use crate::collector::{
    add_candidate, add_reading, candidate_for, collection, direct_matches, expansion, has_key,
    normalized_query, query_candidate, reads_as_target, seed, with_direct_entry,
    with_entry_expansion, with_reading_matches, with_spelling_matches, with_spelling_readings,
    with_spellings_of, with_words_read, Collection,
};
use crate::dictionary::{
    pitch_accents_of, well_formed_entries, ElementView, EntryView, PitchRecordView,
};
use crate::kana_utils::{has_katakana, to_hiragana};
use crate::words::Candidate;

verus! {

/// One of the first `n` kanji spellings of `e` is `query`.
pub open spec fn spelled_in(e: EntryView, query: Seq<char>, n: int) -> bool {
    exists|k: int| 0 <= k < n && k < e.kanji.len() && (#[trigger] e.kanji[k]).text == query
}

/// `e` is written in kana alone, and one of its first `n` readings is `query`.
pub open spec fn kana_word_in(e: EntryView, query: Seq<char>, n: int) -> bool {
    e.kana_only() && exists|j: int|
        0 <= j < n && j < e.readings.len() && (#[trigger] e.readings[j]).text == query
}

/// `query` is a surface text of `e`: a kanji spelling, or a reading of a
/// word written in kana alone.
pub open spec fn names_word(e: EntryView, query: Seq<char>) -> bool {
    spelled_in(e, query, e.kanji.len() as int) || kana_word_in(e, query, e.readings.len() as int)
}

/// `query` is a surface text of one of the first `n` entries.
pub open spec fn is_surface_text(dict: Seq<EntryView>, query: Seq<char>, n: int) -> bool {
    exists|i: int| 0 <= i < n && i < dict.len() && names_word(#[trigger] dict[i], query)
}

/// Pairing a spelling with readings does not decide whether the query is a
/// word.
pub proof fn lemma_spelling_readings_exact(
    st: Collection,
    spelling: Seq<char>,
    readings: Seq<ElementView>,
    n: int,
    pitch: Seq<PitchRecordView>,
)
    ensures
        with_spelling_readings(st, spelling, readings, n, pitch).exact_match == st.exact_match,
    decreases n,
{
    if n > 0 {
        lemma_spelling_readings_exact(st, spelling, readings, n - 1, pitch);
    }
}

/// After the first `n` spellings of an entry, the query is known as a word
/// if it was before or is one of them.
pub proof fn lemma_spelling_matches_exact(
    st: Collection,
    e: EntryView,
    n: int,
    query: Seq<char>,
    pitch: Seq<PitchRecordView>,
)
    requires
        0 <= n <= e.kanji.len(),
    ensures
        with_spelling_matches(st, e, n, query, pitch).exact_match == (st.exact_match || spelled_in(
            e,
            query,
            n,
        )),
    decreases n,
{
    if n > 0 {
        let prev = with_spelling_matches(st, e, n - 1, query, pitch);
        lemma_spelling_matches_exact(st, e, n - 1, query, pitch);
        lemma_spelling_readings_exact(
            Collection { exact_match: true, ..prev },
            query,
            e.readings,
            e.readings.len() as int,
            pitch,
        );
        if spelled_in(e, query, n - 1) {
            let k = choose|k: int|
                0 <= k < n - 1 && k < e.kanji.len() && (#[trigger] e.kanji[k]).text == query;
            assert(0 <= k < n && e.kanji[k].text == query);
        }
        if e.kanji[n - 1].text == query {
            assert(spelled_in(e, query, n));
        }
    }
}

/// After the first `n` readings of an entry, the query is known as a word if
/// it was before, or if the entry is written in kana alone and the query is
/// one of them.
pub proof fn lemma_reading_matches_exact(
    st: Collection,
    e: EntryView,
    n: int,
    query: Seq<char>,
    normalized: Seq<char>,
    pitch: Seq<PitchRecordView>,
)
    requires
        0 <= n <= e.readings.len(),
    ensures
        with_reading_matches(st, e, n, query, normalized, pitch).exact_match == (st.exact_match
            || kana_word_in(e, query, n)),
    decreases n,
{
    if n > 0 {
        lemma_reading_matches_exact(st, e, n - 1, query, normalized, pitch);
        if kana_word_in(e, query, n - 1) {
            let j = choose|j: int|
                0 <= j < n - 1 && j < e.readings.len() && (#[trigger] e.readings[j]).text == query;
            assert(0 <= j < n && e.readings[j].text == query);
        }
        if e.kana_only() && e.readings[n - 1].text == query {
            assert(kana_word_in(e, query, n));
        }
    }
}

/// After the first `n` entries, the query is known as a word if it was
/// before or is a surface text of one of them.
pub proof fn lemma_direct_matches_exact(
    st: Collection,
    dict: Seq<EntryView>,
    n: int,
    query: Seq<char>,
    normalized: Seq<char>,
    pitch: Seq<PitchRecordView>,
)
    requires
        0 <= n <= dict.len(),
    ensures
        direct_matches(st, dict, n, query, normalized, pitch).exact_match == (st.exact_match
            || is_surface_text(dict, query, n)),
    decreases n,
{
    if n > 0 {
        let prev = direct_matches(st, dict, n - 1, query, normalized, pitch);
        let e = dict[n - 1];
        lemma_direct_matches_exact(st, dict, n - 1, query, normalized, pitch);
        lemma_spelling_matches_exact(prev, e, e.kanji.len() as int, query, pitch);
        lemma_reading_matches_exact(
            with_spelling_matches(prev, e, e.kanji.len() as int, query, pitch),
            e,
            e.readings.len() as int,
            query,
            normalized,
            pitch,
        );
        if is_surface_text(dict, query, n - 1) {
            let i = choose|i: int|
                0 <= i < n - 1 && i < dict.len() && names_word(#[trigger] dict[i], query);
            assert(0 <= i < n && names_word(dict[i], query));
        }
        if names_word(e, query) {
            assert(is_surface_text(dict, query, n));
        }
    }
}

/// A collection run takes the query for a word of the dictionary exactly
/// when the query is a kanji spelling of an entry, or a reading of an entry
/// that is written in kana alone.
pub proof fn lemma_exact_match(dict: Seq<EntryView>, pitch: Seq<PitchRecordView>, query: Seq<char>)
    ensures
        collection(dict, pitch, query).exact_match <==> is_surface_text(
            dict,
            query,
            dict.len() as int,
        ),
{
    lemma_direct_matches_exact(
        seed(query),
        dict,
        dict.len() as int,
        query,
        normalized_query(query),
        pitch,
    );
}

/// Every pair of text and reading that `a` holds, `b` holds too.
pub open spec fn extends(a: Seq<Candidate>, b: Seq<Candidate>) -> bool {
    forall|text: Seq<char>, reading: Seq<char>| #[trigger]
        has_key(a, text, reading) ==> has_key(b, text, reading)
}

/// The words of `e` that are read as `reading` are among `cands`: the
/// reading itself for a word written in kana alone, else every kanji
/// spelling of the entry.
pub open spec fn word_found(cands: Seq<Candidate>, e: EntryView, reading: Seq<char>) -> bool {
    if e.kana_only() {
        has_key(cands, reading, reading)
    } else {
        forall|k: int| 0 <= k < e.kanji.len() ==> has_key(cands, (#[trigger] e.kanji[k]).text, reading)
    }
}

/// Adding a candidate keeps what was gathered, and the candidate's pair is
/// there afterwards.
pub proof fn lemma_add_candidate_extends(cands: Seq<Candidate>, c: Candidate)
    ensures
        extends(cands, add_candidate(cands, c)),
        has_key(add_candidate(cands, c), c.text, c.reading),
{
    let after = add_candidate(cands, c);
    if !has_key(cands, c.text, c.reading) {
        assert(after[cands.len() as int] == c);
        assert forall|text: Seq<char>, reading: Seq<char>| #[trigger]
            has_key(cands, text, reading) implies has_key(after, text, reading) by {
            let i = choose|i: int|
                0 <= i < cands.len() && (#[trigger] cands[i]).text == text && cands[i].reading
                    == reading;
            assert(after[i] == cands[i]);
        }
    }
}

/// Words that were found stay found when more is gathered.
pub proof fn lemma_word_found_stays(
    a: Seq<Candidate>,
    b: Seq<Candidate>,
    e: EntryView,
    reading: Seq<char>,
)
    requires
        extends(a, b),
        word_found(a, e, reading),
    ensures
        word_found(b, e, reading),
{
    if e.kana_only() {
        assert(has_key(a, reading, reading));
    } else {
        assert forall|k: int| 0 <= k < e.kanji.len() implies has_key(
            b,
            (#[trigger] e.kanji[k]).text,
            reading,
        ) by {
            assert(has_key(a, e.kanji[k].text, reading));
        }
    }
}

/// Recording the first `n` spellings keeps what was gathered and gathers
/// each of them.
pub proof fn lemma_spellings_found(
    cands: Seq<Candidate>,
    spellings: Seq<ElementView>,
    reading: Seq<char>,
    n: int,
    pitch: Seq<PitchRecordView>,
)
    requires
        0 <= n <= spellings.len(),
    ensures
        extends(cands, with_spellings_of(cands, spellings, reading, n, pitch)),
        forall|k: int|
            0 <= k < n ==> has_key(
                with_spellings_of(cands, spellings, reading, n, pitch),
                (#[trigger] spellings[k]).text,
                reading,
            ),
    decreases n,
{
    if n > 0 {
        let prev = with_spellings_of(cands, spellings, reading, n - 1, pitch);
        let c = candidate_for(
            spellings[n - 1].text,
            reading,
            spellings[n - 1].priority,
            pitch,
        );
        lemma_spellings_found(cands, spellings, reading, n - 1, pitch);
        lemma_add_candidate_extends(prev, c);
        let after = add_candidate(prev, c);
        assert forall|text: Seq<char>, r: Seq<char>| #[trigger]
            has_key(cands, text, r) implies has_key(after, text, r) by {
            assert(has_key(prev, text, r));
        }
        assert forall|k: int| 0 <= k < n implies has_key(
            after,
            (#[trigger] spellings[k]).text,
            reading,
        ) by {
            if k < n - 1 {
                assert(has_key(prev, spellings[k].text, reading));
            }
        }
    }
}

/// Recording the words of an entry that are read as one of its readings
/// keeps what was gathered and gathers them.
pub proof fn lemma_words_read_found(
    cands: Seq<Candidate>,
    e: EntryView,
    r: ElementView,
    pitch: Seq<PitchRecordView>,
)
    ensures
        extends(cands, with_words_read(cands, e, r, pitch)),
        word_found(with_words_read(cands, e, r, pitch), e, r.text),
{
    if e.kana_only() {
        lemma_add_candidate_extends(
            cands,
            candidate_for(r.text, r.text, r.priority, pitch),
        );
    } else {
        lemma_spellings_found(cands, e.kanji, r.text, e.kanji.len() as int, pitch);
    }
}

/// The second walk over the first `n` readings of an entry keeps what was
/// gathered and gathers the words of each reading that is read like the
/// query.
pub proof fn lemma_entry_expansion_found(
    cands: Seq<Candidate>,
    e: EntryView,
    n: int,
    targets: Seq<Seq<char>>,
    pitch: Seq<PitchRecordView>,
)
    requires
        0 <= n <= e.readings.len(),
    ensures
        extends(cands, with_entry_expansion(cands, e, n, targets, pitch)),
        forall|j: int|
            0 <= j < n && reads_as_target((#[trigger] e.readings[j]).text, targets) ==> word_found(
                with_entry_expansion(cands, e, n, targets, pitch),
                e,
                e.readings[j].text,
            ),
    decreases n,
{
    if n > 0 {
        let prev = with_entry_expansion(cands, e, n - 1, targets, pitch);
        let after = with_entry_expansion(cands, e, n, targets, pitch);
        lemma_entry_expansion_found(cands, e, n - 1, targets, pitch);
        lemma_words_read_found(prev, e, e.readings[n - 1], pitch);
        assert(extends(prev, after));
        assert forall|text: Seq<char>, r: Seq<char>| #[trigger]
            has_key(cands, text, r) implies has_key(after, text, r) by {
            assert(has_key(prev, text, r));
        }
        assert forall|j: int|
            0 <= j < n && reads_as_target((#[trigger] e.readings[j]).text, targets) implies word_found(
            after,
            e,
            e.readings[j].text,
        ) by {
            if j < n - 1 {
                lemma_word_found_stays(prev, after, e, e.readings[j].text);
            }
        }
    }
}

/// The second walk over the first `n` entries keeps what was gathered and
/// gathers every word of theirs that is read like the query.
pub proof fn lemma_expansion_found(
    cands: Seq<Candidate>,
    dict: Seq<EntryView>,
    n: int,
    targets: Seq<Seq<char>>,
    pitch: Seq<PitchRecordView>,
)
    requires
        0 <= n <= dict.len(),
    ensures
        extends(cands, expansion(cands, dict, n, targets, pitch)),
        forall|i: int, j: int|
            0 <= i < n && 0 <= j < dict[i].readings.len() && reads_as_target(
                (#[trigger] dict[i].readings[j]).text,
                targets,
            ) ==> word_found(
                expansion(cands, dict, n, targets, pitch),
                dict[i],
                dict[i].readings[j].text,
            ),
    decreases n,
{
    if n > 0 {
        let prev = expansion(cands, dict, n - 1, targets, pitch);
        let after = expansion(cands, dict, n, targets, pitch);
        let e = dict[n - 1];
        lemma_expansion_found(cands, dict, n - 1, targets, pitch);
        lemma_entry_expansion_found(prev, e, e.readings.len() as int, targets, pitch);
        assert forall|text: Seq<char>, r: Seq<char>| #[trigger]
            has_key(cands, text, r) implies has_key(after, text, r) by {
            assert(has_key(prev, text, r));
        }
        assert forall|i: int, j: int|
            0 <= i < n && 0 <= j < dict[i].readings.len() && reads_as_target(
                (#[trigger] dict[i].readings[j]).text,
                targets,
            ) implies word_found(after, dict[i], dict[i].readings[j].text) by {
            if i < n - 1 {
                lemma_word_found_stays(prev, after, dict[i], dict[i].readings[j].text);
            } else {
                assert(reads_as_target(e.readings[j].text, targets));
            }
        }
    }
}

/// No word is missed: every word of the dictionary whose reading is read
/// like one of the readings of the query is among the candidates, under that
/// reading. For an entry with kanji spellings these are all its spellings;
/// for a word written in kana alone it is the reading itself.
pub proof fn lemma_no_word_missed(
    dict: Seq<EntryView>,
    pitch: Seq<PitchRecordView>,
    query: Seq<char>,
    i: int,
    j: int,
)
    requires
        0 <= i < dict.len(),
        0 <= j < dict[i].readings.len(),
        reads_as_target(
            dict[i].readings[j].text,
            collection(dict, pitch, query).target_readings,
        ),
    ensures
        word_found(collection(dict, pitch, query).candidates, dict[i], dict[i].readings[j].text),
{
    let normalized = normalized_query(query);
    let direct = direct_matches(seed(query), dict, dict.len() as int, query, normalized, pitch);
    let expanded = expansion(
        direct.candidates,
        dict,
        dict.len() as int,
        direct.target_readings,
        pitch,
    );
    let all = collection(dict, pitch, query).candidates;
    lemma_expansion_found(direct.candidates, dict, dict.len() as int, direct.target_readings, pitch);
    assert(direct.target_readings.len() > 0);
    assert(word_found(expanded, dict[i], dict[i].readings[j].text));
    lemma_add_candidate_extends(expanded, query_candidate(query, normalized));
    lemma_word_found_stays(expanded, all, dict[i], dict[i].readings[j].text);
}

/// Every reading of `a` is a reading of `b`.
pub open spec fn readings_extend(a: Seq<Seq<char>>, b: Seq<Seq<char>>) -> bool {
    forall|r: Seq<char>| #[trigger] a.contains(r) ==> b.contains(r)
}

/// Every candidate of `cands` is read like one of `targets`.
pub open spec fn all_read_as(cands: Seq<Candidate>, targets: Seq<Seq<char>>) -> bool {
    forall|i: int| 0 <= i < cands.len() ==> reads_as_target((#[trigger] cands[i]).reading, targets)
}

/// Every candidate that `st` holds is read like one of the readings that it
/// holds.
pub open spec fn readings_cover(st: Collection) -> bool {
    all_read_as(st.candidates, st.target_readings)
}

/// Recording a reading keeps the readings, and the reading is there
/// afterwards.
pub proof fn lemma_add_reading(targets: Seq<Seq<char>>, r: Seq<char>)
    ensures
        readings_extend(targets, add_reading(targets, r)),
        add_reading(targets, r).contains(r),
{
    let after = add_reading(targets, r);
    if !targets.contains(r) {
        assert(after[targets.len() as int] == r);
        assert forall|x: Seq<char>| #[trigger] targets.contains(x) implies after.contains(x) by {
            let i = choose|i: int| 0 <= i < targets.len() && targets[i] == x;
            assert(after[i] == x);
        }
    }
}

/// A reading is read like itself, and stays read like a target when the
/// targets grow.
pub proof fn lemma_reads_as_target(r: Seq<char>, a: Seq<Seq<char>>, b: Seq<Seq<char>>)
    requires
        readings_extend(a, b),
    ensures
        a.contains(r) ==> reads_as_target(r, a),
        reads_as_target(r, a) ==> reads_as_target(r, b),
{
    if a.contains(r) {
        let i = choose|i: int| 0 <= i < a.len() && a[i] == r;
        assert(to_hiragana(a[i]) == to_hiragana(r));
    }
    if reads_as_target(r, a) {
        let i = choose|i: int|
            0 <= i < a.len() && to_hiragana(#[trigger] a[i]) == to_hiragana(r);
        assert(a.contains(a[i]));
        let j = choose|j: int| 0 <= j < b.len() && b[j] == a[i];
        assert(to_hiragana(b[j]) == to_hiragana(r));
    }
}

/// Candidates stay read like the targets when the targets grow.
pub proof fn lemma_all_read_as_extend(cands: Seq<Candidate>, a: Seq<Seq<char>>, b: Seq<Seq<char>>)
    requires
        all_read_as(cands, a),
        readings_extend(a, b),
    ensures
        all_read_as(cands, b),
{
    assert forall|i: int| 0 <= i < cands.len() implies reads_as_target(
        (#[trigger] cands[i]).reading,
        b,
    ) by {
        lemma_reads_as_target(cands[i].reading, a, b);
    }
}

/// Adding a candidate that is read like a target keeps all of them so.
pub proof fn lemma_add_candidate_read_as(
    cands: Seq<Candidate>,
    c: Candidate,
    targets: Seq<Seq<char>>,
)
    requires
        all_read_as(cands, targets),
        reads_as_target(c.reading, targets),
    ensures
        all_read_as(add_candidate(cands, c), targets),
{
    let after = add_candidate(cands, c);
    assert forall|i: int| 0 <= i < after.len() implies reads_as_target(
        (#[trigger] after[i]).reading,
        targets,
    ) by {
        if i < cands.len() {
            assert(after[i] == cands[i]);
        }
    }
}

/// The words recorded for a reading that is read like a target are read
/// like a target.
pub proof fn lemma_words_read_as(
    cands: Seq<Candidate>,
    e: EntryView,
    r: ElementView,
    pitch: Seq<PitchRecordView>,
    targets: Seq<Seq<char>>,
)
    requires
        all_read_as(cands, targets),
        reads_as_target(r.text, targets),
    ensures
        all_read_as(with_words_read(cands, e, r, pitch), targets),
{
    if e.kana_only() {
        lemma_add_candidate_read_as(
            cands,
            candidate_for(r.text, r.text, r.priority, pitch),
            targets,
        );
    } else {
        lemma_spellings_read_as(cands, e.kanji, r.text, e.kanji.len() as int, pitch, targets);
    }
}

/// The spellings recorded for a reading that is read like a target are read
/// like a target.
pub proof fn lemma_spellings_read_as(
    cands: Seq<Candidate>,
    spellings: Seq<ElementView>,
    reading: Seq<char>,
    n: int,
    pitch: Seq<PitchRecordView>,
    targets: Seq<Seq<char>>,
)
    requires
        all_read_as(cands, targets),
        reads_as_target(reading, targets),
    ensures
        all_read_as(with_spellings_of(cands, spellings, reading, n, pitch), targets),
    decreases n,
{
    if n > 0 {
        lemma_spellings_read_as(cands, spellings, reading, n - 1, pitch, targets);
        lemma_add_candidate_read_as(
            with_spellings_of(cands, spellings, reading, n - 1, pitch),
            candidate_for(
                spellings[n - 1].text,
                reading,
                spellings[n - 1].priority,
                pitch,
            ),
            targets,
        );
    }
}

/// Pairing a spelling with readings keeps the readings, and keeps every
/// candidate read like one of them.
pub proof fn lemma_spelling_readings_cover(
    st: Collection,
    spelling: Seq<char>,
    readings: Seq<ElementView>,
    n: int,
    pitch: Seq<PitchRecordView>,
)
    requires
        readings_cover(st),
    ensures
        readings_cover(with_spelling_readings(st, spelling, readings, n, pitch)),
        readings_extend(
            st.target_readings,
            with_spelling_readings(st, spelling, readings, n, pitch).target_readings,
        ),
    decreases n,
{
    if n > 0 {
        let prev = with_spelling_readings(st, spelling, readings, n - 1, pitch);
        let after = with_spelling_readings(st, spelling, readings, n, pitch);
        let r = readings[n - 1];
        lemma_spelling_readings_cover(st, spelling, readings, n - 1, pitch);
        lemma_add_reading(prev.target_readings, r.text);
        lemma_all_read_as_extend(prev.candidates, prev.target_readings, after.target_readings);
        lemma_reads_as_target(r.text, after.target_readings, after.target_readings);
        lemma_add_candidate_read_as(
            prev.candidates,
            candidate_for(spelling, r.text, r.priority, pitch),
            after.target_readings,
        );
        assert forall|x: Seq<char>| #[trigger]
            st.target_readings.contains(x) implies after.target_readings.contains(x) by {
            assert(prev.target_readings.contains(x));
        }
    }
}

/// Holding the spellings of an entry against the query keeps the readings,
/// and keeps every candidate read like one of them.
pub proof fn lemma_spelling_matches_cover(
    st: Collection,
    e: EntryView,
    n: int,
    query: Seq<char>,
    pitch: Seq<PitchRecordView>,
)
    requires
        readings_cover(st),
    ensures
        readings_cover(with_spelling_matches(st, e, n, query, pitch)),
        readings_extend(
            st.target_readings,
            with_spelling_matches(st, e, n, query, pitch).target_readings,
        ),
    decreases n,
{
    if n > 0 {
        let prev = with_spelling_matches(st, e, n - 1, query, pitch);
        let after = with_spelling_matches(st, e, n, query, pitch);
        lemma_spelling_matches_cover(st, e, n - 1, query, pitch);
        lemma_spelling_readings_cover(
            Collection { exact_match: true, ..prev },
            query,
            e.readings,
            e.readings.len() as int,
            pitch,
        );
        assert forall|x: Seq<char>| #[trigger]
            st.target_readings.contains(x) implies after.target_readings.contains(x) by {
            assert(prev.target_readings.contains(x));
        }
    }
}

/// Holding the readings of an entry against the query keeps the readings,
/// and keeps every candidate read like one of them.
pub proof fn lemma_reading_matches_cover(
    st: Collection,
    e: EntryView,
    n: int,
    query: Seq<char>,
    normalized: Seq<char>,
    pitch: Seq<PitchRecordView>,
)
    requires
        readings_cover(st),
    ensures
        readings_cover(with_reading_matches(st, e, n, query, normalized, pitch)),
        readings_extend(
            st.target_readings,
            with_reading_matches(st, e, n, query, normalized, pitch).target_readings,
        ),
    decreases n,
{
    if n > 0 {
        let prev = with_reading_matches(st, e, n - 1, query, normalized, pitch);
        let after = with_reading_matches(st, e, n, query, normalized, pitch);
        let r = e.readings[n - 1];
        lemma_reading_matches_cover(st, e, n - 1, query, normalized, pitch);
        if r.text == query || r.text == normalized {
            lemma_add_reading(prev.target_readings, r.text);
            lemma_all_read_as_extend(prev.candidates, prev.target_readings, after.target_readings);
            lemma_reads_as_target(r.text, after.target_readings, after.target_readings);
            lemma_words_read_as(prev.candidates, e, r, pitch, after.target_readings);
        }
        assert forall|x: Seq<char>| #[trigger]
            st.target_readings.contains(x) implies after.target_readings.contains(x) by {
            assert(prev.target_readings.contains(x));
        }
    }
}

/// The first walk keeps the readings, and keeps every candidate read like
/// one of them.
pub proof fn lemma_direct_matches_cover(
    st: Collection,
    dict: Seq<EntryView>,
    n: int,
    query: Seq<char>,
    normalized: Seq<char>,
    pitch: Seq<PitchRecordView>,
)
    requires
        readings_cover(st),
    ensures
        readings_cover(direct_matches(st, dict, n, query, normalized, pitch)),
        readings_extend(
            st.target_readings,
            direct_matches(st, dict, n, query, normalized, pitch).target_readings,
        ),
    decreases n,
{
    if n > 0 {
        let prev = direct_matches(st, dict, n - 1, query, normalized, pitch);
        let after = direct_matches(st, dict, n, query, normalized, pitch);
        let e = dict[n - 1];
        let mid = with_spelling_matches(prev, e, e.kanji.len() as int, query, pitch);
        lemma_direct_matches_cover(st, dict, n - 1, query, normalized, pitch);
        lemma_spelling_matches_cover(prev, e, e.kanji.len() as int, query, pitch);
        lemma_reading_matches_cover(mid, e, e.readings.len() as int, query, normalized, pitch);
        assert(after == with_direct_entry(prev, e, query, normalized, pitch));
        assert forall|x: Seq<char>| #[trigger]
            st.target_readings.contains(x) implies after.target_readings.contains(x) by {
            assert(prev.target_readings.contains(x));
            assert(mid.target_readings.contains(x));
        }
    }
}

/// The second walk over an entry keeps every candidate read like a target.
pub proof fn lemma_entry_expansion_read_as(
    cands: Seq<Candidate>,
    e: EntryView,
    n: int,
    targets: Seq<Seq<char>>,
    pitch: Seq<PitchRecordView>,
)
    requires
        all_read_as(cands, targets),
    ensures
        all_read_as(with_entry_expansion(cands, e, n, targets, pitch), targets),
    decreases n,
{
    if n > 0 {
        lemma_entry_expansion_read_as(cands, e, n - 1, targets, pitch);
        if reads_as_target(e.readings[n - 1].text, targets) {
            lemma_words_read_as(
                with_entry_expansion(cands, e, n - 1, targets, pitch),
                e,
                e.readings[n - 1],
                pitch,
                targets,
            );
        }
    }
}

/// The second walk keeps every candidate read like a target.
pub proof fn lemma_expansion_read_as(
    cands: Seq<Candidate>,
    dict: Seq<EntryView>,
    n: int,
    targets: Seq<Seq<char>>,
    pitch: Seq<PitchRecordView>,
)
    requires
        all_read_as(cands, targets),
    ensures
        all_read_as(expansion(cands, dict, n, targets, pitch), targets),
    decreases n,
{
    if n > 0 {
        lemma_expansion_read_as(cands, dict, n - 1, targets, pitch);
        lemma_entry_expansion_read_as(
            expansion(cands, dict, n - 1, targets, pitch),
            dict[n - 1],
            dict[n - 1].readings.len() as int,
            targets,
            pitch,
        );
    }
}

/// Nothing foreign is gathered: every candidate is read like one of the
/// readings of the query, their normalised forms being equal.
pub proof fn lemma_candidates_read_like_query(
    dict: Seq<EntryView>,
    pitch: Seq<PitchRecordView>,
    query: Seq<char>,
)
    ensures
        readings_cover(collection(dict, pitch, query)),
{
    let normalized = normalized_query(query);
    let direct = direct_matches(seed(query), dict, dict.len() as int, query, normalized, pitch);
    lemma_direct_matches_cover(seed(query), dict, dict.len() as int, query, normalized, pitch);
    let targets = direct.target_readings;
    let expanded = if targets.len() > 0 {
        expansion(direct.candidates, dict, dict.len() as int, targets, pitch)
    } else {
        direct.candidates
    };
    lemma_expansion_read_as(direct.candidates, dict, dict.len() as int, targets, pitch);
    if has_katakana(query) {
        assert(seed(query).target_readings[0] == normalized);
        assert(seed(query).target_readings.contains(normalized));
        lemma_reads_as_target(normalized, targets, targets);
        lemma_add_candidate_read_as(
            expanded,
            query_candidate(query, normalized),
            targets,
        );
    }
}

/// One of the first `n` of `readings` is `r`.
pub open spec fn has_reading(readings: Seq<ElementView>, r: Seq<char>, n: int) -> bool {
    exists|j: int| 0 <= j < n && j < readings.len() && (#[trigger] readings[j]).text == r
}

/// `e` makes `r` a reading of the query: `r` is a reading of `e`, and the
/// query is a kanji spelling of `e`, or `r` is the query or its normalised
/// form.
pub open spec fn gives_reading(
    e: EntryView,
    query: Seq<char>,
    normalized: Seq<char>,
    r: Seq<char>,
) -> bool {
    has_reading(e.readings, r, e.readings.len() as int) && (spelled_in(
        e,
        query,
        e.kanji.len() as int,
    ) || r == query || r == normalized)
}

/// One of the first `n` entries makes `r` a reading of the query.
pub open spec fn is_reading_of_query(
    dict: Seq<EntryView>,
    query: Seq<char>,
    normalized: Seq<char>,
    r: Seq<char>,
    n: int,
) -> bool {
    exists|i: int|
        0 <= i < n && i < dict.len() && gives_reading(#[trigger] dict[i], query, normalized, r)
}

/// What the readings hold once one more has been recorded, and that none
/// stands twice.
pub proof fn lemma_add_reading_holds(targets: Seq<Seq<char>>, x: Seq<char>, r: Seq<char>)
    ensures
        add_reading(targets, x).contains(r) <==> targets.contains(r) || r == x,
        targets.no_duplicates() ==> add_reading(targets, x).no_duplicates(),
{
    let after = add_reading(targets, x);
    lemma_add_reading(targets, x);
    if after.contains(r) && r != x {
        let i = choose|i: int| 0 <= i < after.len() && after[i] == r;
        assert(targets[i] == r);
    }
    if targets.contains(r) {
        assert(after.contains(r));
    }
}

/// The readings after a spelling has been paired with the first `n`
/// readings of its entry: those from before, and these `n`.
pub proof fn lemma_spelling_readings_hold(
    st: Collection,
    spelling: Seq<char>,
    readings: Seq<ElementView>,
    n: int,
    pitch: Seq<PitchRecordView>,
    r: Seq<char>,
)
    requires
        0 <= n <= readings.len(),
    ensures
        with_spelling_readings(st, spelling, readings, n, pitch).target_readings.contains(r) <==> (
        st.target_readings.contains(r) || has_reading(readings, r, n)),
        st.target_readings.no_duplicates() ==> with_spelling_readings(
            st,
            spelling,
            readings,
            n,
            pitch,
        ).target_readings.no_duplicates(),
    decreases n,
{
    if n > 0 {
        let prev = with_spelling_readings(st, spelling, readings, n - 1, pitch);
        lemma_spelling_readings_hold(st, spelling, readings, n - 1, pitch, r);
        lemma_add_reading_holds(prev.target_readings, readings[n - 1].text, r);
        if has_reading(readings, r, n - 1) {
            let j = choose|j: int|
                0 <= j < n - 1 && j < readings.len() && (#[trigger] readings[j]).text == r;
            assert(0 <= j < n && readings[j].text == r);
        }
        if readings[n - 1].text == r {
            assert(has_reading(readings, r, n));
        }
    }
}

/// The readings after the first `n` spellings of an entry: those from
/// before, and every reading of the entry if one of these spellings is the
/// query.
pub proof fn lemma_spelling_matches_hold(
    st: Collection,
    e: EntryView,
    n: int,
    query: Seq<char>,
    pitch: Seq<PitchRecordView>,
    r: Seq<char>,
)
    requires
        0 <= n <= e.kanji.len(),
    ensures
        with_spelling_matches(st, e, n, query, pitch).target_readings.contains(r) <==> (
        st.target_readings.contains(r) || (spelled_in(e, query, n) && has_reading(
            e.readings,
            r,
            e.readings.len() as int,
        ))),
        st.target_readings.no_duplicates() ==> with_spelling_matches(
            st,
            e,
            n,
            query,
            pitch,
        ).target_readings.no_duplicates(),
    decreases n,
{
    if n > 0 {
        let prev = with_spelling_matches(st, e, n - 1, query, pitch);
        lemma_spelling_matches_hold(st, e, n - 1, query, pitch, r);
        lemma_spelling_readings_hold(
            Collection { exact_match: true, ..prev },
            query,
            e.readings,
            e.readings.len() as int,
            pitch,
            r,
        );
        if spelled_in(e, query, n - 1) {
            let k = choose|k: int|
                0 <= k < n - 1 && k < e.kanji.len() && (#[trigger] e.kanji[k]).text == query;
            assert(0 <= k < n && e.kanji[k].text == query);
        }
        if e.kanji[n - 1].text == query {
            assert(spelled_in(e, query, n));
        }
    }
}

/// The readings after the first `n` readings of an entry: those from
/// before, and those of these `n` that are the query or its normalised form.
pub proof fn lemma_reading_matches_hold(
    st: Collection,
    e: EntryView,
    n: int,
    query: Seq<char>,
    normalized: Seq<char>,
    pitch: Seq<PitchRecordView>,
    r: Seq<char>,
)
    requires
        0 <= n <= e.readings.len(),
    ensures
        with_reading_matches(st, e, n, query, normalized, pitch).target_readings.contains(r) <==> (
        st.target_readings.contains(r) || ((r == query || r == normalized) && has_reading(
            e.readings,
            r,
            n,
        ))),
        st.target_readings.no_duplicates() ==> with_reading_matches(
            st,
            e,
            n,
            query,
            normalized,
            pitch,
        ).target_readings.no_duplicates(),
    decreases n,
{
    if n > 0 {
        let prev = with_reading_matches(st, e, n - 1, query, normalized, pitch);
        lemma_reading_matches_hold(st, e, n - 1, query, normalized, pitch, r);
        lemma_add_reading_holds(prev.target_readings, e.readings[n - 1].text, r);
        if has_reading(e.readings, r, n - 1) {
            let j = choose|j: int|
                0 <= j < n - 1 && j < e.readings.len() && (#[trigger] e.readings[j]).text == r;
            assert(0 <= j < n && e.readings[j].text == r);
        }
        if e.readings[n - 1].text == r {
            assert(has_reading(e.readings, r, n));
        }
    }
}

/// The readings after the first walk has passed the first `n` entries:
/// those from before, and those that one of these entries gives.
pub proof fn lemma_direct_matches_hold(
    st: Collection,
    dict: Seq<EntryView>,
    n: int,
    query: Seq<char>,
    normalized: Seq<char>,
    pitch: Seq<PitchRecordView>,
    r: Seq<char>,
)
    requires
        0 <= n <= dict.len(),
    ensures
        direct_matches(st, dict, n, query, normalized, pitch).target_readings.contains(r) <==> (
        st.target_readings.contains(r) || is_reading_of_query(dict, query, normalized, r, n)),
        st.target_readings.no_duplicates() ==> direct_matches(
            st,
            dict,
            n,
            query,
            normalized,
            pitch,
        ).target_readings.no_duplicates(),
    decreases n,
{
    if n > 0 {
        let prev = direct_matches(st, dict, n - 1, query, normalized, pitch);
        let e = dict[n - 1];
        let mid = with_spelling_matches(prev, e, e.kanji.len() as int, query, pitch);
        lemma_direct_matches_hold(st, dict, n - 1, query, normalized, pitch, r);
        lemma_spelling_matches_hold(prev, e, e.kanji.len() as int, query, pitch, r);
        lemma_reading_matches_hold(mid, e, e.readings.len() as int, query, normalized, pitch, r);
        assert(direct_matches(st, dict, n, query, normalized, pitch) == with_direct_entry(
            prev,
            e,
            query,
            normalized,
            pitch,
        ));
        if is_reading_of_query(dict, query, normalized, r, n - 1) {
            let i = choose|i: int|
                0 <= i < n - 1 && i < dict.len() && gives_reading(
                    #[trigger] dict[i],
                    query,
                    normalized,
                    r,
                );
            assert(0 <= i < n && gives_reading(dict[i], query, normalized, r));
        }
        if gives_reading(e, query, normalized, r) {
            assert(is_reading_of_query(dict, query, normalized, r, n));
        }
        if is_reading_of_query(dict, query, normalized, r, n) && !is_reading_of_query(
            dict,
            query,
            normalized,
            r,
            n - 1,
        ) {
            let i = choose|i: int|
                0 <= i < n && i < dict.len() && gives_reading(
                    #[trigger] dict[i],
                    query,
                    normalized,
                    r,
                );
            assert(i == n - 1);
        }
    }
}

/// The readings of the query, each held once: the normalised form of a
/// katakana query; every reading of an entry that has the query as a kanji
/// spelling; and every reading of the dictionary that is the query or its
/// normalised form.
pub proof fn lemma_target_readings(
    dict: Seq<EntryView>,
    pitch: Seq<PitchRecordView>,
    query: Seq<char>,
    r: Seq<char>,
)
    ensures
        collection(dict, pitch, query).target_readings.contains(r) <==> ((has_katakana(query) && r
            == to_hiragana(query)) || is_reading_of_query(
            dict,
            query,
            normalized_query(query),
            r,
            dict.len() as int,
        )),
        collection(dict, pitch, query).target_readings.no_duplicates(),
{
    let start = seed(query);
    lemma_direct_matches_hold(
        start,
        dict,
        dict.len() as int,
        query,
        normalized_query(query),
        pitch,
        r,
    );
    if has_katakana(query) {
        assert(start.target_readings[0] == to_hiragana(query));
    }
}

/// `c` is the candidate for reading number `j` of `e` with spelling number
/// `k`: scored and marked by the spelling's priority, or, where the spelling
/// is the query, by the reading's; for a word written in kana alone, the
/// reading under itself (`k` is 0 then). Its accents are those that the
/// pitch table gives for the pair.
pub open spec fn is_word_at(
    e: EntryView,
    query: Seq<char>,
    pitch: Seq<PitchRecordView>,
    c: Candidate,
    j: int,
    k: int,
) -> bool {
    &&& 0 <= j < e.readings.len()
    &&& if e.kana_only() {
        k == 0 && c == candidate_for(
            e.readings[j].text,
            e.readings[j].text,
            e.readings[j].priority,
            pitch,
        )
    } else {
        0 <= k < e.kanji.len() && (c == candidate_for(
            e.kanji[k].text,
            e.readings[j].text,
            e.kanji[k].priority,
            pitch,
        ) || (e.kanji[k].text == query && c == candidate_for(
            query,
            e.readings[j].text,
            e.readings[j].priority,
            pitch,
        )))
    }
}

/// `c` is a word of the dictionary, or the unscored candidate that stands
/// for a katakana query.
pub open spec fn is_word_of(
    dict: Seq<EntryView>,
    query: Seq<char>,
    pitch: Seq<PitchRecordView>,
    c: Candidate,
) -> bool {
    ||| exists|i: int, j: int, k: int|
        0 <= i < dict.len() && #[trigger] is_word_at(dict[i], query, pitch, c, j, k)
    ||| has_katakana(query) && c == query_candidate(query, normalized_query(query))
}

/// Every candidate of `cands` is a word of the dictionary or stands for the
/// query.
pub open spec fn all_words_of(
    cands: Seq<Candidate>,
    dict: Seq<EntryView>,
    query: Seq<char>,
    pitch: Seq<PitchRecordView>,
) -> bool {
    forall|x: int| 0 <= x < cands.len() ==> is_word_of(dict, query, pitch, #[trigger] cands[x])
}

/// Adding a word of the dictionary keeps a list one of such words.
pub proof fn lemma_add_word(
    cands: Seq<Candidate>,
    c: Candidate,
    dict: Seq<EntryView>,
    query: Seq<char>,
    pitch: Seq<PitchRecordView>,
)
    requires
        all_words_of(cands, dict, query, pitch),
        is_word_of(dict, query, pitch, c),
    ensures
        all_words_of(add_candidate(cands, c), dict, query, pitch),
{
    let after = add_candidate(cands, c);
    assert forall|x: int| 0 <= x < after.len() implies is_word_of(
        dict,
        query,
        pitch,
        #[trigger] after[x],
    ) by {
        if x < cands.len() {
            assert(after[x] == cands[x]);
        }
    }
}

/// The spellings recorded for a reading of an entry are words of the
/// dictionary.
pub proof fn lemma_spellings_are_words(
    cands: Seq<Candidate>,
    dict: Seq<EntryView>,
    i: int,
    j: int,
    n: int,
    query: Seq<char>,
    pitch: Seq<PitchRecordView>,
)
    requires
        0 <= i < dict.len(),
        0 <= j < dict[i].readings.len(),
        0 <= n <= dict[i].kanji.len(),
        all_words_of(cands, dict, query, pitch),
    ensures
        all_words_of(
            with_spellings_of(cands, dict[i].kanji, dict[i].readings[j].text, n, pitch),
            dict,
            query,
            pitch,
        ),
    decreases n,
{
    if n > 0 {
        let e = dict[i];
        let c = candidate_for(e.kanji[n - 1].text, e.readings[j].text, e.kanji[n - 1].priority, pitch);
        lemma_spellings_are_words(cands, dict, i, j, n - 1, query, pitch);
        assert(is_word_at(dict[i], query, pitch, c, j, n - 1));
        lemma_add_word(
            with_spellings_of(cands, e.kanji, e.readings[j].text, n - 1, pitch),
            c,
            dict,
            query,
            pitch,
        );
    }
}

/// The words recorded for a reading of an entry are words of the dictionary.
pub proof fn lemma_words_read_are_words(
    cands: Seq<Candidate>,
    dict: Seq<EntryView>,
    i: int,
    j: int,
    query: Seq<char>,
    pitch: Seq<PitchRecordView>,
)
    requires
        0 <= i < dict.len(),
        0 <= j < dict[i].readings.len(),
        all_words_of(cands, dict, query, pitch),
    ensures
        all_words_of(
            with_words_read(cands, dict[i], dict[i].readings[j], pitch),
            dict,
            query,
            pitch,
        ),
{
    let e = dict[i];
    let r = e.readings[j];
    if e.kana_only() {
        let c = candidate_for(r.text, r.text, r.priority, pitch);
        assert(is_word_at(dict[i], query, pitch, c, j, 0));
        lemma_add_word(cands, c, dict, query, pitch);
    } else {
        lemma_spellings_are_words(cands, dict, i, j, e.kanji.len() as int, query, pitch);
    }
}

/// The candidates recorded for a spelling that is the query are words of
/// the dictionary.
pub proof fn lemma_spelling_readings_are_words(
    st: Collection,
    dict: Seq<EntryView>,
    i: int,
    k: int,
    n: int,
    query: Seq<char>,
    pitch: Seq<PitchRecordView>,
)
    requires
        0 <= i < dict.len(),
        0 <= k < dict[i].kanji.len(),
        dict[i].kanji[k].text == query,
        0 <= n <= dict[i].readings.len(),
        all_words_of(st.candidates, dict, query, pitch),
    ensures
        all_words_of(
            with_spelling_readings(st, query, dict[i].readings, n, pitch).candidates,
            dict,
            query,
            pitch,
        ),
    decreases n,
{
    if n > 0 {
        let e = dict[i];
        let r = e.readings[n - 1];
        let c = candidate_for(query, r.text, r.priority, pitch);
        lemma_spelling_readings_are_words(st, dict, i, k, n - 1, query, pitch);
        assert(is_word_at(dict[i], query, pitch, c, n - 1, k));
        lemma_add_word(
            with_spelling_readings(st, query, e.readings, n - 1, pitch).candidates,
            c,
            dict,
            query,
            pitch,
        );
    }
}

/// The first walk over the spellings of an entry records words of the
/// dictionary.
pub proof fn lemma_spelling_matches_are_words(
    st: Collection,
    dict: Seq<EntryView>,
    i: int,
    n: int,
    query: Seq<char>,
    pitch: Seq<PitchRecordView>,
)
    requires
        0 <= i < dict.len(),
        0 <= n <= dict[i].kanji.len(),
        all_words_of(st.candidates, dict, query, pitch),
    ensures
        all_words_of(
            with_spelling_matches(st, dict[i], n, query, pitch).candidates,
            dict,
            query,
            pitch,
        ),
    decreases n,
{
    if n > 0 {
        let e = dict[i];
        let prev = with_spelling_matches(st, e, n - 1, query, pitch);
        lemma_spelling_matches_are_words(st, dict, i, n - 1, query, pitch);
        if e.kanji[n - 1].text == query {
            lemma_spelling_readings_are_words(
                Collection { exact_match: true, ..prev },
                dict,
                i,
                n - 1,
                e.readings.len() as int,
                query,
                pitch,
            );
        }
    }
}

/// The first walk over the readings of an entry records words of the
/// dictionary.
pub proof fn lemma_reading_matches_are_words(
    st: Collection,
    dict: Seq<EntryView>,
    i: int,
    n: int,
    query: Seq<char>,
    normalized: Seq<char>,
    pitch: Seq<PitchRecordView>,
)
    requires
        0 <= i < dict.len(),
        0 <= n <= dict[i].readings.len(),
        all_words_of(st.candidates, dict, query, pitch),
    ensures
        all_words_of(
            with_reading_matches(st, dict[i], n, query, normalized, pitch).candidates,
            dict,
            query,
            pitch,
        ),
    decreases n,
{
    if n > 0 {
        let prev = with_reading_matches(st, dict[i], n - 1, query, normalized, pitch);
        lemma_reading_matches_are_words(st, dict, i, n - 1, query, normalized, pitch);
        lemma_words_read_are_words(prev.candidates, dict, i, n - 1, query, pitch);
    }
}

/// The first walk records words of the dictionary.
pub proof fn lemma_direct_matches_are_words(
    st: Collection,
    dict: Seq<EntryView>,
    n: int,
    query: Seq<char>,
    normalized: Seq<char>,
    pitch: Seq<PitchRecordView>,
)
    requires
        0 <= n <= dict.len(),
        all_words_of(st.candidates, dict, query, pitch),
    ensures
        all_words_of(
            direct_matches(st, dict, n, query, normalized, pitch).candidates,
            dict,
            query,
            pitch,
        ),
    decreases n,
{
    if n > 0 {
        let prev = direct_matches(st, dict, n - 1, query, normalized, pitch);
        let e = dict[n - 1];
        lemma_direct_matches_are_words(st, dict, n - 1, query, normalized, pitch);
        lemma_spelling_matches_are_words(prev, dict, n - 1, e.kanji.len() as int, query, pitch);
        lemma_reading_matches_are_words(
            with_spelling_matches(prev, e, e.kanji.len() as int, query, pitch),
            dict,
            n - 1,
            e.readings.len() as int,
            query,
            normalized,
            pitch,
        );
    }
}

/// The second walk over an entry records words of the dictionary.
pub proof fn lemma_entry_expansion_are_words(
    cands: Seq<Candidate>,
    dict: Seq<EntryView>,
    i: int,
    n: int,
    targets: Seq<Seq<char>>,
    query: Seq<char>,
    pitch: Seq<PitchRecordView>,
)
    requires
        0 <= i < dict.len(),
        0 <= n <= dict[i].readings.len(),
        all_words_of(cands, dict, query, pitch),
    ensures
        all_words_of(with_entry_expansion(cands, dict[i], n, targets, pitch), dict, query, pitch),
    decreases n,
{
    if n > 0 {
        lemma_entry_expansion_are_words(cands, dict, i, n - 1, targets, query, pitch);
        lemma_words_read_are_words(
            with_entry_expansion(cands, dict[i], n - 1, targets, pitch),
            dict,
            i,
            n - 1,
            query,
            pitch,
        );
    }
}

/// The second walk records words of the dictionary.
pub proof fn lemma_expansion_are_words(
    cands: Seq<Candidate>,
    dict: Seq<EntryView>,
    n: int,
    targets: Seq<Seq<char>>,
    query: Seq<char>,
    pitch: Seq<PitchRecordView>,
)
    requires
        0 <= n <= dict.len(),
        all_words_of(cands, dict, query, pitch),
    ensures
        all_words_of(expansion(cands, dict, n, targets, pitch), dict, query, pitch),
    decreases n,
{
    if n > 0 {
        lemma_expansion_are_words(cands, dict, n - 1, targets, query, pitch);
        lemma_entry_expansion_are_words(
            expansion(cands, dict, n - 1, targets, pitch),
            dict,
            n - 1,
            dict[n - 1].readings.len() as int,
            targets,
            query,
            pitch,
        );
    }
}

/// Nothing is made up: every candidate is a spelling of a dictionary entry
/// under a reading of that entry, with the score, the common-word mark and
/// the accents of that pair, or it is the unscored candidate that stands
/// for a katakana query.
pub proof fn lemma_candidates_are_words(
    dict: Seq<EntryView>,
    pitch: Seq<PitchRecordView>,
    query: Seq<char>,
)
    ensures
        all_words_of(collection(dict, pitch, query).candidates, dict, query, pitch),
{
    let normalized = normalized_query(query);
    let n = dict.len() as int;
    let direct = direct_matches(seed(query), dict, n, query, normalized, pitch);
    lemma_direct_matches_are_words(seed(query), dict, n, query, normalized, pitch);
    lemma_expansion_are_words(direct.candidates, dict, n, direct.target_readings, query, pitch);
    let expanded = if direct.target_readings.len() > 0 {
        expansion(direct.candidates, dict, n, direct.target_readings, pitch)
    } else {
        direct.candidates
    };
    if has_katakana(query) {
        lemma_add_word(expanded, query_candidate(query, normalized), dict, query, pitch);
    }
}

/// A query without katakana that is neither a spelling nor a reading in a
/// well-formed dictionary has no readings, is taken for no word, and
/// nothing is gathered for it.
pub proof fn lemma_unknown_query(
    dict: Seq<EntryView>,
    pitch: Seq<PitchRecordView>,
    query: Seq<char>,
)
    requires
        well_formed_entries(dict),
        !has_katakana(query),
        forall|r: Seq<char>| !is_reading_of_query(dict, query, query, r, dict.len() as int),
    ensures
        collection(dict, pitch, query).target_readings.len() == 0,
        collection(dict, pitch, query).candidates.len() == 0,
        !collection(dict, pitch, query).exact_match,
{
    let col = collection(dict, pitch, query);
    let targets = col.target_readings;
    if targets.len() > 0 {
        assert(targets.contains(targets[0]));
        lemma_target_readings(dict, pitch, query, targets[0]);
    }
    lemma_candidates_read_like_query(dict, pitch, query);
    if col.candidates.len() > 0 {
        assert(reads_as_target(col.candidates[0].reading, targets));
    }
    lemma_exact_match(dict, pitch, query);
    if is_surface_text(dict, query, dict.len() as int) {
        let i = choose|i: int|
            0 <= i < dict.len() && i < dict.len() && names_word(#[trigger] dict[i], query);
        let e = dict[i];
        if spelled_in(e, query, e.kanji.len() as int) {
            // An entry has a reading, and every reading of an entry spelt
            // like the query is a reading of the query.
            assert(e.well_formed());
            assert(has_reading(e.readings, e.readings[0].text, e.readings.len() as int));
            assert(gives_reading(e, query, query, e.readings[0].text));
            assert(is_reading_of_query(dict, query, query, e.readings[0].text, dict.len() as int));
        } else {
            let j = choose|j: int|
                0 <= j < e.readings.len() && j < e.readings.len() && (#[trigger] e.readings[j]).text
                    == query;
            assert(has_reading(e.readings, query, e.readings.len() as int));
            assert(gives_reading(e, query, query, query));
            assert(is_reading_of_query(dict, query, query, query, dict.len() as int));
        }
    }
}

/// The pitch accents that `st` holds for the query's word are unknown, or
/// they are what the pitch table gives for one of the readings that `st`
/// holds, under the query as its spelling or under the reading itself.
pub open spec fn pitches_of_query(
    st: Collection,
    query: Seq<char>,
    pitch: Seq<PitchRecordView>,
) -> bool {
    st.target_pitches.len() == 0 || exists|r: Seq<char>| #[trigger]
        st.target_readings.contains(r) && (st.target_pitches == pitch_accents_of(pitch, r, query)
            || st.target_pitches == pitch_accents_of(pitch, r, r))
}

/// Pairing the query's spelling with readings keeps the accents those of the
/// query's word.
pub proof fn lemma_spelling_readings_pitches(
    st: Collection,
    query: Seq<char>,
    readings: Seq<ElementView>,
    n: int,
    pitch: Seq<PitchRecordView>,
)
    requires
        pitches_of_query(st, query, pitch),
    ensures
        pitches_of_query(with_spelling_readings(st, query, readings, n, pitch), query, pitch),
    decreases n,
{
    if n > 0 {
        let prev = with_spelling_readings(st, query, readings, n - 1, pitch);
        let after = with_spelling_readings(st, query, readings, n, pitch);
        let r = readings[n - 1];
        lemma_spelling_readings_pitches(st, query, readings, n - 1, pitch);
        lemma_add_reading(prev.target_readings, r.text);
        if prev.target_pitches.len() == 0 {
            assert(after.target_readings.contains(r.text));
        } else {
            let x = choose|x: Seq<char>| #[trigger]
                prev.target_readings.contains(x) && (prev.target_pitches == pitch_accents_of(
                    pitch,
                    x,
                    query,
                ) || prev.target_pitches == pitch_accents_of(pitch, x, x));
            assert(after.target_readings.contains(x));
        }
    }
}

/// Holding the spellings of an entry against the query keeps the accents
/// those of the query's word.
pub proof fn lemma_spelling_matches_pitches(
    st: Collection,
    e: EntryView,
    n: int,
    query: Seq<char>,
    pitch: Seq<PitchRecordView>,
)
    requires
        pitches_of_query(st, query, pitch),
    ensures
        pitches_of_query(with_spelling_matches(st, e, n, query, pitch), query, pitch),
    decreases n,
{
    if n > 0 {
        let prev = with_spelling_matches(st, e, n - 1, query, pitch);
        lemma_spelling_matches_pitches(st, e, n - 1, query, pitch);
        let marked = Collection { exact_match: true, ..prev };
        if prev.target_pitches.len() > 0 {
            let x = choose|x: Seq<char>| #[trigger]
                prev.target_readings.contains(x) && (prev.target_pitches == pitch_accents_of(
                    pitch,
                    x,
                    query,
                ) || prev.target_pitches == pitch_accents_of(pitch, x, x));
            assert(marked.target_readings.contains(x));
        }
        lemma_spelling_readings_pitches(marked, query, e.readings, e.readings.len() as int, pitch);
    }
}

/// Holding the readings of an entry against the query keeps the accents
/// those of the query's word.
pub proof fn lemma_reading_matches_pitches(
    st: Collection,
    e: EntryView,
    n: int,
    query: Seq<char>,
    normalized: Seq<char>,
    pitch: Seq<PitchRecordView>,
)
    requires
        pitches_of_query(st, query, pitch),
    ensures
        pitches_of_query(with_reading_matches(st, e, n, query, normalized, pitch), query, pitch),
    decreases n,
{
    if n > 0 {
        let prev = with_reading_matches(st, e, n - 1, query, normalized, pitch);
        let after = with_reading_matches(st, e, n, query, normalized, pitch);
        let r = e.readings[n - 1];
        lemma_reading_matches_pitches(st, e, n - 1, query, normalized, pitch);
        if r.text == query || r.text == normalized {
            lemma_add_reading(prev.target_readings, r.text);
            if prev.target_pitches.len() == 0 {
                assert(after.target_readings.contains(r.text));
            } else {
                let x = choose|x: Seq<char>| #[trigger]
                    prev.target_readings.contains(x) && (prev.target_pitches == pitch_accents_of(
                        pitch,
                        x,
                        query,
                    ) || prev.target_pitches == pitch_accents_of(pitch, x, x));
                assert(after.target_readings.contains(x));
            }
        }
    }
}

/// The first walk keeps the accents those of the query's word.
pub proof fn lemma_direct_matches_pitches(
    st: Collection,
    dict: Seq<EntryView>,
    n: int,
    query: Seq<char>,
    normalized: Seq<char>,
    pitch: Seq<PitchRecordView>,
)
    requires
        pitches_of_query(st, query, pitch),
    ensures
        pitches_of_query(direct_matches(st, dict, n, query, normalized, pitch), query, pitch),
    decreases n,
{
    if n > 0 {
        let prev = direct_matches(st, dict, n - 1, query, normalized, pitch);
        let e = dict[n - 1];
        lemma_direct_matches_pitches(st, dict, n - 1, query, normalized, pitch);
        lemma_spelling_matches_pitches(prev, e, e.kanji.len() as int, query, pitch);
        lemma_reading_matches_pitches(
            with_spelling_matches(prev, e, e.kanji.len() as int, query, pitch),
            e,
            e.readings.len() as int,
            query,
            normalized,
            pitch,
        );
    }
}

/// The pitch accents of the query's word are unknown, or they are what the
/// pitch table gives for one of the readings of the query, under the query
/// as its spelling or under the reading itself.
pub proof fn lemma_target_pitches(
    dict: Seq<EntryView>,
    pitch: Seq<PitchRecordView>,
    query: Seq<char>,
)
    ensures
        pitches_of_query(collection(dict, pitch, query), query, pitch),
{
    let normalized = normalized_query(query);
    let direct = direct_matches(seed(query), dict, dict.len() as int, query, normalized, pitch);
    lemma_direct_matches_pitches(seed(query), dict, dict.len() as int, query, normalized, pitch);
    if direct.target_pitches.len() > 0 {
        let x = choose|x: Seq<char>| #[trigger]
            direct.target_readings.contains(x) && (direct.target_pitches == pitch_accents_of(
                pitch,
                x,
                query,
            ) || direct.target_pitches == pitch_accents_of(pitch, x, x));
        assert(collection(dict, pitch, query).target_readings.contains(x));
    }
}

} // verus!
