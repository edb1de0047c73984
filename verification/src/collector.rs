//! The candidate collector: two walks over the dictionary that gather every
//! word that is read like the query.

use vstd::prelude::*;
use crate::dictionary::{
    pitch_accents_of, Dictionary, DictionaryEntry, ElementView, EntryView, PitchAccentSource,
    PitchRecordView, Priority,
};
use crate::kana_utils::{contains_katakana, has_katakana, katakana_to_hiragana, to_hiragana};
use crate::score::{calculate_frequency_score, frequency_score};
use crate::words::{views, Candidate, WordFrequencyWithPitch};

verus! {

/// What a collection run has gathered, as the contracts see it.
pub struct Collection {
    /// The readings of the query, each once, in the order in which they were
    /// found.
    pub target_readings: Seq<Seq<char>>,
    /// The candidates, each pair of text and reading once, in the order in
    /// which they were found.
    pub candidates: Seq<Candidate>,
    /// The query is the surface text of a word of the dictionary.
    pub exact_match: bool,
    /// The pitch accents of the query's own word: the first known ones.
    pub target_pitches: Seq<u8>,
}

/// Some candidate of `cands` has this text and this reading.
pub open spec fn has_key(cands: Seq<Candidate>, text: Seq<char>, reading: Seq<char>) -> bool {
    exists|i: int|
        0 <= i < cands.len() && (#[trigger] cands[i]).text == text && cands[i].reading == reading
}

/// No two candidates of `cands` have the same text and the same reading.
pub open spec fn distinct_keys(cands: Seq<Candidate>) -> bool {
    forall|i: int, j: int|
        0 <= i < j < cands.len() ==> !((#[trigger] cands[i]).text == (#[trigger] cands[j]).text
            && cands[i].reading == cands[j].reading)
}

/// `cands` with `c` behind it, unless a candidate with the text and reading of
/// `c` is there already: the first one found stays.
pub open spec fn add_candidate(cands: Seq<Candidate>, c: Candidate) -> Seq<Candidate> {
    if has_key(cands, c.text, c.reading) {
        cands
    } else {
        cands.push(c)
    }
}

/// `readings` with `r` behind it, unless `r` is there already.
pub open spec fn add_reading(readings: Seq<Seq<char>>, r: Seq<char>) -> Seq<Seq<char>> {
    if readings.contains(r) {
        readings
    } else {
        readings.push(r)
    }
}

/// The pitch accents of the query's word once `found` has been looked up:
/// accents that are known already stay.
pub open spec fn first_known(current: Seq<u8>, found: Seq<u8>) -> Seq<u8> {
    if current.len() == 0 {
        found
    } else {
        current
    }
}

/// The candidate for a surface text with a reading: scored and marked by
/// `priority`, with the accents that the pitch table gives for the pair.
pub open spec fn candidate_for(
    text: Seq<char>,
    reading: Seq<char>,
    priority: Priority,
    pitch: Seq<PitchRecordView>,
) -> Candidate {
    Candidate {
        text,
        reading,
        frequency_score: frequency_score(priority),
        is_common: priority.common(),
        pitch_accent: pitch_accents_of(pitch, reading, text),
    }
}

/// The candidate that stands for a katakana query itself.
pub open spec fn query_candidate(query: Seq<char>, normalized: Seq<char>) -> Candidate {
    Candidate {
        text: query,
        reading: normalized,
        frequency_score: 0,
        is_common: false,
        pitch_accent: Seq::empty(),
    }
}

/// `st` after a kanji spelling that equals the query has been paired with the
/// first `n` of its entry's readings. Each reading becomes a reading of the
/// query and gives a candidate for the spelling, scored by the reading's
/// priority.
pub open spec fn with_spelling_readings(
    st: Collection,
    spelling: Seq<char>,
    readings: Seq<ElementView>,
    n: int,
    pitch: Seq<PitchRecordView>,
) -> Collection
    decreases n,
{
    if n <= 0 {
        st
    } else {
        let prev = with_spelling_readings(st, spelling, readings, n - 1, pitch);
        let r = readings[n - 1];
        Collection {
            target_readings: add_reading(prev.target_readings, r.text),
            candidates: add_candidate(
                prev.candidates,
                candidate_for(spelling, r.text, r.priority, pitch),
            ),
            exact_match: prev.exact_match,
            target_pitches: first_known(
                prev.target_pitches,
                pitch_accents_of(pitch, r.text, spelling),
            ),
        }
    }
}

/// `st` after the first `n` kanji spellings of `e` have been held against the
/// query.
pub open spec fn with_spelling_matches(
    st: Collection,
    e: EntryView,
    n: int,
    query: Seq<char>,
    pitch: Seq<PitchRecordView>,
) -> Collection
    decreases n,
{
    if n <= 0 {
        st
    } else {
        let prev = with_spelling_matches(st, e, n - 1, query, pitch);
        if e.kanji[n - 1].text == query {
            with_spelling_readings(
                Collection { exact_match: true, ..prev },
                query,
                e.readings,
                e.readings.len() as int,
                pitch,
            )
        } else {
            prev
        }
    }
}

/// `cands` with one candidate for each of the first `n` spellings, all read
/// as `reading`, each scored by its own priority.
pub open spec fn with_spellings_of(
    cands: Seq<Candidate>,
    spellings: Seq<ElementView>,
    reading: Seq<char>,
    n: int,
    pitch: Seq<PitchRecordView>,
) -> Seq<Candidate>
    decreases n,
{
    if n <= 0 {
        cands
    } else {
        add_candidate(
            with_spellings_of(cands, spellings, reading, n - 1, pitch),
            candidate_for(spellings[n - 1].text, reading, spellings[n - 1].priority, pitch),
        )
    }
}

/// `cands` with the words of `e` that are read as `r`: the reading itself for
/// a word written in kana alone, else every kanji spelling of the entry.
pub open spec fn with_words_read(
    cands: Seq<Candidate>,
    e: EntryView,
    r: ElementView,
    pitch: Seq<PitchRecordView>,
) -> Seq<Candidate> {
    if e.kana_only() {
        add_candidate(cands, candidate_for(r.text, r.text, r.priority, pitch))
    } else {
        with_spellings_of(cands, e.kanji, r.text, e.kanji.len() as int, pitch)
    }
}

/// `st` after the first `n` readings of `e` have been held against the query
/// and its normalised form.
pub open spec fn with_reading_matches(
    st: Collection,
    e: EntryView,
    n: int,
    query: Seq<char>,
    normalized: Seq<char>,
    pitch: Seq<PitchRecordView>,
) -> Collection
    decreases n,
{
    if n <= 0 {
        st
    } else {
        let prev = with_reading_matches(st, e, n - 1, query, normalized, pitch);
        let r = e.readings[n - 1];
        if r.text == query || r.text == normalized {
            Collection {
                target_readings: add_reading(prev.target_readings, r.text),
                candidates: with_words_read(prev.candidates, e, r, pitch),
                exact_match: prev.exact_match || (e.kana_only() && r.text == query),
                target_pitches: first_known(
                    prev.target_pitches,
                    pitch_accents_of(pitch, r.text, r.text),
                ),
            }
        } else {
            prev
        }
    }
}

/// `st` after one entry of the first walk: its spellings, then its readings.
pub open spec fn with_direct_entry(
    st: Collection,
    e: EntryView,
    query: Seq<char>,
    normalized: Seq<char>,
    pitch: Seq<PitchRecordView>,
) -> Collection {
    with_reading_matches(
        with_spelling_matches(st, e, e.kanji.len() as int, query, pitch),
        e,
        e.readings.len() as int,
        query,
        normalized,
        pitch,
    )
}

/// `st` after the first walk has passed the first `n` entries.
pub open spec fn direct_matches(
    st: Collection,
    dict: Seq<EntryView>,
    n: int,
    query: Seq<char>,
    normalized: Seq<char>,
    pitch: Seq<PitchRecordView>,
) -> Collection
    decreases n,
{
    if n <= 0 {
        st
    } else {
        with_direct_entry(
            direct_matches(st, dict, n - 1, query, normalized, pitch),
            dict[n - 1],
            query,
            normalized,
            pitch,
        )
    }
}

/// `reading` is read like one of `targets`: their normalised forms agree.
pub open spec fn reads_as_target(reading: Seq<char>, targets: Seq<Seq<char>>) -> bool {
    exists|i: int|
        0 <= i < targets.len() && to_hiragana(#[trigger] targets[i]) == to_hiragana(reading)
}

/// `cands` after the second walk has held the first `n` readings of `e`
/// against the readings of the query.
pub open spec fn with_entry_expansion(
    cands: Seq<Candidate>,
    e: EntryView,
    n: int,
    targets: Seq<Seq<char>>,
    pitch: Seq<PitchRecordView>,
) -> Seq<Candidate>
    decreases n,
{
    if n <= 0 {
        cands
    } else {
        let prev = with_entry_expansion(cands, e, n - 1, targets, pitch);
        if reads_as_target(e.readings[n - 1].text, targets) {
            with_words_read(prev, e, e.readings[n - 1], pitch)
        } else {
            prev
        }
    }
}

/// `cands` after the second walk has passed the first `n` entries.
pub open spec fn expansion(
    cands: Seq<Candidate>,
    dict: Seq<EntryView>,
    n: int,
    targets: Seq<Seq<char>>,
    pitch: Seq<PitchRecordView>,
) -> Seq<Candidate>
    decreases n,
{
    if n <= 0 {
        cands
    } else {
        with_entry_expansion(
            expansion(cands, dict, n - 1, targets, pitch),
            dict[n - 1],
            dict[n - 1].readings.len() as int,
            targets,
            pitch,
        )
    }
}

/// The form of the query that readings are held against: its normalised form
/// where it holds katakana, else the query itself.
pub open spec fn normalized_query(query: Seq<char>) -> Seq<char> {
    if has_katakana(query) {
        to_hiragana(query)
    } else {
        query
    }
}

/// Where a collection run starts: a katakana query is read as its normalised
/// form; nothing else is known.
pub open spec fn seed(query: Seq<char>) -> Collection {
    Collection {
        target_readings: if has_katakana(query) {
            seq![to_hiragana(query)]
        } else {
            Seq::empty()
        },
        candidates: Seq::empty(),
        exact_match: false,
        target_pitches: Seq::empty(),
    }
}

/// What a collection run gathers for `query`: the direct matches of the first
/// walk; then, where the query has a reading, every word that is read like
/// it; and for a katakana query the query itself, unscored, unless the
/// dictionary gave a candidate for it.
pub open spec fn collection(
    dict: Seq<EntryView>,
    pitch: Seq<PitchRecordView>,
    query: Seq<char>,
) -> Collection {
    let normalized = normalized_query(query);
    let direct = direct_matches(seed(query), dict, dict.len() as int, query, normalized, pitch);
    let expanded = if direct.target_readings.len() > 0 {
        expansion(direct.candidates, dict, dict.len() as int, direct.target_readings, pitch)
    } else {
        direct.candidates
    };
    let all = if has_katakana(query) {
        add_candidate(expanded, query_candidate(query, normalized))
    } else {
        expanded
    };
    Collection { candidates: all, ..direct }
}

/// The running state of a collection.
pub struct Collector {
    pub target_readings: Vec<String>,
    pub candidates: Vec<WordFrequencyWithPitch>,
    pub exact_match: bool,
    pub target_pitches: Vec<u8>,
}

impl View for Collector {
    type V = Collection;

    open spec fn view(&self) -> Collection {
        Collection {
            target_readings: views(self.target_readings@),
            candidates: views(self.candidates@),
            exact_match: self.exact_match,
            target_pitches: self.target_pitches@,
        }
    }
}

/// Adding a candidate keeps the keys distinct.
pub proof fn lemma_add_candidate_distinct(cands: Seq<Candidate>, c: Candidate)
    requires
        distinct_keys(cands),
    ensures
        distinct_keys(add_candidate(cands, c)),
        has_key(add_candidate(cands, c), c.text, c.reading),
{
    let after = add_candidate(cands, c);
    if !has_key(cands, c.text, c.reading) {
        assert forall|i: int, j: int| 0 <= i < j < after.len() implies !((#[trigger] after[i]).text
            == (#[trigger] after[j]).text && after[i].reading == after[j].reading) by {
            if j == cands.len() {
                assert(after[i] == cands[i]);
            } else {
                assert(after[i] == cands[i] && after[j] == cands[j]);
            }
        }
        assert(after[cands.len() as int] == c);
    }
}

/// Whether a candidate with this text and reading has been gathered.
pub fn contains_key(cands: &Vec<WordFrequencyWithPitch>, text: &String, reading: &String) -> (b:
    bool)
    ensures
        b == has_key(views(cands@), text@, reading@),
{
    let mut i: usize = 0;
    while i < cands.len()
        invariant
            i <= cands@.len(),
            forall|j: int|
                0 <= j < i ==> !((#[trigger] views(cands@)[j]).text == text@ && views(
                    cands@,
                )[j].reading == reading@),
        decreases cands@.len() - i,
    {
        if cands[i].text == *text && cands[i].reading == *reading {
            assert(views(cands@)[i as int].text == text@);
            return true;
        }
        i += 1;
    }
    false
}

/// Whether `r` is among `readings`.
pub fn contains_reading(readings: &Vec<String>, r: &String) -> (b: bool)
    ensures
        b == views(readings@).contains(r@),
{
    let mut i: usize = 0;
    while i < readings.len()
        invariant
            i <= readings@.len(),
            forall|j: int| 0 <= j < i ==> (#[trigger] views(readings@)[j]) != r@,
        decreases readings@.len() - i,
    {
        if readings[i] == *r {
            assert(views(readings@)[i as int] == r@);
            return true;
        }
        i += 1;
    }
    false
}

/// Records a reading of the query, once.
pub fn push_reading(readings: &mut Vec<String>, r: &String)
    ensures
        views(final(readings)@) == add_reading(views(old(readings)@), r@),
{
    if !contains_reading(readings, r) {
        let ghost before = readings@;
        readings.push(r.clone());
        assert(views(readings@) =~= views(before).push(r@));
    }
}

/// Records a candidate, unless one with its text and reading is there.
pub fn push_candidate(
    cands: &mut Vec<WordFrequencyWithPitch>,
    text: &String,
    reading: &String,
    priority: &Priority,
    pitch: &PitchAccentSource,
)
    requires
        priority.well_formed(),
    ensures
        views(final(cands)@) == add_candidate(
            views(old(cands)@),
            candidate_for(text@, reading@, *priority, pitch@),
        ),
        distinct_keys(views(old(cands)@)) ==> distinct_keys(views(final(cands)@)),
{
    proof {
        if distinct_keys(views(cands@)) {
            lemma_add_candidate_distinct(
                views(cands@),
                candidate_for(text@, reading@, *priority, pitch@),
            );
        }
    }
    if !contains_key(cands, text, reading) {
        let ghost before = cands@;
        let word = WordFrequencyWithPitch {
            text: text.clone(),
            reading: reading.clone(),
            frequency_score: calculate_frequency_score(priority),
            is_common: priority.is_common(),
            pitch_accent: pitch.lookup(reading, text),
        };
        cands.push(word);
        assert(views(cands@) =~= views(before).push(
            candidate_for(text@, reading@, *priority, pitch@),
        ));
    }
}

/// Pairs a spelling that equals the query with every reading of its entry.
pub fn scan_spelling_readings(
    st: &mut Collector,
    spelling: &String,
    entry: &DictionaryEntry,
    pitch: &PitchAccentSource,
)
    requires
        entry@.well_formed(),
    ensures
        final(st)@ == with_spelling_readings(
            old(st)@,
            spelling@,
            entry@.readings,
            entry@.readings.len() as int,
            pitch@,
        ),
        distinct_keys(old(st)@.candidates) ==> distinct_keys(final(st)@.candidates),
{
    let ghost start = st@;
    let mut j: usize = 0;
    while j < entry.reading_elements.len()
        invariant
            j <= entry.reading_elements@.len(),
            entry@.well_formed(),
            st@ == with_spelling_readings(start, spelling@, entry@.readings, j as int, pitch@),
            distinct_keys(start.candidates) ==> distinct_keys(st@.candidates),
        decreases entry.reading_elements@.len() - j,
    {
        let r = &entry.reading_elements[j];
        assert(entry@.readings[j as int] == r@);
        push_reading(&mut st.target_readings, &r.text);
        if st.target_pitches.len() == 0 {
            st.target_pitches = pitch.lookup(&r.text, spelling);
        }
        push_candidate(&mut st.candidates, spelling, &r.text, &r.priority, pitch);
        j += 1;
    }
}

/// Holds every kanji spelling of an entry against the query.
pub fn scan_spellings(
    st: &mut Collector,
    entry: &DictionaryEntry,
    query: &String,
    pitch: &PitchAccentSource,
)
    requires
        entry@.well_formed(),
    ensures
        final(st)@ == with_spelling_matches(
            old(st)@,
            entry@,
            entry@.kanji.len() as int,
            query@,
            pitch@,
        ),
        distinct_keys(old(st)@.candidates) ==> distinct_keys(final(st)@.candidates),
{
    let ghost start = st@;
    let mut k: usize = 0;
    while k < entry.kanji_elements.len()
        invariant
            k <= entry.kanji_elements@.len(),
            entry@.well_formed(),
            st@ == with_spelling_matches(start, entry@, k as int, query@, pitch@),
            distinct_keys(start.candidates) ==> distinct_keys(st@.candidates),
        decreases entry.kanji_elements@.len() - k,
    {
        assert(entry@.kanji[k as int] == entry.kanji_elements@[k as int]@);
        if entry.kanji_elements[k].text == *query {
            st.exact_match = true;
            scan_spelling_readings(st, query, entry, pitch);
        }
        k += 1;
    }
}

/// Records every kanji spelling of an entry as a word read as `reading`.
pub fn push_spellings(
    cands: &mut Vec<WordFrequencyWithPitch>,
    entry: &DictionaryEntry,
    reading: &String,
    pitch: &PitchAccentSource,
)
    requires
        entry@.well_formed(),
    ensures
        views(final(cands)@) == with_spellings_of(
            views(old(cands)@),
            entry@.kanji,
            reading@,
            entry@.kanji.len() as int,
            pitch@,
        ),
        distinct_keys(views(old(cands)@)) ==> distinct_keys(views(final(cands)@)),
{
    let ghost start = views(cands@);
    let mut k: usize = 0;
    while k < entry.kanji_elements.len()
        invariant
            k <= entry.kanji_elements@.len(),
            entry@.well_formed(),
            views(cands@) == with_spellings_of(start, entry@.kanji, reading@, k as int, pitch@),
            distinct_keys(start) ==> distinct_keys(views(cands@)),
        decreases entry.kanji_elements@.len() - k,
    {
        let spelling = &entry.kanji_elements[k];
        assert(entry@.kanji[k as int] == spelling@);
        push_candidate(cands, &spelling.text, reading, &spelling.priority, pitch);
        k += 1;
    }
}

/// Records the words of an entry that are read as its reading number `r`.
pub fn push_words_read(
    cands: &mut Vec<WordFrequencyWithPitch>,
    entry: &DictionaryEntry,
    r: usize,
    pitch: &PitchAccentSource,
)
    requires
        entry@.well_formed(),
        r < entry@.readings.len(),
    ensures
        views(final(cands)@) == with_words_read(
            views(old(cands)@),
            entry@,
            entry@.readings[r as int],
            pitch@,
        ),
        distinct_keys(views(old(cands)@)) ==> distinct_keys(views(final(cands)@)),
{
    let reading = &entry.reading_elements[r];
    assert(entry@.readings[r as int] == reading@);
    if entry.kanji_elements.len() == 0 {
        push_candidate(cands, &reading.text, &reading.text, &reading.priority, pitch);
    } else {
        push_spellings(cands, entry, &reading.text, pitch);
    }
}

/// Holds every reading of an entry against the query and its normalised form.
pub fn scan_readings(
    st: &mut Collector,
    entry: &DictionaryEntry,
    query: &String,
    normalized: &String,
    pitch: &PitchAccentSource,
)
    requires
        entry@.well_formed(),
    ensures
        final(st)@ == with_reading_matches(
            old(st)@,
            entry@,
            entry@.readings.len() as int,
            query@,
            normalized@,
            pitch@,
        ),
        distinct_keys(old(st)@.candidates) ==> distinct_keys(final(st)@.candidates),
{
    let ghost start = st@;
    let mut j: usize = 0;
    while j < entry.reading_elements.len()
        invariant
            j <= entry.reading_elements@.len(),
            entry@.well_formed(),
            st@ == with_reading_matches(start, entry@, j as int, query@, normalized@, pitch@),
            distinct_keys(start.candidates) ==> distinct_keys(st@.candidates),
        decreases entry.reading_elements@.len() - j,
    {
        let r = &entry.reading_elements[j];
        assert(entry@.readings[j as int] == r@);
        let is_query = r.text == *query;
        if is_query || r.text == *normalized {
            push_reading(&mut st.target_readings, &r.text);
            if st.target_pitches.len() == 0 {
                st.target_pitches = pitch.lookup(&r.text, &r.text);
            }
            if entry.kanji_elements.len() == 0 && is_query {
                st.exact_match = true;
            }
            push_words_read(&mut st.candidates, entry, j, pitch);
        }
        j += 1;
    }
}

/// The first walk: every entry, its spellings and then its readings.
pub fn scan_direct(
    st: &mut Collector,
    dict: &Dictionary,
    query: &String,
    normalized: &String,
    pitch: &PitchAccentSource,
)
    requires
        dict.well_formed(),
    ensures
        final(st)@ == direct_matches(
            old(st)@,
            dict@,
            dict@.len() as int,
            query@,
            normalized@,
            pitch@,
        ),
        distinct_keys(old(st)@.candidates) ==> distinct_keys(final(st)@.candidates),
{
    let ghost start = st@;
    let mut i: usize = 0;
    while i < dict.entries.len()
        invariant
            i <= dict.entries@.len(),
            dict.well_formed(),
            st@ == direct_matches(start, dict@, i as int, query@, normalized@, pitch@),
            distinct_keys(start.candidates) ==> distinct_keys(st@.candidates),
        decreases dict.entries@.len() - i,
    {
        let entry = &dict.entries[i];
        assert(dict@[i as int] == entry@);
        scan_spellings(st, entry, query, pitch);
        scan_readings(st, entry, query, normalized, pitch);
        i += 1;
    }
}

/// `normalized` holds the normalised forms of `targets`, in order.
pub open spec fn normalized_readings(normalized: Seq<String>, targets: Seq<String>) -> bool {
    &&& normalized.len() == targets.len()
    &&& forall|i: int| 0 <= i < targets.len() ==> (#[trigger] normalized[i])@ == to_hiragana(targets[i]@)
}

/// Normalises every reading.
pub fn normalize_readings(targets: &Vec<String>) -> (normalized: Vec<String>)
    ensures
        normalized_readings(normalized@, targets@),
{
    let mut out: Vec<String> = Vec::new();
    let mut i: usize = 0;
    while i < targets.len()
        invariant
            i <= targets@.len(),
            out@.len() == i,
            forall|j: int| 0 <= j < i ==> (#[trigger] out@[j])@ == to_hiragana(targets@[j]@),
        decreases targets@.len() - i,
    {
        out.push(katakana_to_hiragana(targets[i].as_str()));
        i += 1;
    }
    out
}

/// Whether `reading` is read like one of the readings of the query.
pub fn matches_target(reading: &String, targets: &Vec<String>, normalized: &Vec<String>) -> (b:
    bool)
    requires
        normalized_readings(normalized@, targets@),
    ensures
        b == reads_as_target(reading@, views(targets@)),
{
    let form = katakana_to_hiragana(reading.as_str());
    let mut i: usize = 0;
    while i < normalized.len()
        invariant
            i <= normalized@.len(),
            normalized_readings(normalized@, targets@),
            form@ == to_hiragana(reading@),
            forall|j: int|
                0 <= j < i ==> to_hiragana(#[trigger] views(targets@)[j]) != to_hiragana(reading@),
        decreases normalized@.len() - i,
    {
        if normalized[i] == form {
            assert(to_hiragana(views(targets@)[i as int]) == to_hiragana(reading@));
            return true;
        }
        assert(normalized@[i as int]@ == to_hiragana(targets@[i as int]@));
        i += 1;
    }
    false
}

/// The second walk over one entry.
pub fn expand_entry(
    cands: &mut Vec<WordFrequencyWithPitch>,
    entry: &DictionaryEntry,
    targets: &Vec<String>,
    normalized: &Vec<String>,
    pitch: &PitchAccentSource,
)
    requires
        entry@.well_formed(),
        normalized_readings(normalized@, targets@),
    ensures
        views(final(cands)@) == with_entry_expansion(
            views(old(cands)@),
            entry@,
            entry@.readings.len() as int,
            views(targets@),
            pitch@,
        ),
        distinct_keys(views(old(cands)@)) ==> distinct_keys(views(final(cands)@)),
{
    let ghost start = views(cands@);
    let mut j: usize = 0;
    while j < entry.reading_elements.len()
        invariant
            j <= entry.reading_elements@.len(),
            entry@.well_formed(),
            normalized_readings(normalized@, targets@),
            views(cands@) == with_entry_expansion(
                start,
                entry@,
                j as int,
                views(targets@),
                pitch@,
            ),
            distinct_keys(start) ==> distinct_keys(views(cands@)),
        decreases entry.reading_elements@.len() - j,
    {
        assert(entry@.readings[j as int] == entry.reading_elements@[j as int]@);
        if matches_target(&entry.reading_elements[j].text, targets, normalized) {
            push_words_read(cands, entry, j, pitch);
        }
        j += 1;
    }
}

/// The second walk: every word that is read like the query.
pub fn expand(
    cands: &mut Vec<WordFrequencyWithPitch>,
    dict: &Dictionary,
    targets: &Vec<String>,
    pitch: &PitchAccentSource,
)
    requires
        dict.well_formed(),
    ensures
        views(final(cands)@) == expansion(
            views(old(cands)@),
            dict@,
            dict@.len() as int,
            views(targets@),
            pitch@,
        ),
        distinct_keys(views(old(cands)@)) ==> distinct_keys(views(final(cands)@)),
{
    let normalized = normalize_readings(targets);
    let ghost start = views(cands@);
    let mut i: usize = 0;
    while i < dict.entries.len()
        invariant
            i <= dict.entries@.len(),
            dict.well_formed(),
            normalized_readings(normalized@, targets@),
            views(cands@) == expansion(start, dict@, i as int, views(targets@), pitch@),
            distinct_keys(start) ==> distinct_keys(views(cands@)),
        decreases dict.entries@.len() - i,
    {
        let entry = &dict.entries[i];
        assert(dict@[i as int] == entry@);
        expand_entry(cands, entry, targets, &normalized, pitch);
        i += 1;
    }
}

/// Gathers the candidates for `query`: the readings of the query, every word
/// that is read like it, whether the query is itself a word of the
/// dictionary, and the pitch accents of that word.
pub fn collect(dict: &Dictionary, pitch: &PitchAccentSource, query: &str) -> (st: Collector)
    requires
        dict.well_formed(),
    ensures
        st@ == collection(dict@, pitch@, query@),
        distinct_keys(st@.candidates),
{
    let katakana = contains_katakana(query);
    let raw = query.to_owned();
    let normalized = if katakana {
        katakana_to_hiragana(query)
    } else {
        query.to_owned()
    };
    let mut st = Collector {
        target_readings: Vec::new(),
        candidates: Vec::new(),
        exact_match: false,
        target_pitches: Vec::new(),
    };
    if katakana {
        st.target_readings.push(normalized.clone());
    }
    assert(st@.target_readings =~= seed(query@).target_readings);
    assert(st@.candidates =~= seed(query@).candidates);
    assert(st@ == seed(query@));
    scan_direct(&mut st, dict, &raw, &normalized, pitch);
    if st.target_readings.len() > 0 {
        expand(&mut st.candidates, dict, &st.target_readings, pitch);
    }
    if katakana {
        let ghost before = views(st.candidates@);
        proof {
            lemma_add_candidate_distinct(before, query_candidate(query@, normalized@));
        }
        if !contains_key(&st.candidates, &raw, &normalized) {
            st.candidates.push(
                WordFrequencyWithPitch {
                    text: raw,
                    reading: normalized,
                    frequency_score: 0,
                    is_common: false,
                    pitch_accent: Vec::new(),
                },
            );
            assert(views(st.candidates@) =~= before.push(query_candidate(query@, normalized@)));
        }
    }
    st
}

} // verus!
