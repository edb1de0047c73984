//! The two data sources that a lookup reads: the dictionary and the table of
//! pitch accents. Both are plain values that the caller builds once and hands
//! to every lookup.

use vstd::prelude::*;

verus! {

/// How often a word appears in one reference corpus.
#[derive(Clone, Copy, Debug, PartialEq, Eq, Structural)]
pub enum PriorityInCorpus {
    Primary,
    Secondary,
    Absent,
}

/// Highest frequency bucket that a priority record may carry.
pub const MAX_FREQUENCY_BUCKET: u16 = 48;

/// How common a spelling or a reading is: its presence in four corpora, and
/// its frequency bucket (1 for the most frequent words up to 48; 0 where the
/// word is unranked).
#[derive(Clone, Copy, Debug, PartialEq, Eq, Structural)]
pub struct Priority {
    pub news: PriorityInCorpus,
    pub ichimango: PriorityInCorpus,
    pub loanwords: PriorityInCorpus,
    pub additional: PriorityInCorpus,
    pub frequency_bucket: u16,
}

impl Priority {
    /// The frequency bucket is in range.
    pub open spec fn well_formed(&self) -> bool {
        self.frequency_bucket <= MAX_FREQUENCY_BUCKET
    }

    /// A word is common if a corpus lists it as primary, or if the additional
    /// list holds it at all.
    pub open spec fn common(&self) -> bool {
        self.news == PriorityInCorpus::Primary || self.ichimango == PriorityInCorpus::Primary
            || self.loanwords == PriorityInCorpus::Primary || self.additional
            != PriorityInCorpus::Absent
    }

    /// Whether the word is a common one.
    pub fn is_common(&self) -> (b: bool)
        ensures
            b == self.common(),
    {
        matches!(self.news, PriorityInCorpus::Primary) || matches!(
            self.ichimango,
            PriorityInCorpus::Primary
        ) || matches!(self.loanwords, PriorityInCorpus::Primary) || !matches!(
            self.additional,
            PriorityInCorpus::Absent
        )
    }
}

/// A spelling or a reading as the contracts see it: its text and its priority.
pub struct ElementView {
    pub text: Seq<char>,
    pub priority: Priority,
}

/// One kanji spelling of an entry.
#[derive(Clone, Debug)]
pub struct KanjiElement {
    pub text: String,
    pub priority: Priority,
}

/// One reading of an entry, in kana.
#[derive(Clone, Debug)]
pub struct ReadingElement {
    pub text: String,
    pub priority: Priority,
}

impl View for KanjiElement {
    type V = ElementView;

    open spec fn view(&self) -> ElementView {
        ElementView { text: self.text@, priority: self.priority }
    }
}

impl View for ReadingElement {
    type V = ElementView;

    open spec fn view(&self) -> ElementView {
        ElementView { text: self.text@, priority: self.priority }
    }
}

/// A dictionary entry as the contracts see it.
pub struct EntryView {
    pub kanji: Seq<ElementView>,
    pub readings: Seq<ElementView>,
}

impl EntryView {
    /// An entry without kanji spellings is a word written in kana alone: each
    /// of its readings is its own surface text.
    pub open spec fn kana_only(&self) -> bool {
        self.kanji.len() == 0
    }

    /// An entry has at least one reading, and every bucket is in range.
    pub open spec fn well_formed(&self) -> bool {
        &&& self.readings.len() >= 1
        &&& forall|i: int| 0 <= i < self.kanji.len() ==> (#[trigger] self.kanji[i]).priority.well_formed()
        &&& forall|i: int|
            0 <= i < self.readings.len() ==> (#[trigger] self.readings[i]).priority.well_formed()
    }
}

/// One dictionary record: zero or more kanji spellings, one or more readings.
#[derive(Clone, Debug)]
pub struct DictionaryEntry {
    pub kanji_elements: Vec<KanjiElement>,
    pub reading_elements: Vec<ReadingElement>,
}

impl View for DictionaryEntry {
    type V = EntryView;

    open spec fn view(&self) -> EntryView {
        EntryView {
            kanji: Seq::new(self.kanji_elements@.len(), |i: int| self.kanji_elements@[i]@),
            readings: Seq::new(self.reading_elements@.len(), |i: int| self.reading_elements@[i]@),
        }
    }
}

/// The dictionary: its entries in the order in which a lookup walks them.
#[derive(Clone, Debug)]
pub struct Dictionary {
    pub entries: Vec<DictionaryEntry>,
}

impl View for Dictionary {
    type V = Seq<EntryView>;

    open spec fn view(&self) -> Seq<EntryView> {
        Seq::new(self.entries@.len(), |i: int| self.entries@[i]@)
    }
}

/// Every entry of `entries` is well formed.
pub open spec fn well_formed_entries(entries: Seq<EntryView>) -> bool {
    forall|i: int| 0 <= i < entries.len() ==> (#[trigger] entries[i]).well_formed()
}

impl Dictionary {
    /// Every entry has a reading, and every frequency bucket is in range.
    pub open spec fn well_formed(&self) -> bool {
        well_formed_entries(self@)
    }

    /// Tests whether the dictionary is well formed, so that a caller can
    /// check a dictionary it has loaded before it looks anything up.
    pub fn is_well_formed(&self) -> (b: bool)
        ensures
            b == self.well_formed(),
    {
        let mut i: usize = 0;
        while i < self.entries.len()
            invariant
                i <= self.entries@.len(),
                forall|j: int| 0 <= j < i ==> (#[trigger] self@[j]).well_formed(),
            decreases self.entries@.len() - i,
        {
            let entry = &self.entries[i];
            if entry.reading_elements.len() == 0 {
                assert(!self@[i as int].well_formed());
                return false;
            }
            let mut k: usize = 0;
            while k < entry.kanji_elements.len()
                invariant
                    k <= entry.kanji_elements@.len(),
                    i < self.entries@.len(),
                    entry@ == self@[i as int],
                    forall|j: int| 0 <= j < k ==> (#[trigger] entry@.kanji[j]).priority.well_formed(),
                decreases entry.kanji_elements@.len() - k,
            {
                if entry.kanji_elements[k].priority.frequency_bucket > MAX_FREQUENCY_BUCKET {
                    assert(!entry@.kanji[k as int].priority.well_formed());
                    return false;
                }
                k += 1;
            }
            let mut r: usize = 0;
            while r < entry.reading_elements.len()
                invariant
                    r <= entry.reading_elements@.len(),
                    i < self.entries@.len(),
                    entry@ == self@[i as int],
                    forall|j: int|
                        0 <= j < entry@.kanji.len() ==> (#[trigger] entry@.kanji[j]).priority.well_formed(),
                    forall|j: int|
                        0 <= j < r ==> (#[trigger] entry@.readings[j]).priority.well_formed(),
                decreases entry.reading_elements@.len() - r,
            {
                if entry.reading_elements[r].priority.frequency_bucket > MAX_FREQUENCY_BUCKET {
                    assert(!entry@.readings[r as int].priority.well_formed());
                    return false;
                }
                r += 1;
            }
            i += 1;
        }
        true
    }
}

/// One line of the pitch-accent table as the contracts see it.
pub struct PitchRecordView {
    pub reading: Seq<char>,
    pub surface: Seq<char>,
    pub accents: Seq<u8>,
}

/// The accepted pitch accents of one word, given by reading and surface
/// form, in order of preference.
#[derive(Clone, Debug)]
pub struct PitchRecord {
    pub reading: String,
    pub surface: String,
    pub accents: Vec<u8>,
}

impl View for PitchRecord {
    type V = PitchRecordView;

    open spec fn view(&self) -> PitchRecordView {
        PitchRecordView { reading: self.reading@, surface: self.surface@, accents: self.accents@ }
    }
}

/// The table of pitch accents.
#[derive(Clone, Debug)]
pub struct PitchAccentSource {
    pub records: Vec<PitchRecord>,
}

impl View for PitchAccentSource {
    type V = Seq<PitchRecordView>;

    open spec fn view(&self) -> Seq<PitchRecordView> {
        Seq::new(self.records@.len(), |i: int| self.records@[i]@)
    }
}

/// The accents of the first record at or behind position `from` that is
/// about this reading and surface form; none where there is no such record.
pub open spec fn pitch_accents_from(
    records: Seq<PitchRecordView>,
    reading: Seq<char>,
    surface: Seq<char>,
    from: int,
) -> Seq<u8>
    decreases records.len() - from,
{
    if from < 0 || from >= records.len() {
        Seq::empty()
    } else if records[from].reading == reading && records[from].surface == surface {
        records[from].accents
    } else {
        pitch_accents_from(records, reading, surface, from + 1)
    }
}

/// The pitch accents that the table gives for a word: those of the first
/// record about it. The empty sequence says that the table does not know the
/// word.
pub open spec fn pitch_accents_of(
    records: Seq<PitchRecordView>,
    reading: Seq<char>,
    surface: Seq<char>,
) -> Seq<u8> {
    pitch_accents_from(records, reading, surface, 0)
}

/// A copy of `v`.
pub fn copy_accents(v: &Vec<u8>) -> (r: Vec<u8>)
    ensures
        r@ == v@,
{
    let mut out: Vec<u8> = Vec::new();
    let mut i: usize = 0;
    while i < v.len()
        invariant
            i <= v@.len(),
            out@ == v@.take(i as int),
        decreases v@.len() - i,
    {
        out.push(v[i]);
        assert(v@.take(i as int).push(v@[i as int]) =~= v@.take(i as int + 1));
        i += 1;
    }
    assert(v@.take(v@.len() as int) =~= v@);
    out
}

impl PitchAccentSource {
    /// A table that knows no word.
    pub fn empty() -> (p: PitchAccentSource)
        ensures
            p@ == Seq::<PitchRecordView>::empty(),
    {
        let p = PitchAccentSource { records: Vec::new() };
        assert(p@ =~= Seq::<PitchRecordView>::empty());
        p
    }

    /// Looks a word up by reading and surface form.
    pub fn lookup(&self, reading: &String, surface: &String) -> (r: Vec<u8>)
        ensures
            r@ == pitch_accents_of(self@, reading@, surface@),
    {
        let mut i: usize = 0;
        while i < self.records.len()
            invariant
                i <= self.records@.len(),
                pitch_accents_of(self@, reading@, surface@) == pitch_accents_from(
                    self@,
                    reading@,
                    surface@,
                    i as int,
                ),
            decreases self.records@.len() - i,
        {
            let rec = &self.records[i];
            assert(self@[i as int] == rec@);
            if rec.reading == *reading && rec.surface == *surface {
                return copy_accents(&rec.accents);
            }
            i += 1;
        }
        Vec::new()
    }

    /// The accepted pitch accents of the word with this reading and surface
    /// form; empty where the table has no data on it.
    pub fn get_pitch_accents(&self, reading: &str, surface: &str) -> (r: Vec<u8>)
        ensures
            r@ == pitch_accents_of(self@, reading@, surface@),
    {
        let reading_owned = reading.to_owned();
        let surface_owned = surface.to_owned();
        self.lookup(&reading_owned, &surface_owned)
    }
}

} // verus!
