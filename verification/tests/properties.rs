use jaydar::collector::{collect, Collector};
use jaydar::katakana_support::find_with_katakana_support;
use jaydar::ranking::rank;
use jaydar::resolver::classify;
use jaydar::PriorityInCorpus::{Absent, Primary, Secondary};
use jaydar::{
    calculate_frequency_score, find, find_with_nhk, Dictionary, DictionaryEntry,
    FindWithNhkResult, KanjiElement, PitchAccentSource, PitchRecord, Priority, PriorityInCorpus,
    ReadingElement, WordFrequency, WordFrequencyWithPitch,
};

fn priority(
    frequency_bucket: u16,
    news: PriorityInCorpus,
    ichimango: PriorityInCorpus,
    loanwords: PriorityInCorpus,
    additional: PriorityInCorpus,
) -> Priority {
    Priority { news, ichimango, loanwords, additional, frequency_bucket }
}

/// Primary in the news corpus and in the general corpus, with a bucket.
fn common(bucket: u16) -> Priority {
    priority(bucket, Primary, Primary, Absent, Absent)
}

/// Primary in the news corpus only, with a bucket.
fn news1(bucket: u16) -> Priority {
    priority(bucket, Primary, Absent, Absent, Absent)
}

/// Secondary in the news corpus only, with a bucket.
fn news2(bucket: u16) -> Priority {
    priority(bucket, Secondary, Absent, Absent, Absent)
}

/// Primary in the general corpus only, unranked.
fn ichi1() -> Priority {
    priority(0, Absent, Primary, Absent, Absent)
}

/// Primary in the loanword corpus only, unranked.
fn gai1() -> Priority {
    priority(0, Absent, Absent, Primary, Absent)
}

fn rare() -> Priority {
    priority(0, Absent, Absent, Absent, Absent)
}

/// An entry with one kanji spelling and one reading of the same priority.
fn word(kanji: &str, reading: &str, p: Priority) -> DictionaryEntry {
    DictionaryEntry {
        kanji_elements: vec![KanjiElement { text: kanji.to_string(), priority: p }],
        reading_elements: vec![ReadingElement { text: reading.to_string(), priority: p }],
    }
}

/// An entry that is written in kana alone.
fn kana_word(reading: &str, p: Priority) -> DictionaryEntry {
    DictionaryEntry {
        kanji_elements: vec![],
        reading_elements: vec![ReadingElement { text: reading.to_string(), priority: p }],
    }
}

fn sample_dictionary() -> Dictionary {
    let entries = vec![
        word("買う", "かう", common(3)),
        word("飼う", "かう", ichi1()),
        word("支う", "かう", rare()),
        word("後世", "こうせい", news1(14)),
        word("構成", "こうせい", common(2)),
        word("公正", "こうせい", common(6)),
        word("校正", "こうせい", news2(25)),
        word("更正", "こうせい", news2(30)),
        word("会", "かい", common(1)),
        word("回", "かい", common(1)),
        word("階", "かい", common(4)),
        word("貝", "かい", common(10)),
        word("橋", "はし", common(5)),
        word("箸", "はし", ichi1()),
        word("端", "はし", common(12)),
        word("回答", "かいとう", common(7)),
        word("解答", "かいとう", common(9)),
        word("解凍", "かいとう", news2(35)),
        word("程度", "ていど", common(1)),
        word("底土", "ていど", rare()),
        word("中国語", "ちゅうごくご", common(8)),
        kana_word("タピオカ", gai1()),
        DictionaryEntry {
            kanji_elements: vec![KanjiElement { text: "日本語".to_string(), priority: common(2) }],
            reading_elements: vec![
                ReadingElement { text: "にほんご".to_string(), priority: common(2) },
                ReadingElement { text: "にっぽんご".to_string(), priority: rare() },
            ],
        },
        kana_word("ソーセージ", gai1()),
        word("双生児", "そうせいじ", news2(28)),
    ];
    Dictionary { entries }
}

fn accents(reading: &str, surface: &str, accents: &[u8]) -> PitchRecord {
    PitchRecord {
        reading: reading.to_string(),
        surface: surface.to_string(),
        accents: accents.to_vec(),
    }
}

fn sample_pitch() -> PitchAccentSource {
    PitchAccentSource {
        records: vec![
            accents("こうせい", "構成", &[0]),
            accents("こうせい", "公正", &[0]),
            accents("こうせい", "後世", &[1]),
            accents("こうせい", "校正", &[0]),
            accents("はし", "橋", &[2]),
            accents("はし", "箸", &[1]),
            accents("はし", "端", &[0]),
            accents("ていど", "程度", &[1, 0]),
            accents("ソーセージ", "ソーセージ", &[1, 3]),
            accents("そうせいじ", "双生児", &[3]),
            accents("にほんご", "日本語", &[0]),
        ],
    }
}

fn plain(text: &str, reading: &str, frequency_score: u32, is_common: bool) -> WordFrequency {
    WordFrequency {
        text: text.to_string(),
        reading: reading.to_string(),
        frequency_score,
        is_common,
    }
}

fn pitched(text: &str, reading: &str, frequency_score: u32, pitch: &[u8]) -> WordFrequencyWithPitch {
    WordFrequencyWithPitch {
        text: text.to_string(),
        reading: reading.to_string(),
        frequency_score,
        is_common: false,
        pitch_accent: pitch.to_vec(),
    }
}

fn texts(words: &[WordFrequencyWithPitch]) -> Vec<&str> {
    words.iter().map(|w| w.text.as_str()).collect()
}

fn all_queries() -> Vec<&'static str> {
    vec![
        "かう", "こうせい", "構成", "後世", "カイ", "かい", "橋", "箸", "はし", "ソーセージ",
        "そうせいじ", "双生児", "タピオカ", "日本語", "にほんご", "にっぽんご", "ていど", "", "x",
        "コウセイ", "カーー",
    ]
}

fn assert_in_order(scores: &[u32]) {
    for i in 1..scores.len() {
        assert!(scores[i - 1] >= scores[i]);
    }
}

fn assert_distinct(keys: &[(String, String)]) {
    for i in 0..keys.len() {
        for j in 0..i {
            assert_ne!(keys[i], keys[j]);
        }
    }
}

fn check_list(words: &[WordFrequencyWithPitch]) {
    let scores: Vec<u32> = words.iter().map(|w| w.frequency_score).collect();
    assert_in_order(&scores);
    let keys: Vec<(String, String)> =
        words.iter().map(|w| (w.text.clone(), w.reading.clone())).collect();
    assert_distinct(&keys);
}

#[test]
fn score_weights() {
    assert_eq!(calculate_frequency_score(&rare()), 0);
    assert_eq!(calculate_frequency_score(&priority(1, Absent, Absent, Absent, Absent)), 49000);
    assert_eq!(calculate_frequency_score(&priority(48, Absent, Absent, Absent, Absent)), 2000);
    assert_eq!(calculate_frequency_score(&priority(0, Primary, Absent, Absent, Absent)), 500);
    assert_eq!(calculate_frequency_score(&priority(0, Secondary, Absent, Absent, Absent)), 200);
    assert_eq!(calculate_frequency_score(&priority(0, Absent, Primary, Absent, Absent)), 500);
    assert_eq!(calculate_frequency_score(&priority(0, Absent, Secondary, Absent, Absent)), 200);
    assert_eq!(calculate_frequency_score(&priority(0, Absent, Absent, Primary, Absent)), 300);
    assert_eq!(calculate_frequency_score(&priority(0, Absent, Absent, Secondary, Absent)), 100);
    assert_eq!(calculate_frequency_score(&priority(0, Absent, Absent, Absent, Primary)), 400);
    assert_eq!(calculate_frequency_score(&priority(0, Absent, Absent, Absent, Secondary)), 150);
    assert_eq!(calculate_frequency_score(&priority(1, Primary, Primary, Primary, Primary)), 50700);
    assert_eq!(
        calculate_frequency_score(&priority(24, Secondary, Secondary, Secondary, Secondary)),
        26650
    );
}

#[test]
fn common_mark() {
    assert!(!rare().is_common());
    assert!(priority(0, Primary, Absent, Absent, Absent).is_common());
    assert!(priority(0, Absent, Primary, Absent, Absent).is_common());
    assert!(priority(0, Absent, Absent, Primary, Absent).is_common());
    assert!(priority(0, Absent, Absent, Absent, Primary).is_common());
    assert!(priority(0, Absent, Absent, Absent, Secondary).is_common());
    assert!(!priority(30, Secondary, Secondary, Secondary, Absent).is_common());
}

#[test]
fn well_formed_dictionaries() {
    assert!(sample_dictionary().is_well_formed());
    assert!(Dictionary { entries: vec![] }.is_well_formed());
    let no_reading = Dictionary {
        entries: vec![DictionaryEntry {
            kanji_elements: vec![KanjiElement { text: "語".to_string(), priority: rare() }],
            reading_elements: vec![],
        }],
    };
    assert!(!no_reading.is_well_formed());
    assert!(Dictionary { entries: vec![word("語", "ご", news1(48))] }.is_well_formed());
    assert!(!Dictionary { entries: vec![word("語", "ご", news1(49))] }.is_well_formed());
    let bad_reading = Dictionary {
        entries: vec![
            word("語", "ご", rare()),
            DictionaryEntry {
                kanji_elements: vec![],
                reading_elements: vec![ReadingElement { text: "ご".to_string(), priority: news1(60) }],
            },
        ],
    };
    assert!(!bad_reading.is_well_formed());
}

#[test]
fn pitch_lookup() {
    let table = PitchAccentSource {
        records: vec![
            accents("はし", "橋", &[2]),
            accents("はし", "箸", &[1]),
            accents("はし", "橋", &[0]),
        ],
    };
    assert_eq!(table.get_pitch_accents("はし", "橋"), vec![2]);
    assert_eq!(table.get_pitch_accents("はし", "箸"), vec![1]);
    assert_eq!(table.get_pitch_accents("はし", "端"), Vec::<u8>::new());
    assert_eq!(table.get_pitch_accents("橋", "はし"), Vec::<u8>::new());
    assert_eq!(table.get_pitch_accents("", ""), Vec::<u8>::new());
    assert_eq!(PitchAccentSource::empty().get_pitch_accents("はし", "橋"), Vec::<u8>::new());
    assert_eq!(sample_pitch().get_pitch_accents("ていど", "程度"), vec![1, 0]);
}

#[test]
fn find_ranks_by_score() {
    let dict = sample_dictionary();
    assert_eq!(
        find(&dict, "かう"),
        vec![
            plain("買う", "かう", 48000, true),
            plain("飼う", "かう", 500, true),
            plain("支う", "かう", 0, false),
        ]
    );
}

#[test]
fn equal_scores_keep_the_order_of_discovery() {
    let dict = sample_dictionary();
    assert_eq!(
        find(&dict, "かい"),
        vec![
            plain("会", "かい", 50000, true),
            plain("回", "かい", 50000, true),
            plain("階", "かい", 47000, true),
            plain("貝", "かい", 41000, true),
        ]
    );
    let ranked = rank(vec![
        pitched("a", "r", 5, &[]),
        pitched("b", "r", 7, &[]),
        pitched("c", "r", 5, &[]),
        pitched("d", "r", 7, &[]),
        pitched("e", "r", 9, &[]),
        pitched("f", "r", 5, &[]),
    ]);
    assert_eq!(texts(&ranked), vec!["e", "b", "d", "a", "c", "f"]);
    assert!(rank(vec![]).is_empty());
}

#[test]
fn katakana_query_stands_among_its_homophones_unscored() {
    let dict = sample_dictionary();
    assert_eq!(
        find(&dict, "カイ"),
        vec![
            plain("会", "かい", 50000, true),
            plain("回", "かい", 50000, true),
            plain("階", "かい", 47000, true),
            plain("貝", "かい", 41000, true),
            plain("カイ", "かい", 0, false),
        ]
    );
    let empty = Dictionary { entries: vec![] };
    assert_eq!(find(&empty, "カイ"), vec![plain("カイ", "かい", 0, false)]);
    assert_eq!(find(&empty, "かい"), vec![]);
}

#[test]
fn kanji_query_finds_the_words_read_like_it() {
    let dict = sample_dictionary();
    let found = find(&dict, "後世");
    let names: Vec<&str> = found.iter().map(|w| w.text.as_str()).collect();
    assert_eq!(names, vec!["構成", "公正", "後世", "校正", "更正"]);
    assert!(found.iter().all(|w| w.reading == "こうせい"));
}

#[test]
fn matched_spelling_is_scored_by_its_reading() {
    let dict = Dictionary {
        entries: vec![
            DictionaryEntry {
                kanji_elements: vec![
                    KanjiElement { text: "私".to_string(), priority: common(1) },
                    KanjiElement { text: "妾".to_string(), priority: news2(40) },
                ],
                reading_elements: vec![
                    ReadingElement { text: "わたし".to_string(), priority: ichi1() },
                    ReadingElement { text: "わたくし".to_string(), priority: rare() },
                ],
            },
            word("渡し", "わたし", news1(20)),
        ],
    };
    // The query's own spelling takes the priority of each reading; the other
    // spellings, found by reading, take their own.
    assert_eq!(
        find(&dict, "私"),
        vec![
            plain("渡し", "わたし", 30500, true),
            plain("妾", "わたし", 10200, false),
            plain("妾", "わたくし", 10200, false),
            plain("私", "わたし", 500, true),
            plain("私", "わたくし", 0, false),
        ]
    );
    // By reading, every spelling takes its own priority.
    assert_eq!(
        find(&dict, "わたし"),
        vec![
            plain("私", "わたし", 50000, true),
            plain("渡し", "わたし", 30500, true),
            plain("妾", "わたし", 10200, false),
        ]
    );
}

#[test]
fn a_pair_found_twice_is_kept_once() {
    let dict = Dictionary {
        entries: vec![
            word("橋", "はし", common(5)),
            word("橋", "はし", rare()),
            word("箸", "はし", ichi1()),
            word("橋", "はし", common(1)),
        ],
    };
    assert_eq!(
        find(&dict, "はし"),
        vec![plain("橋", "はし", 46000, true), plain("箸", "はし", 500, true)]
    );
}

#[test]
fn long_vowel_readings_group_with_spelt_out_readings() {
    let dict = sample_dictionary();
    assert_eq!(
        find(&dict, "そうせいじ"),
        vec![
            plain("双生児", "そうせいじ", 22200, false),
            plain("ソーセージ", "ソーセージ", 300, true),
        ]
    );
    assert_eq!(
        find(&dict, "ソーセージ"),
        vec![
            plain("双生児", "そうせいじ", 22200, false),
            plain("ソーセージ", "ソーセージ", 300, true),
            plain("ソーセージ", "そうせいじ", 0, false),
        ]
    );
}

#[test]
fn unknown_and_empty_queries_find_nothing() {
    let dict = sample_dictionary();
    let pitch = sample_pitch();
    assert_eq!(find(&dict, ""), vec![]);
    assert_eq!(find(&dict, "x"), vec![]);
    assert_eq!(find(&dict, "こうせ"), vec![]);
    assert_eq!(find(&dict, "こうせいい"), vec![]);
    assert_eq!(find_with_nhk(&dict, &pitch, ""), FindWithNhkResult::NoHomophones);
    assert_eq!(find_with_nhk(&dict, &pitch, "x"), FindWithNhkResult::NoHomophones);
    assert_eq!(find_with_nhk(&dict, &pitch, "こうせ"), FindWithNhkResult::NoHomophones);
    let st = collect(&dict, &pitch, "x");
    assert!(st.target_readings.is_empty());
    assert!(st.candidates.is_empty());
    assert!(!st.exact_match);
    assert!(st.target_pitches.is_empty());
}

#[test]
fn find_is_find_with_katakana_support() {
    let dict = sample_dictionary();
    for q in all_queries() {
        assert_eq!(find(&dict, q), find_with_katakana_support(&dict, q));
    }
}

#[test]
fn collection_of_a_word_with_two_readings() {
    let dict = sample_dictionary();
    let pitch = sample_pitch();
    let st = collect(&dict, &pitch, "日本語");
    assert_eq!(st.target_readings, vec!["にほんご", "にっぽんご"]);
    assert!(st.exact_match);
    assert_eq!(st.target_pitches, vec![0]);
    assert_eq!(
        st.candidates,
        vec![
            WordFrequencyWithPitch {
                text: "日本語".to_string(),
                reading: "にほんご".to_string(),
                frequency_score: 49000,
                is_common: true,
                pitch_accent: vec![0],
            },
            WordFrequencyWithPitch {
                text: "日本語".to_string(),
                reading: "にっぽんご".to_string(),
                frequency_score: 0,
                is_common: false,
                pitch_accent: vec![],
            },
        ]
    );
}

#[test]
fn collection_of_a_katakana_word() {
    let dict = sample_dictionary();
    let pitch = sample_pitch();
    let st = collect(&dict, &pitch, "ソーセージ");
    assert_eq!(st.target_readings, vec!["そうせいじ", "ソーセージ"]);
    assert!(st.exact_match);
    assert_eq!(st.target_pitches, vec![1, 3]);
    assert_eq!(texts(&st.candidates), vec!["ソーセージ", "双生児", "ソーセージ"]);
    let st = collect(&dict, &pitch, "カイ");
    assert_eq!(st.target_readings, vec!["かい"]);
    assert!(!st.exact_match);
    assert!(st.target_pitches.is_empty());
}

#[test]
fn the_first_known_pitch_of_the_query_is_kept() {
    let dict = Dictionary {
        entries: vec![
            DictionaryEntry {
                kanji_elements: vec![KanjiElement { text: "角".to_string(), priority: rare() }],
                reading_elements: vec![
                    ReadingElement { text: "かど".to_string(), priority: rare() },
                    ReadingElement { text: "つの".to_string(), priority: rare() },
                    ReadingElement { text: "かく".to_string(), priority: rare() },
                ],
            },
            word("門", "かど", rare()),
        ],
    };
    let pitch = PitchAccentSource {
        records: vec![
            accents("つの", "角", &[2]),
            accents("かく", "角", &[1]),
            accents("かど", "門", &[1]),
        ],
    };
    match find_with_nhk(&dict, &pitch, "角") {
        FindWithNhkResult::UniqueMatch {
            pitch_accent,
            true_homophones,
            different_pitch_homophones,
        } => {
            assert_eq!(pitch_accent, vec![2]);
            assert_eq!(texts(&true_homophones), vec!["角", "角", "角"]);
            assert_eq!(texts(&different_pitch_homophones), vec!["門"]);
        }
        _ => panic!("角 has a homophone"),
    }
}

#[test]
fn unknown_pitch_counts_as_the_same_pitch() {
    let dict = sample_dictionary();
    match find_with_nhk(&dict, &PitchAccentSource::empty(), "構成") {
        FindWithNhkResult::UniqueMatch {
            pitch_accent,
            true_homophones,
            different_pitch_homophones,
        } => {
            assert!(pitch_accent.is_empty());
            assert_eq!(texts(&true_homophones), vec!["構成", "公正", "後世", "校正", "更正"]);
            assert!(different_pitch_homophones.is_empty());
        }
        _ => panic!("構成 has homophones"),
    }
    // The query's own pitch is unknown, that of 後世 is known: still the same.
    let pitch = PitchAccentSource { records: vec![accents("こうせい", "後世", &[1])] };
    match find_with_nhk(&dict, &pitch, "構成") {
        FindWithNhkResult::UniqueMatch { true_homophones, different_pitch_homophones, .. } => {
            assert!(true_homophones.iter().any(|w| w.text == "後世" && w.pitch_accent == vec![1]));
            assert!(different_pitch_homophones.is_empty());
        }
        _ => panic!("構成 has homophones"),
    }
}

#[test]
fn classification_of_given_collections() {
    let gathered = || {
        vec![
            pitched("箸", "はし", 500, &[1]),
            pitched("橋", "はし", 46000, &[2]),
            pitched("端", "はし", 38000, &[0, 2]),
            pitched("嘴", "はし", 0, &[]),
            pitched("橋", "きょう", 100, &[7]),
        ]
    };
    let exact = Collector {
        target_readings: vec!["はし".to_string()],
        candidates: gathered(),
        exact_match: true,
        target_pitches: vec![2],
    };
    match classify(exact, "橋") {
        FindWithNhkResult::UniqueMatch {
            pitch_accent,
            true_homophones,
            different_pitch_homophones,
        } => {
            assert_eq!(pitch_accent, vec![2]);
            assert_eq!(texts(&true_homophones), vec!["橋", "端", "嘴"]);
            assert_eq!(texts(&different_pitch_homophones), vec!["箸"]);
        }
        _ => panic!("a word among others read like it"),
    }
    let by_reading = Collector {
        target_readings: vec!["はし".to_string()],
        candidates: gathered(),
        exact_match: false,
        target_pitches: vec![],
    };
    match classify(by_reading, "はし") {
        FindWithNhkResult::MultipleMatches { homophones } => {
            assert_eq!(texts(&homophones), vec!["橋", "端", "箸", "橋", "嘴"]);
        }
        _ => panic!("a reading of several words"),
    }
    let alone = Collector {
        target_readings: vec!["きょう".to_string()],
        candidates: gathered(),
        exact_match: true,
        target_pitches: vec![7],
    };
    assert_eq!(classify(alone, "橋"), FindWithNhkResult::NoHomophones);
    let one_word = Collector {
        target_readings: vec![],
        candidates: vec![pitched("橋", "はし", 1, &[2]), pitched("橋", "きょう", 2, &[7])],
        exact_match: false,
        target_pitches: vec![],
    };
    assert_eq!(classify(one_word, "はし"), FindWithNhkResult::NoHomophones);
    let nothing = Collector {
        target_readings: vec![],
        candidates: vec![],
        exact_match: false,
        target_pitches: vec![],
    };
    assert_eq!(classify(nothing, "はし"), FindWithNhkResult::NoHomophones);
}

#[test]
fn results_are_in_order_and_without_duplicates() {
    let dict = sample_dictionary();
    let pitch = sample_pitch();
    for q in all_queries() {
        let found = find(&dict, q);
        let scores: Vec<u32> = found.iter().map(|w| w.frequency_score).collect();
        assert_in_order(&scores);
        let keys: Vec<(String, String)> =
            found.iter().map(|w| (w.text.clone(), w.reading.clone())).collect();
        assert_distinct(&keys);
        match find_with_nhk(&dict, &pitch, q) {
            FindWithNhkResult::NoHomophones => {}
            FindWithNhkResult::UniqueMatch { true_homophones, different_pitch_homophones, .. } => {
                check_list(&true_homophones);
                check_list(&different_pitch_homophones);
            }
            FindWithNhkResult::MultipleMatches { homophones } => check_list(&homophones),
        }
    }
}

#[test]
fn split_by_pitch_is_consistent() {
    let dict = sample_dictionary();
    let pitch = sample_pitch();
    let mut seen = 0;
    for q in all_queries() {
        if let FindWithNhkResult::UniqueMatch {
            pitch_accent,
            true_homophones,
            different_pitch_homophones,
        } = find_with_nhk(&dict, &pitch, q)
        {
            seen += 1;
            for w in &true_homophones {
                assert!(
                    w.text == q
                        || w.pitch_accent.is_empty()
                        || pitch_accent.is_empty()
                        || w.pitch_accent.iter().any(|p| pitch_accent.contains(p))
                );
            }
            for w in &different_pitch_homophones {
                assert!(!w.pitch_accent.is_empty());
                assert!(!w.pitch_accent.iter().any(|p| pitch_accent.contains(p)));
            }
        }
    }
    assert!(seen >= 4);
}

#[test]
fn kana_only_word_is_an_exact_match() {
    let dict = Dictionary {
        entries: vec![
            kana_word("はし", rare()),
            word("橋", "はし", common(5)),
        ],
    };
    let pitch = PitchAccentSource {
        records: vec![accents("はし", "はし", &[1]), accents("はし", "橋", &[2])],
    };
    match find_with_nhk(&dict, &pitch, "はし") {
        FindWithNhkResult::UniqueMatch {
            pitch_accent,
            true_homophones,
            different_pitch_homophones,
        } => {
            assert_eq!(pitch_accent, vec![1]);
            assert_eq!(texts(&true_homophones), vec!["はし"]);
            assert_eq!(texts(&different_pitch_homophones), vec!["橋"]);
        }
        _ => panic!("はし is a word of this dictionary"),
    }
}
