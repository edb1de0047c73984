use jaydar::PriorityInCorpus::{Absent, Primary, Secondary};
use jaydar::{
    find, find_with_nhk, Dictionary, DictionaryEntry, FindWithNhkResult, KanjiElement,
    PitchAccentSource, PitchRecord, Priority, PriorityInCorpus, ReadingElement,
};

fn priority(
    frequency_bucket: u16,
    news: PriorityInCorpus,
    ichimango: PriorityInCorpus,
    loanwords: PriorityInCorpus,
    additional: PriorityInCorpus,
) -> Priority {
    Priority { news, ichimango, loanwords, additional, frequency_bucket }
}

/// Primary in the news corpus and in the general corpus, with a bucket.
fn common(bucket: u16) -> Priority {
    priority(bucket, Primary, Primary, Absent, Absent)
}

/// Primary in the news corpus only, with a bucket.
fn news1(bucket: u16) -> Priority {
    priority(bucket, Primary, Absent, Absent, Absent)
}

/// Secondary in the news corpus only, with a bucket.
fn news2(bucket: u16) -> Priority {
    priority(bucket, Secondary, Absent, Absent, Absent)
}

/// Primary in the general corpus only, unranked.
fn ichi1() -> Priority {
    priority(0, Absent, Primary, Absent, Absent)
}

/// Primary in the loanword corpus only, unranked.
fn gai1() -> Priority {
    priority(0, Absent, Absent, Primary, Absent)
}

fn rare() -> Priority {
    priority(0, Absent, Absent, Absent, Absent)
}

/// An entry with one kanji spelling and one reading of the same priority.
fn word(kanji: &str, reading: &str, p: Priority) -> DictionaryEntry {
    DictionaryEntry {
        kanji_elements: vec![KanjiElement { text: kanji.to_string(), priority: p }],
        reading_elements: vec![ReadingElement { text: reading.to_string(), priority: p }],
    }
}

/// An entry that is written in kana alone.
fn kana_word(reading: &str, p: Priority) -> DictionaryEntry {
    DictionaryEntry {
        kanji_elements: vec![],
        reading_elements: vec![ReadingElement { text: reading.to_string(), priority: p }],
    }
}

fn sample_dictionary() -> Dictionary {
    let entries = vec![
        word("買う", "かう", common(3)),
        word("飼う", "かう", ichi1()),
        word("支う", "かう", rare()),
        word("後世", "こうせい", news1(14)),
        word("構成", "こうせい", common(2)),
        word("公正", "こうせい", common(6)),
        word("校正", "こうせい", news2(25)),
        word("更正", "こうせい", news2(30)),
        word("会", "かい", common(1)),
        word("回", "かい", common(1)),
        word("階", "かい", common(4)),
        word("貝", "かい", common(10)),
        word("橋", "はし", common(5)),
        word("箸", "はし", ichi1()),
        word("端", "はし", common(12)),
        word("回答", "かいとう", common(7)),
        word("解答", "かいとう", common(9)),
        word("解凍", "かいとう", news2(35)),
        word("程度", "ていど", common(1)),
        word("底土", "ていど", rare()),
        word("中国語", "ちゅうごくご", common(8)),
        kana_word("タピオカ", gai1()),
        DictionaryEntry {
            kanji_elements: vec![KanjiElement { text: "日本語".to_string(), priority: common(2) }],
            reading_elements: vec![
                ReadingElement { text: "にほんご".to_string(), priority: common(2) },
                ReadingElement { text: "にっぽんご".to_string(), priority: rare() },
            ],
        },
        kana_word("ソーセージ", gai1()),
        word("双生児", "そうせいじ", news2(28)),
    ];
    Dictionary { entries }
}

fn accents(reading: &str, surface: &str, accents: &[u8]) -> PitchRecord {
    PitchRecord {
        reading: reading.to_string(),
        surface: surface.to_string(),
        accents: accents.to_vec(),
    }
}

fn sample_pitch() -> PitchAccentSource {
    PitchAccentSource {
        records: vec![
            accents("こうせい", "構成", &[0]),
            accents("こうせい", "公正", &[0]),
            accents("こうせい", "後世", &[1]),
            accents("こうせい", "校正", &[0]),
            accents("はし", "橋", &[2]),
            accents("はし", "箸", &[1]),
            accents("はし", "端", &[0]),
            accents("ていど", "程度", &[1, 0]),
            accents("ソーセージ", "ソーセージ", &[1, 3]),
            accents("そうせいじ", "双生児", &[3]),
            accents("にほんご", "日本語", &[0]),
        ],
    }
}

#[test]
fn test_find_homophones() {
    let dict = sample_dictionary();
    let results = find(&dict, "かう");
    assert!(!results.is_empty());

    // Should find multiple homophones like 買う, 飼う, 支う, etc.
    let texts: Vec<&str> = results.iter().map(|w| w.text.as_str()).collect();
    assert!(texts.contains(&"買う"));
    assert!(texts.contains(&"飼う"));

    // Check that they're sorted by frequency
    for i in 1..results.len() {
        assert!(results[i - 1].frequency_score >= results[i].frequency_score);
    }
}

#[test]
fn test_common_words_marked() {
    let dict = sample_dictionary();
    let results = find(&dict, "こうせい");

    // Find common words
    let kousei = results.iter().find(|w| w.text == "構成");
    assert!(kousei.is_some());
    assert!(kousei.unwrap().is_common);

    let kousei2 = results.iter().find(|w| w.text == "公正");
    assert!(kousei2.is_some());
    assert!(kousei2.unwrap().is_common);
}

#[test]
fn test_frequency_ranking() {
    let dict = sample_dictionary();
    let results = find(&dict, "こうせい");

    // Common words should rank higher
    let kousei_idx = results.iter().position(|w| w.text == "構成").unwrap();
    let kousetsu_idx = results.iter().position(|w| w.text == "校正").unwrap_or(999);

    // 構成 should rank higher than 校正
    assert!(kousei_idx < kousetsu_idx);
}

#[test]
fn test_katakana_input() {
    let dict = sample_dictionary();
    let results = find(&dict, "カイ");
    assert!(!results.is_empty());

    // Should find kanji/hiragana homophones
    let texts: Vec<&str> = results.iter().map(|w| w.text.as_str()).collect();
    assert!(texts.iter().any(|t| t.contains("会")));
    assert!(texts.iter().any(|t| t.contains("回")));
    assert!(texts.iter().any(|t| t.contains("階")));
}

#[test]
fn test_with_nhk() {
    let dict = sample_dictionary();
    let pitch = sample_pitch();
    // Test searching by reading - should return MultipleMatches
    let result = find_with_nhk(&dict, &pitch, "こうせい");
    match result {
        FindWithNhkResult::MultipleMatches { homophones } => {
            assert!(!homophones.is_empty());

            // Find entries with pitch data
            let kousei = homophones.iter().find(|w| w.text == "構成");
            assert!(kousei.is_some());

            let kousei = kousei.unwrap();
            assert!(!kousei.pitch_accent.is_empty());
        }
        _ => panic!("Expected MultipleMatches for reading input"),
    }

    // Test searching by specific word - should return UniqueMatch
    let result2 = find_with_nhk(&dict, &pitch, "構成");
    match result2 {
        FindWithNhkResult::UniqueMatch { true_homophones, different_pitch_homophones, .. } => {
            // Find 構成 in true homophones
            let kousei = true_homophones.iter().find(|w| w.text == "構成");
            assert!(kousei.is_some(), "構成 should be in true_homophones");

            // Find 後世 - it should be in different_pitch if it has different pitch
            let kousei2 = true_homophones
                .iter()
                .find(|w| w.text == "後世")
                .or_else(|| different_pitch_homophones.iter().find(|w| w.text == "後世"));

            if let (Some(k1), Some(k2)) = (kousei, kousei2) {
                if !k1.pitch_accent.is_empty() && !k2.pitch_accent.is_empty() {
                    // Check if they have common pitch
                    let have_common_pitch =
                        k1.pitch_accent.iter().any(|p| k2.pitch_accent.contains(p));

                    if have_common_pitch {
                        assert!(true_homophones.iter().any(|w| w.text == "後世"));
                    } else {
                        assert!(different_pitch_homophones.iter().any(|w| w.text == "後世"));
                    }
                }
            }
        }
        _ => panic!("Expected UniqueMatch for specific word input"),
    }
}

#[test]
fn test_difficult_cases() {
    let dict = sample_dictionary();
    // 1. Multiple readings with different frequencies
    let results = find(&dict, "かいとう");
    assert!(!results.is_empty());
    let kaitou = results.iter().find(|w| w.text == "回答");
    assert!(kaitou.is_some());
    assert!(kaitou.unwrap().frequency_score > 40000); // Should be common

    // 2. Rare vs common words
    let results = find(&dict, "こうせい");
    let kousei_freq = results.iter().find(|w| w.text == "構成").unwrap().frequency_score;
    let kousei_rare = results.iter().find(|w| w.text == "更正");
    if let Some(rare) = kousei_rare {
        assert!(kousei_freq > rare.frequency_score);
    }
}

#[test]
fn test_pitch_accent_discrimination() {
    let dict = sample_dictionary();
    let pitch = sample_pitch();
    // When searching by reading, should return MultipleMatches
    let result = find_with_nhk(&dict, &pitch, "はし");
    match result {
        FindWithNhkResult::MultipleMatches { homophones } => {
            assert!(!homophones.is_empty());
            // All words should be present
            assert!(homophones.iter().any(|w| w.text == "橋"));
            assert!(homophones.iter().any(|w| w.text == "箸"));
        }
        _ => panic!("Expected MultipleMatches for reading input"),
    }

    // Test searching by specific word
    let result_bridge = find_with_nhk(&dict, &pitch, "橋");
    match result_bridge {
        FindWithNhkResult::UniqueMatch { true_homophones, different_pitch_homophones, .. } => {
            let bridge = true_homophones.iter().find(|w| w.text == "橋");
            assert!(bridge.is_some(), "橋 should be in true_homophones");

            // Find 箸 - it should be in different_pitch if it has different pitch
            let chopsticks = true_homophones
                .iter()
                .find(|w| w.text == "箸")
                .or_else(|| different_pitch_homophones.iter().find(|w| w.text == "箸"));

            if let (Some(b), Some(c)) = (bridge, chopsticks) {
                if !b.pitch_accent.is_empty() && !c.pitch_accent.is_empty() {
                    // They should have different pitch accents
                    let have_common_pitch =
                        b.pitch_accent.iter().any(|p| c.pitch_accent.contains(p));

                    if have_common_pitch {
                        assert!(true_homophones.iter().any(|w| w.text == "箸"));
                    } else {
                        assert!(different_pitch_homophones.iter().any(|w| w.text == "箸"));
                    }
                }
            }
        }
        _ => panic!("Expected UniqueMatch for specific word input"),
    }
}

#[test]
fn test_katakana_with_pitch() {
    let dict = sample_dictionary();
    let pitch = sample_pitch();
    let result = find_with_nhk(&dict, &pitch, "ソーセージ");
    match result {
        FindWithNhkResult::UniqueMatch { true_homophones, .. } => {
            // Should find both ソーセージ and 双生児
            let sausage = true_homophones.iter().find(|w| w.text == "ソーセージ");
            assert!(sausage.is_some(), "ソーセージ should be found");

            // Check if 双生児 is present (might be in either list)
            let all_words: Vec<_> = true_homophones.iter().collect();
            assert!(all_words.iter().any(|w| w.text == "ソーセージ"));
        }
        FindWithNhkResult::NoHomophones => {
            // This is also valid if ソーセージ has no homophones
        }
        _ => panic!("Expected UniqueMatch or NoHomophones for katakana input"),
    }
}

#[test]
fn test_multiple_pitch_accents() {
    let dict = sample_dictionary();
    let pitch = sample_pitch();
    let result = find_with_nhk(&dict, &pitch, "ていど");
    match result {
        FindWithNhkResult::MultipleMatches { homophones } => {
            // Find 程度
            let teido = homophones.iter().find(|w| w.text == "程度");
            assert!(teido.is_some());

            let teido = teido.unwrap();
            // Should have multiple pitch accents (1 and 0)
            assert!(teido.pitch_accent.len() > 1, "程度 should have multiple pitch accents");
            assert!(teido.pitch_accent.contains(&1), "程度 should have pitch accent 1");
            assert!(teido.pitch_accent.contains(&0), "程度 should have pitch accent 0");
        }
        _ => panic!("Expected MultipleMatches for reading input"),
    }
}

#[test]
fn test_no_homophones() {
    let dict = sample_dictionary();
    let pitch = sample_pitch();
    let result = find_with_nhk(&dict, &pitch, "中国語");
    match result {
        FindWithNhkResult::NoHomophones => {
            // This is expected
        }
        _ => panic!("Expected NoHomophones for 中国語"),
    }

    // タピオカ - should have no homophones (even if it has multiple readings)
    let result2 = find_with_nhk(&dict, &pitch, "タピオカ");
    match result2 {
        FindWithNhkResult::NoHomophones => {
            // This is expected
        }
        _ => panic!("Expected NoHomophones for タピオカ"),
    }

    // にほんご - specific enough to only be 日本語
    let result3 = find_with_nhk(&dict, &pitch, "にほんご");
    match result3 {
        FindWithNhkResult::NoHomophones => {
            // This is expected
        }
        _ => panic!("Expected NoHomophones for にほんご"),
    }
}

#[test]
fn reading_query_lists_every_word_with_that_reading() {
    let dict = sample_dictionary();
    let pitch = sample_pitch();
    match find_with_nhk(&dict, &pitch, "こうせい") {
        FindWithNhkResult::MultipleMatches { homophones } => {
            let kousei = homophones.iter().find(|w| w.text == "構成").unwrap();
            let kousei2 = homophones.iter().find(|w| w.text == "後世").unwrap();
            assert!(kousei.frequency_score > kousei2.frequency_score);
            let texts: Vec<&str> = homophones.iter().map(|w| w.text.as_str()).collect();
            assert_eq!(texts, vec!["構成", "公正", "後世", "校正", "更正"]);
            let scores: Vec<u32> = homophones.iter().map(|w| w.frequency_score).collect();
            assert_eq!(scores, vec![49000, 45000, 36500, 25200, 20200]);
        }
        _ => panic!("a reading that several words share gives MultipleMatches"),
    }
}

#[test]
fn word_query_splits_by_pitch() {
    let dict = sample_dictionary();
    let pitch = sample_pitch();
    match find_with_nhk(&dict, &pitch, "構成") {
        FindWithNhkResult::UniqueMatch {
            pitch_accent,
            true_homophones,
            different_pitch_homophones,
        } => {
            assert_eq!(pitch_accent, vec![0]);
            let same: Vec<&str> = true_homophones.iter().map(|w| w.text.as_str()).collect();
            // 更正 has no pitch data: unknown pitch counts as the same pitch.
            assert_eq!(same, vec!["構成", "公正", "校正", "更正"]);
            let other: Vec<&str> =
                different_pitch_homophones.iter().map(|w| w.text.as_str()).collect();
            assert_eq!(other, vec!["後世"]);
            assert_eq!(different_pitch_homophones[0].pitch_accent, vec![1]);
        }
        _ => panic!("a word with homophones gives UniqueMatch"),
    }
}

#[test]
fn bridge_and_chopsticks_differ_in_pitch() {
    let dict = sample_dictionary();
    let pitch = sample_pitch();
    match find_with_nhk(&dict, &pitch, "橋") {
        FindWithNhkResult::UniqueMatch { pitch_accent, different_pitch_homophones, .. } => {
            assert_eq!(pitch_accent, vec![2]);
            assert!(different_pitch_homophones.iter().any(|w| w.text == "箸"));
        }
        _ => panic!("橋 has homophones"),
    }
    match find_with_nhk(&dict, &pitch, "箸") {
        FindWithNhkResult::UniqueMatch { pitch_accent, different_pitch_homophones, .. } => {
            assert_eq!(pitch_accent, vec![1]);
            assert!(different_pitch_homophones.iter().any(|w| w.text == "橋"));
        }
        _ => panic!("箸 has homophones"),
    }
}

#[test]
fn katakana_query_reaches_words_by_normalized_reading() {
    let dict = sample_dictionary();
    let pitch = sample_pitch();
    let results = find(&dict, "カイ");
    for text in ["会", "回", "階", "貝"] {
        assert!(results.iter().any(|w| w.text == text && w.reading == "かい"));
    }
    match find_with_nhk(&dict, &pitch, "カイ") {
        FindWithNhkResult::MultipleMatches { homophones } => {
            for text in ["会", "回", "階", "貝"] {
                assert!(homophones.iter().any(|w| w.text == text));
            }
        }
        _ => panic!("カイ is read like several words"),
    }
}

#[test]
fn word_with_unique_reading_has_no_homophones() {
    let dict = sample_dictionary();
    let pitch = sample_pitch();
    match find_with_nhk(&dict, &pitch, "日本語") {
        FindWithNhkResult::NoHomophones => {}
        FindWithNhkResult::UniqueMatch { true_homophones, different_pitch_homophones, .. } => {
            assert!(different_pitch_homophones.is_empty());
            assert_eq!(true_homophones.len(), 1);
        }
        FindWithNhkResult::MultipleMatches { .. } => panic!("日本語 names one word"),
    }
    assert_eq!(find_with_nhk(&dict, &pitch, "にほんご"), FindWithNhkResult::NoHomophones);
}
