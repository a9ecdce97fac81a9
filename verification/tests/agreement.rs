use regex::Regex;
use std::collections::HashMap;
use textstats::keywords::KeywordDictionary;
use textstats::metrics::{
    avg_sentence_chars, avg_sentence_words, avg_word_length, character_count_no_spaces,
    character_total, line_count, longest_sentence_words, paragraph_count, sentence_count,
    shortest_sentence_words, unique_word_count, word_count,
};
use textstats::pattern::WordClass;
use textstats::ratio::Ratio;

fn jumbled(seed: &mut u64, alphabet: &[&str], longest: usize) -> String {
    let mut step = || {
        *seed = seed.wrapping_mul(6364136223846793005).wrapping_add(1442695040888963407);
        (*seed >> 33) as usize
    };
    let len = step() % (longest + 1);
    (0..len).map(|_| alphabet[step() % alphabet.len()]).collect()
}

fn ratio(numerator: usize, denominator: usize) -> Option<Ratio> {
    if denominator == 0 {
        None
    } else {
        Some(Ratio { numerator, denominator })
    }
}

#[test]
fn metrics_agree_with_a_direct_computation() {
    let class = WordClass::new().unwrap();
    let word = Regex::new(r"\w+").unwrap();
    let sentence = Regex::new(r"(?i)[^.!?]+[.!?]").unwrap();
    let gap = Regex::new(r"\n\s*\n").unwrap();
    let alphabet = [
        "the", "The", "THE", "cat", "Dog", "\u{c9}t\u{e9}", "\u{e9}t\u{e9}", "x_1", "42", " ",
        " ", " ", "\n", "\n", "\t", ".", "!", "?", ",", "-", "\u{a0}", "\r\n",
    ];
    let mut seed = 77u64;
    for round in 0..1500 {
        let text = jumbled(&mut seed, &alphabet, 3 + round % 30);
        let text = text.as_str();

        let words: Vec<&str> = word.find_iter(text).map(|m| m.as_str()).collect();
        let sentences: Vec<&str> = sentence.find_iter(text).map(|m| m.as_str()).collect();
        let mut per_sentence: Vec<usize> =
            sentences.iter().map(|part| word.find_iter(part).count()).collect();
        per_sentence.sort_unstable();
        let mut lowered: Vec<String> = Vec::new();
        for found in &words {
            let found = found.to_lowercase();
            if !lowered.contains(&found) {
                lowered.push(found);
            }
        }

        assert_eq!(word_count(&class, text), words.len(), "{:?}", text);
        assert_eq!(sentence_count(text), sentences.len(), "{:?}", text);
        assert_eq!(
            paragraph_count(text),
            if text.is_empty() { 0 } else { gap.split(text).count() },
            "{:?}",
            text
        );
        assert_eq!(line_count(text), text.lines().count(), "{:?}", text);
        assert_eq!(character_total(text), text.chars().count(), "{:?}", text);
        assert_eq!(
            character_count_no_spaces(text),
            text.chars().filter(|c| *c != ' ').count(),
            "{:?}",
            text
        );
        assert_eq!(unique_word_count(&class, text), lowered.len(), "{:?}", text);
        assert_eq!(
            longest_sentence_words(&class, text),
            per_sentence.last().copied().unwrap_or_default(),
            "{:?}",
            text
        );
        assert_eq!(
            shortest_sentence_words(&class, text),
            per_sentence.first().copied().unwrap_or_default(),
            "{:?}",
            text
        );
        assert_eq!(
            avg_word_length(&class, text),
            ratio(words.iter().map(|found| found.chars().count()).sum(), words.len()),
            "{:?}",
            text
        );
        assert_eq!(
            avg_sentence_words(&class, text),
            ratio(words.len(), sentences.len()),
            "{:?}",
            text
        );
        assert_eq!(
            avg_sentence_chars(text),
            ratio(text.chars().count(), sentences.len()),
            "{:?}",
            text
        );
    }
}

#[test]
fn keyword_tables_agree_with_a_hash_map() {
    let class = WordClass::new().unwrap();
    let word = Regex::new(r"\w+").unwrap();
    let alphabet = [
        "the", "The", "THE", "cat", "Cat", "dog", "\u{c9}t\u{e9}", "\u{e9}t\u{e9}", "x_1", " ",
        " ", "\n", ".", ",",
    ];
    let mut seed = 4242u64;
    for round in 0..1500 {
        let text = jumbled(&mut seed, &alphabet, 3 + round % 40);
        let text = text.as_str();
        for match_case in [true, false] {
            let mut occurrence: HashMap<String, usize> = HashMap::new();
            for found in word.find_iter(text) {
                let key = if match_case {
                    found.as_str().to_owned()
                } else {
                    found.as_str().to_lowercase()
                };
                *occurrence.entry(key).or_insert(0) += 1;
            }
            let dictionary = KeywordDictionary::build(&class, text, match_case);
            let table: HashMap<String, usize> = dictionary
                .entries()
                .iter()
                .map(|entry| (entry.word.clone(), entry.count))
                .collect();
            assert_eq!(table.len(), dictionary.len(), "{:?}", text);
            assert_eq!(table, occurrence, "{:?}", text);

            let ranked = dictionary.ranked();
            assert_eq!(ranked.len(), dictionary.len());
            for pair in ranked.windows(2) {
                assert!(pair[0].count >= pair[1].count, "{:?}", text);
            }
        }
    }
}
