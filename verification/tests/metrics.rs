use textstats::metrics::{
    avg_sentence_chars, avg_sentence_words, avg_word_length, character_count_no_spaces,
    character_total, count_sentence_words, largest_of, longest_sentence_words,
    shortest_sentence_words, smallest_of, unique_word_count, word_characters, word_count,
};
use textstats::pattern::WordClass;
use textstats::ratio::Ratio;
use textstats::text::chars_of;

#[test]
fn characters_are_scalar_values() {
    assert_eq!(character_total(""), 0);
    assert_eq!(character_total("abc"), 3);
    assert_eq!(character_total("h\u{e9}llo \u{4f60}\u{597d}"), 8);
    assert_eq!(character_total("e\u{301}"), 2);
}

#[test]
fn only_the_space_is_left_out() {
    assert_eq!(character_count_no_spaces(""), 0);
    assert_eq!(character_count_no_spaces("a b  c"), 3);
    assert_eq!(character_count_no_spaces("a\tb\nc\u{a0}d e"), 8);
    assert_eq!(character_count_no_spaces("   "), 0);
}

#[test]
fn averages_over_nothing_are_none() {
    let class = WordClass::new().unwrap();
    assert_eq!(avg_word_length(&class, ""), None);
    assert_eq!(avg_sentence_words(&class, ""), None);
    assert_eq!(avg_sentence_chars(""), None);
    assert_eq!(avg_word_length(&class, " .,! "), None);
    assert_eq!(avg_sentence_words(&class, "Hello world"), None);
    assert_eq!(avg_sentence_chars("Hello world"), None);
}

#[test]
fn averages_keep_total_and_count() {
    let class = WordClass::new().unwrap();
    let text = "One two. Three four five! Six";
    assert_eq!(
        avg_word_length(&class, text),
        Some(Ratio { numerator: 22, denominator: 6 })
    );
    assert_eq!(
        avg_sentence_words(&class, text),
        Some(Ratio { numerator: 6, denominator: 2 })
    );
    assert_eq!(
        avg_sentence_chars(text),
        Some(Ratio { numerator: 29, denominator: 2 })
    );
    assert_eq!(
        avg_word_length(&class, "h\u{e9}llo \u{4f60}\u{597d}"),
        Some(Ratio { numerator: 7, denominator: 2 })
    );
}

#[test]
fn word_characters_of_a_text() {
    let class = WordClass::new().unwrap();
    assert_eq!(word_characters(&class, ""), 0);
    assert_eq!(word_characters(&class, "ab, cde!"), 5);
}

#[test]
fn sentences_by_their_words() {
    let class = WordClass::new().unwrap();
    let text = "One two. Three four five! Six? Seven eight";
    assert_eq!(count_sentence_words(&class, text), vec![2, 3, 1]);
    assert_eq!(longest_sentence_words(&class, text), 3);
    assert_eq!(shortest_sentence_words(&class, text), 1);
    assert_eq!(count_sentence_words(&class, " , ."), vec![0]);
    assert_eq!(shortest_sentence_words(&class, "a b. , ."), 0);
}

#[test]
fn extremes_without_a_sentence_are_zero() {
    let class = WordClass::new().unwrap();
    assert_eq!(longest_sentence_words(&class, ""), 0);
    assert_eq!(shortest_sentence_words(&class, ""), 0);
    assert_eq!(longest_sentence_words(&class, "no end"), 0);
    assert_eq!(shortest_sentence_words(&class, "no end"), 0);
    assert_eq!(largest_of(&Vec::new()), 0);
    assert_eq!(smallest_of(&Vec::new()), 0);
}

#[test]
fn extremes_of_numbers() {
    assert_eq!(largest_of(&vec![3, 9, 2, 9, 1]), 9);
    assert_eq!(smallest_of(&vec![3, 9, 2, 9, 1]), 1);
    assert_eq!(smallest_of(&vec![5]), 5);
    assert_eq!(largest_of(&vec![0, 0]), 0);
    assert_eq!(smallest_of(&vec![4, 0, 7]), 0);
}

#[test]
fn unique_words_set_case_aside() {
    let class = WordClass::new().unwrap();
    assert_eq!(unique_word_count(&class, ""), 0);
    assert_eq!(unique_word_count(&class, "Cat cat CAT dog"), 2);
    assert_eq!(unique_word_count(&class, "a b c a B C d"), 4);
    assert_eq!(word_count(&class, "a b c a B C d"), 7);
}

#[test]
fn characters_of_a_text() {
    let chars = chars_of("h\u{e9}llo");
    assert_eq!(chars, vec!['h', '\u{e9}', 'l', 'l', 'o']);
    assert_eq!(chars_of(""), Vec::new());
}
