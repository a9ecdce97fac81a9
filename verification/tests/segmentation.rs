use regex::Regex;
use textstats::metrics::{
    line_count, paragraph_count, sentence_count, word_count,
};
use textstats::pattern::{PatternError, WordClass};
use textstats::segment::{
    lines, mask_runs, mask_sentences, paragraphs, sentences, word_strings, words, Span,
};
use textstats::text::{is_terminator, is_white_space};

fn samples() -> Vec<&'static str> {
    vec![
        "",
        "a",
        " ",
        "Hello world",
        "Hello world.",
        "Hi! Bye?",
        "Hi!! Bye?",
        "...",
        "?!",
        "One. Two! Three? Four",
        "a\n\nb",
        "a\nb",
        "a\n \t\n\n  b",
        "\n\n",
        "\n",
        "\n\nabc",
        "a\n\n",
        "a\r\n\r\nb",
        "a\n\r\nb\n\n\nc",
        "x\n\u{a0}\ny",
        "x\n\u{3000} \u{2028}\n end",
        "x\n\u{200b}\ny",
        "na\u{ef}ve caf\u{e9} \u{2014} Stra\u{df}e, \u{bd} \u{b2} \u{663} \u{4f60}\u{597d}\u{ff0c}\u{4e16}\u{754c}\u{ff01}",
        "e\u{301}tude d\u{e9}j\u{e0}-vu",
        "snake_case word2vec __init__",
        "tab\tseparated\tvalues",
        "don't stop",
        "line1\r\nline2\rline3\n",
        "\r",
        "a\r",
        "a\r\n",
        "\r\n",
        "a\n\nb\n",
        "trailing   ",
        "The quick brown fox. Jumps over the lazy dog! Does it? Yes",
        "\u{200c}joined\u{200d}up \u{203f}tie",
    ]
}

fn cut(text: &str, span: &Span) -> String {
    text.chars().skip(span.start).take(span.end - span.start).collect()
}

#[test]
fn words_are_the_matches_of_the_word_pattern() {
    let class = WordClass::new().unwrap();
    let pattern = Regex::new(r"\w+").unwrap();
    for text in samples() {
        let expected: Vec<String> =
            pattern.find_iter(text).map(|m| m.as_str().to_string()).collect();
        assert_eq!(word_strings(&class, text), expected, "{:?}", text);
        let spans = words(&class, text);
        let cuts: Vec<String> = spans.iter().map(|span| cut(text, span)).collect();
        assert_eq!(cuts, expected, "{:?}", text);
        assert_eq!(word_count(&class, text), expected.len(), "{:?}", text);
    }
}

#[test]
fn sentences_are_the_matches_of_the_sentence_pattern() {
    let pattern = Regex::new(r"(?i)[^.!?]+[.!?]").unwrap();
    for text in samples() {
        let expected: Vec<String> =
            pattern.find_iter(text).map(|m| m.as_str().to_string()).collect();
        let cuts: Vec<String> = sentences(text).iter().map(|span| cut(text, span)).collect();
        assert_eq!(cuts, expected, "{:?}", text);
        assert_eq!(sentence_count(text), expected.len(), "{:?}", text);
    }
}

#[test]
fn paragraphs_are_the_pieces_between_blank_lines() {
    let pattern = Regex::new(r"\n\s*\n").unwrap();
    for text in samples() {
        let expected: Vec<String> = if text.is_empty() {
            Vec::new()
        } else {
            pattern.split(text).map(|piece| piece.to_string()).collect()
        };
        let cuts: Vec<String> = paragraphs(text).iter().map(|span| cut(text, span)).collect();
        assert_eq!(cuts, expected, "{:?}", text);
        assert_eq!(paragraph_count(text), expected.len(), "{:?}", text);
    }
}

#[test]
fn lines_are_those_of_the_standard_library() {
    for text in samples() {
        let expected: Vec<String> = text.lines().map(|line| line.to_string()).collect();
        let cuts: Vec<String> = lines(text).iter().map(|span| cut(text, span)).collect();
        assert_eq!(cuts, expected, "{:?}", text);
        assert_eq!(line_count(text), expected.len(), "{:?}", text);
    }
}

#[test]
fn paragraph_count_of_given_texts() {
    assert_eq!(paragraph_count(""), 0);
    assert_eq!(paragraph_count("a\n\nb"), 2);
    assert_eq!(paragraph_count("a\nb"), 1);
}

#[test]
fn sentence_count_of_given_texts() {
    assert_eq!(sentence_count("Hello world"), 0);
    assert_eq!(sentence_count("Hello world."), 1);
    assert_eq!(sentence_count("Hi! Bye?"), 2);
}

#[test]
fn a_final_full_stop_ends_one_sentence_more() {
    for text in ["Hello world", "One. Two", "a", "x! y? z"] {
        let longer = format!("{}.", text);
        assert_eq!(sentence_count(&longer), sentence_count(text) + 1);
    }
}

#[test]
fn word_count_ignores_trailing_white_space() {
    let class = WordClass::new().unwrap();
    for text in samples() {
        for tail in [" ", "\n", "\t \r\n", "\u{a0}\u{2003}\u{3000}", "   \n\n  "] {
            let longer = format!("{}{}", text, tail);
            assert_eq!(word_count(&class, &longer), word_count(&class, text), "{:?}", text);
        }
    }
}

#[test]
fn a_final_line_feed_adds_no_line() {
    assert_eq!(line_count("a\nb"), 2);
    assert_eq!(line_count("a\nb\n"), 2);
    assert_eq!(line_count("a\nb\n\n"), 3);
    assert_eq!(line_count(""), 0);
    assert_eq!(line_count("\n"), 1);
}

#[test]
fn white_space_is_the_unicode_property() {
    let mut all = String::new();
    for code in 0..=0x10FFFFu32 {
        if let Some(c) = char::from_u32(code) {
            assert_eq!(is_white_space(c), c.is_whitespace(), "U+{:04X}", code);
            all.push(c);
        }
    }
    let pattern = Regex::new(r"\s").unwrap();
    let matched: Vec<char> =
        pattern.find_iter(&all).map(|m| m.as_str().chars().next().unwrap()).collect();
    let expected: Vec<char> = all.chars().filter(|c| is_white_space(*c)).collect();
    assert_eq!(matched, expected);
}

#[test]
fn word_class_is_the_word_class_of_the_pattern_engine() {
    let class = WordClass::new().unwrap();
    let mut all = String::new();
    for code in 0..=0x10FFFFu32 {
        if let Some(c) = char::from_u32(code) {
            all.push(c);
        }
    }
    let pattern = Regex::new(r"\w").unwrap();
    let matched: Vec<char> =
        pattern.find_iter(&all).map(|m| m.as_str().chars().next().unwrap()).collect();
    for c in &matched {
        assert!(!is_white_space(*c), "U+{:04X}", *c as u32);
    }
    let mut checked = 0usize;
    let mut next = matched.iter().peekable();
    for code in (0..0x3100u32).chain((0x3100..=0x10FFFFu32).step_by(37)) {
        if let Some(c) = char::from_u32(code) {
            while let Some(m) = next.peek() {
                if (**m as u32) < code {
                    next.next();
                } else {
                    break;
                }
            }
            let expected = next.peek().map_or(false, |m| **m == c);
            assert_eq!(class.contains(c), expected, "U+{:04X}", code);
            checked += 1;
        }
    }
    assert!(checked > 0x3000);
}

#[test]
fn word_class_knows_plain_characters() {
    let class = WordClass::new().unwrap();
    for c in ['a', 'Z', '0', '9', '_', '\u{e9}', '\u{4f60}', '\u{301}'] {
        assert!(class.contains(c), "{:?}", c);
    }
    for c in [' ', '\n', '.', '-', '\'', '!', '\u{2014}', '\u{bd}', '\u{a0}'] {
        assert!(!class.contains(c), "{:?}", c);
    }
}

#[test]
fn word_class_by_what_the_engine_made() {
    assert!(WordClass::from_compiled(Regex::new(r"\w+")).is_ok());
    assert!(matches!(
        WordClass::from_compiled(Regex::new(r"\w+(")),
        Err(PatternError::Rejected)
    ));
    assert!(WordClass::new().is_ok());
}

#[test]
fn terminators_are_three() {
    for code in 0..0x3000u32 {
        if let Some(c) = char::from_u32(code) {
            assert_eq!(is_terminator(c), c == '.' || c == '!' || c == '?');
        }
    }
}

#[test]
fn runs_of_a_mask() {
    let mask = [false, true, true, false, true, false, false, true];
    assert_eq!(
        mask_runs(&mask),
        vec![
            Span { start: 1, end: 3 },
            Span { start: 4, end: 5 },
            Span { start: 7, end: 8 },
        ]
    );
    assert_eq!(mask_runs(&[]), Vec::<Span>::new());
    assert_eq!(mask_runs(&[true, true]), vec![Span { start: 0, end: 2 }]);
}

#[test]
fn sentences_of_a_mask() {
    let body = [true, true, false, false, true, false, true, true];
    assert_eq!(
        mask_sentences(&body),
        vec![Span { start: 0, end: 3 }, Span { start: 4, end: 6 }]
    );
    assert_eq!(mask_sentences(&[false, false]), Vec::<Span>::new());
    assert_eq!(mask_sentences(&[true, true]), Vec::<Span>::new());
}

#[test]
fn span_length() {
    assert_eq!(Span { start: 3, end: 8 }.len(), 5);
    assert_eq!(Span { start: 3, end: 3 }.len(), 0);
    assert_eq!(Span { start: 8, end: 3 }.len(), 0);
}

fn scrambled(seed: &mut u64, alphabet: &[char], longest: usize) -> String {
    let mut step = || {
        *seed = seed.wrapping_mul(6364136223846793005).wrapping_add(1442695040888963407);
        (*seed >> 33) as usize
    };
    let len = step() % (longest + 1);
    (0..len).map(|_| alphabet[step() % alphabet.len()]).collect()
}

#[test]
fn segmentation_agrees_with_the_patterns_on_scrambled_texts() {
    let class = WordClass::new().unwrap();
    let word = Regex::new(r"\w+").unwrap();
    let sentence = Regex::new(r"(?i)[^.!?]+[.!?]").unwrap();
    let gap = Regex::new(r"\n\s*\n").unwrap();
    let alphabet = [
        'a', 'B', '7', '_', ' ', ' ', '\n', '\n', '\r', '\t', '.', '!', '?', ',', '-',
        '\u{a0}', '\u{2028}', '\u{3000}', '\u{e9}', '\u{301}', '\u{4f60}', '\u{bd}',
        '\u{200d}', '\u{85}',
    ];
    let mut seed = 20240229u64;
    for round in 0..4000 {
        let text = scrambled(&mut seed, &alphabet, 4 + round % 40);
        let text = text.as_str();

        let expected: Vec<String> = word.find_iter(text).map(|m| m.as_str().to_string()).collect();
        assert_eq!(word_strings(&class, text), expected, "{:?}", text);

        let expected: Vec<String> =
            sentence.find_iter(text).map(|m| m.as_str().to_string()).collect();
        let cuts: Vec<String> = sentences(text).iter().map(|span| cut(text, span)).collect();
        assert_eq!(cuts, expected, "{:?}", text);

        let expected: Vec<String> = if text.is_empty() {
            Vec::new()
        } else {
            gap.split(text).map(|piece| piece.to_string()).collect()
        };
        let cuts: Vec<String> = paragraphs(text).iter().map(|span| cut(text, span)).collect();
        assert_eq!(cuts, expected, "{:?}", text);

        let expected: Vec<String> = text.lines().map(|line| line.to_string()).collect();
        let cuts: Vec<String> = lines(text).iter().map(|span| cut(text, span)).collect();
        assert_eq!(cuts, expected, "{:?}", text);
    }
}
