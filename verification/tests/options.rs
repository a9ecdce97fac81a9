use textstats::options::{
    parse_rate, rate_or, MetricKind, OptionSet, StatisticOption, DEFAULT_HAND_WRITING_RATE,
    DEFAULT_READING_RATE, DEFAULT_SPEAKING_RATE, KIND_COUNT,
};

fn default_list() -> Vec<StatisticOption> {
    vec![
        StatisticOption::Words,
        StatisticOption::Characters,
        StatisticOption::Sentences,
        StatisticOption::Paragraphs,
        StatisticOption::ReadingTime(275),
        StatisticOption::SpeakingTime(180),
    ]
}

fn all_kinds() -> Vec<MetricKind> {
    (0..KIND_COUNT).filter_map(MetricKind::from_index).collect()
}

#[test]
fn fresh_set_lists_the_six_default_metrics() {
    assert_eq!(OptionSet::new().options(), default_list());
}

#[test]
fn restore_without_a_stored_list_gives_the_default() {
    assert_eq!(OptionSet::restore(None).options(), default_list());
    assert_eq!(OptionSet::restore(None).rate(MetricKind::HandWritingTime), 68);
}

#[test]
fn restore_keeps_a_stored_list() {
    let stored = vec![
        StatisticOption::UniqueWords,
        StatisticOption::LineCount,
        StatisticOption::HandWritingTime(40),
    ];
    let set = OptionSet::restore(Some(stored.clone()));
    assert_eq!(set.options(), stored);
    assert_eq!(set.rate(MetricKind::HandWritingTime), 40);
    assert_eq!(set.rate(MetricKind::ReadingTime), DEFAULT_READING_RATE);
    assert_eq!(set.rate(MetricKind::SpeakingTime), DEFAULT_SPEAKING_RATE);
    assert_eq!(OptionSet::restore(Some(Vec::new())).options(), Vec::new());
}

#[test]
fn restore_puts_a_stored_list_in_display_order_and_drops_repeats() {
    let stored = vec![
        StatisticOption::SpeakingTime(100),
        StatisticOption::Characters,
        StatisticOption::Words,
        StatisticOption::SpeakingTime(200),
        StatisticOption::Characters,
    ];
    assert_eq!(
        OptionSet::from_options(&stored).options(),
        vec![
            StatisticOption::Words,
            StatisticOption::Characters,
            StatisticOption::SpeakingTime(100),
        ]
    );
}

#[test]
fn stored_list_round_trips() {
    let mut set = OptionSet::new();
    set.toggle(MetricKind::AvgWordLength, true);
    set.toggle(MetricKind::Words, false);
    set.set_rate(MetricKind::ReadingTime, 301);
    set.set_rate(MetricKind::HandWritingTime, 12);
    let list = set.options();
    assert_eq!(OptionSet::restore(Some(list.clone())).options(), list);
}

#[test]
fn toggling_on_then_off_restores_the_list() {
    for kind in all_kinds() {
        let mut set = OptionSet::new();
        set.set_rate(MetricKind::SpeakingTime, 77);
        if set.is_enabled(kind) {
            continue;
        }
        let before = set.options();
        set.toggle(kind, true);
        assert_ne!(set.options(), before);
        assert!(set.is_enabled(kind));
        set.toggle(kind, false);
        assert_eq!(set.options(), before);
    }
}

#[test]
fn toggling_on_an_enabled_kind_then_off_removes_it() {
    let mut set = OptionSet::new();
    let before = set.options();
    set.toggle(MetricKind::Words, true);
    assert_eq!(set.options(), before);
    set.toggle(MetricKind::Words, false);
    assert_eq!(set.options(), before[1..].to_vec());
    set.toggle(MetricKind::Words, false);
    assert_eq!(set.options(), before[1..].to_vec());
}

#[test]
fn list_stands_in_display_order_without_repeats() {
    let mut set = OptionSet::new();
    for kind in all_kinds().into_iter().rev() {
        set.toggle(kind, true);
        set.toggle(kind, true);
    }
    let list = set.options();
    assert_eq!(list.len(), KIND_COUNT);
    for (position, option) in list.iter().enumerate() {
        assert_eq!(option.kind().index(), position);
    }
    assert_eq!(
        list,
        vec![
            StatisticOption::Words,
            StatisticOption::UniqueWords,
            StatisticOption::Characters,
            StatisticOption::CharacterCountNoSpaces,
            StatisticOption::Sentences,
            StatisticOption::LongestSentenceWords,
            StatisticOption::ShortestSentenceWords,
            StatisticOption::AvgSentenceWords,
            StatisticOption::AvgSentenceChars,
            StatisticOption::AvgWordLength,
            StatisticOption::Paragraphs,
            StatisticOption::LineCount,
            StatisticOption::ReadingTime(275),
            StatisticOption::SpeakingTime(180),
            StatisticOption::HandWritingTime(68),
        ]
    );
}

#[test]
fn a_new_rate_shows_at_once() {
    let mut set = OptionSet::new();
    set.set_rate(MetricKind::ReadingTime, 300);
    assert!(set.options().contains(&StatisticOption::ReadingTime(300)));
    assert!(!set.options().contains(&StatisticOption::ReadingTime(275)));
    let before = set.options();
    set.set_rate(MetricKind::HandWritingTime, 99);
    assert_eq!(set.options(), before);
    set.toggle(MetricKind::HandWritingTime, true);
    assert!(set.options().contains(&StatisticOption::HandWritingTime(99)));
    set.set_rate(MetricKind::Words, 5);
    assert_eq!(set.rate(MetricKind::Words), 0);
}

#[test]
fn default_rates() {
    assert_eq!(DEFAULT_READING_RATE, 275);
    assert_eq!(DEFAULT_SPEAKING_RATE, 180);
    assert_eq!(DEFAULT_HAND_WRITING_RATE, 68);
}

#[test]
fn kinds_and_options_convert() {
    for kind in all_kinds() {
        assert_eq!(MetricKind::from_index(kind.index()), Some(kind));
        let option = StatisticOption::of(kind, 42);
        assert_eq!(option.kind(), kind);
        let timed = matches!(
            kind,
            MetricKind::ReadingTime | MetricKind::SpeakingTime | MetricKind::HandWritingTime
        );
        assert_eq!(option.rate(), if timed { Some(42) } else { None });
    }
}

#[test]
fn there_are_fifteen_kinds() {
    assert_eq!(all_kinds().len(), 15);
    assert_eq!(MetricKind::from_index(0), Some(MetricKind::Words));
    assert_eq!(MetricKind::from_index(14), Some(MetricKind::HandWritingTime));
    assert_eq!(MetricKind::from_index(15), None);
    assert_eq!(MetricKind::from_index(usize::MAX), None);
}

#[test]
fn labels() {
    assert_eq!(MetricKind::Words.label(), "Words");
    assert_eq!(MetricKind::CharacterCountNoSpaces.label(), "Character Count (No Spaces)");
    assert_eq!(MetricKind::AvgSentenceChars.label(), "Avg. Sentence (Characters)");
    assert_eq!(MetricKind::HandWritingTime.label(), "Hand Writing Time");
    let mut seen: Vec<&str> = all_kinds().into_iter().map(|kind| kind.label()).collect();
    seen.sort();
    seen.dedup();
    assert_eq!(seen.len(), KIND_COUNT);
}

#[test]
fn rates_parse_as_the_standard_library_parses_them() {
    let max = usize::MAX.to_string();
    let over = format!("{}0", max);
    let next = "18446744073709551616";
    for input in [
        "275", "0", "007", "+12", "", "+", "-", "-1", "+-1", "12a", " 12", "12 ", "1_000",
        "1.5", "abc", "++1", "٣", &max, &over, next, "99999999999999999999999999",
    ] {
        let expected = input.parse::<usize>().unwrap_or_default();
        assert_eq!(parse_rate(input), expected, "{:?}", input);
    }
}

#[test]
fn a_missing_rate_falls_back() {
    assert_eq!(rate_or(None, 275), 275);
    assert_eq!(rate_or(Some("150"), 275), 150);
    assert_eq!(rate_or(Some("fast"), 275), 0);
}
