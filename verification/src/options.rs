//! The metrics a session can show, and the set of those it has enabled.

use crate::text::chars_of;
use vstd::prelude::*;

verus! {

/// Reading rate of a fresh session, in words per minute.
pub const DEFAULT_READING_RATE: usize = 275;

/// Speaking rate of a fresh session, in words per minute.
pub const DEFAULT_SPEAKING_RATE: usize = 180;

/// Handwriting rate of a fresh session, in words per minute.
pub const DEFAULT_HAND_WRITING_RATE: usize = 68;

/// Number of metric kinds.
pub const KIND_COUNT: usize = 15;

/// A metric without its parameter. The variants stand in display order.
#[derive(Clone, Copy, Debug, PartialEq, Eq, Structural)]
pub enum MetricKind {
    Words,
    UniqueWords,
    Characters,
    CharacterCountNoSpaces,
    Sentences,
    LongestSentenceWords,
    ShortestSentenceWords,
    AvgSentenceWords,
    AvgSentenceChars,
    AvgWordLength,
    Paragraphs,
    LineCount,
    ReadingTime,
    SpeakingTime,
    HandWritingTime,
}

/// One displayable metric. The three timing metrics carry their rate, in
/// words per minute.
#[derive(Clone, Copy, Debug, PartialEq, Eq, PartialOrd, Ord, Structural)]
pub enum StatisticOption {
    Characters,
    CharacterCountNoSpaces,
    LineCount,
    Paragraphs,
    Sentences,
    LongestSentenceWords,
    ShortestSentenceWords,
    AvgSentenceWords,
    AvgSentenceChars,
    AvgWordLength,
    ReadingTime(usize),
    SpeakingTime(usize),
    HandWritingTime(usize),
    UniqueWords,
    Words,
}

impl MetricKind {
    /// Place of the kind in display order.
    pub open spec fn position(self) -> int {
        match self {
            MetricKind::Words => 0,
            MetricKind::UniqueWords => 1,
            MetricKind::Characters => 2,
            MetricKind::CharacterCountNoSpaces => 3,
            MetricKind::Sentences => 4,
            MetricKind::LongestSentenceWords => 5,
            MetricKind::ShortestSentenceWords => 6,
            MetricKind::AvgSentenceWords => 7,
            MetricKind::AvgSentenceChars => 8,
            MetricKind::AvgWordLength => 9,
            MetricKind::Paragraphs => 10,
            MetricKind::LineCount => 11,
            MetricKind::ReadingTime => 12,
            MetricKind::SpeakingTime => 13,
            MetricKind::HandWritingTime => 14,
        }
    }

    /// The kind that stands at `position` in display order.
    pub open spec fn at(position: int) -> MetricKind {
        if position == 0 {
            MetricKind::Words
        } else if position == 1 {
            MetricKind::UniqueWords
        } else if position == 2 {
            MetricKind::Characters
        } else if position == 3 {
            MetricKind::CharacterCountNoSpaces
        } else if position == 4 {
            MetricKind::Sentences
        } else if position == 5 {
            MetricKind::LongestSentenceWords
        } else if position == 6 {
            MetricKind::ShortestSentenceWords
        } else if position == 7 {
            MetricKind::AvgSentenceWords
        } else if position == 8 {
            MetricKind::AvgSentenceChars
        } else if position == 9 {
            MetricKind::AvgWordLength
        } else if position == 10 {
            MetricKind::Paragraphs
        } else if position == 11 {
            MetricKind::LineCount
        } else if position == 12 {
            MetricKind::ReadingTime
        } else if position == 13 {
            MetricKind::SpeakingTime
        } else {
            MetricKind::HandWritingTime
        }
    }

    /// Whether the kind carries a rate.
    pub open spec fn has_rate(self) -> bool {
        self == MetricKind::ReadingTime || self == MetricKind::SpeakingTime || self
            == MetricKind::HandWritingTime
    }

    /// The name under which the kind is shown.
    pub open spec fn label_text(self) -> Seq<char> {
        match self {
            MetricKind::Words => "Words"@,
            MetricKind::UniqueWords => "Unique Words"@,
            MetricKind::Characters => "Characters"@,
            MetricKind::CharacterCountNoSpaces => "Character Count (No Spaces)"@,
            MetricKind::Sentences => "Sentences"@,
            MetricKind::LongestSentenceWords => "Longest Sentence (Words)"@,
            MetricKind::ShortestSentenceWords => "Shortest Sentence (Words)"@,
            MetricKind::AvgSentenceWords => "Avg. Sentence (Words)"@,
            MetricKind::AvgSentenceChars => "Avg. Sentence (Characters)"@,
            MetricKind::AvgWordLength => "Avg. Word Length"@,
            MetricKind::Paragraphs => "Paragraphs"@,
            MetricKind::LineCount => "Line Count"@,
            MetricKind::ReadingTime => "Reading Time"@,
            MetricKind::SpeakingTime => "Speaking Time"@,
            MetricKind::HandWritingTime => "Hand Writing Time"@,
        }
    }

    /// The name under which the kind is shown.
    pub fn label(self) -> (label: &'static str)
        ensures
            label@ == self.label_text(),
    {
        match self {
            MetricKind::Words => "Words",
            MetricKind::UniqueWords => "Unique Words",
            MetricKind::Characters => "Characters",
            MetricKind::CharacterCountNoSpaces => "Character Count (No Spaces)",
            MetricKind::Sentences => "Sentences",
            MetricKind::LongestSentenceWords => "Longest Sentence (Words)",
            MetricKind::ShortestSentenceWords => "Shortest Sentence (Words)",
            MetricKind::AvgSentenceWords => "Avg. Sentence (Words)",
            MetricKind::AvgSentenceChars => "Avg. Sentence (Characters)",
            MetricKind::AvgWordLength => "Avg. Word Length",
            MetricKind::Paragraphs => "Paragraphs",
            MetricKind::LineCount => "Line Count",
            MetricKind::ReadingTime => "Reading Time",
            MetricKind::SpeakingTime => "Speaking Time",
            MetricKind::HandWritingTime => "Hand Writing Time",
        }
    }

    /// Place of the kind in display order.
    pub fn index(self) -> (i: usize)
        ensures
            i == self.position(),
            i < KIND_COUNT,
    {
        match self {
            MetricKind::Words => 0,
            MetricKind::UniqueWords => 1,
            MetricKind::Characters => 2,
            MetricKind::CharacterCountNoSpaces => 3,
            MetricKind::Sentences => 4,
            MetricKind::LongestSentenceWords => 5,
            MetricKind::ShortestSentenceWords => 6,
            MetricKind::AvgSentenceWords => 7,
            MetricKind::AvgSentenceChars => 8,
            MetricKind::AvgWordLength => 9,
            MetricKind::Paragraphs => 10,
            MetricKind::LineCount => 11,
            MetricKind::ReadingTime => 12,
            MetricKind::SpeakingTime => 13,
            MetricKind::HandWritingTime => 14,
        }
    }

    /// The kind that stands at `index` in display order; `None` where
    /// `index` is past the last kind.
    pub fn from_index(index: usize) -> (kind: Option<MetricKind>)
        ensures
            kind == if index < KIND_COUNT {
                Some(MetricKind::at(index as int))
            } else {
                None
            },
            kind matches Some(found) ==> found.position() == index,
    {
        match index {
            0 => Some(MetricKind::Words),
            1 => Some(MetricKind::UniqueWords),
            2 => Some(MetricKind::Characters),
            3 => Some(MetricKind::CharacterCountNoSpaces),
            4 => Some(MetricKind::Sentences),
            5 => Some(MetricKind::LongestSentenceWords),
            6 => Some(MetricKind::ShortestSentenceWords),
            7 => Some(MetricKind::AvgSentenceWords),
            8 => Some(MetricKind::AvgSentenceChars),
            9 => Some(MetricKind::AvgWordLength),
            10 => Some(MetricKind::Paragraphs),
            11 => Some(MetricKind::LineCount),
            12 => Some(MetricKind::ReadingTime),
            13 => Some(MetricKind::SpeakingTime),
            14 => Some(MetricKind::HandWritingTime),
            _ => None,
        }
    }
}

impl StatisticOption {
    /// The metric without its rate.
    pub open spec fn spec_kind(self) -> MetricKind {
        match self {
            StatisticOption::Characters => MetricKind::Characters,
            StatisticOption::CharacterCountNoSpaces => MetricKind::CharacterCountNoSpaces,
            StatisticOption::LineCount => MetricKind::LineCount,
            StatisticOption::Paragraphs => MetricKind::Paragraphs,
            StatisticOption::Sentences => MetricKind::Sentences,
            StatisticOption::LongestSentenceWords => MetricKind::LongestSentenceWords,
            StatisticOption::ShortestSentenceWords => MetricKind::ShortestSentenceWords,
            StatisticOption::AvgSentenceWords => MetricKind::AvgSentenceWords,
            StatisticOption::AvgSentenceChars => MetricKind::AvgSentenceChars,
            StatisticOption::AvgWordLength => MetricKind::AvgWordLength,
            StatisticOption::ReadingTime(_) => MetricKind::ReadingTime,
            StatisticOption::SpeakingTime(_) => MetricKind::SpeakingTime,
            StatisticOption::HandWritingTime(_) => MetricKind::HandWritingTime,
            StatisticOption::UniqueWords => MetricKind::UniqueWords,
            StatisticOption::Words => MetricKind::Words,
        }
    }

    /// The rate a timing metric carries; `None` for the other metrics.
    pub open spec fn spec_rate(self) -> Option<usize> {
        match self {
            StatisticOption::ReadingTime(rate) => Some(rate),
            StatisticOption::SpeakingTime(rate) => Some(rate),
            StatisticOption::HandWritingTime(rate) => Some(rate),
            _ => None,
        }
    }

    /// The metric of the kind `kind`; a timing metric carries `rate`.
    pub open spec fn spec_of(kind: MetricKind, rate: usize) -> StatisticOption {
        match kind {
            MetricKind::Words => StatisticOption::Words,
            MetricKind::UniqueWords => StatisticOption::UniqueWords,
            MetricKind::Characters => StatisticOption::Characters,
            MetricKind::CharacterCountNoSpaces => StatisticOption::CharacterCountNoSpaces,
            MetricKind::Sentences => StatisticOption::Sentences,
            MetricKind::LongestSentenceWords => StatisticOption::LongestSentenceWords,
            MetricKind::ShortestSentenceWords => StatisticOption::ShortestSentenceWords,
            MetricKind::AvgSentenceWords => StatisticOption::AvgSentenceWords,
            MetricKind::AvgSentenceChars => StatisticOption::AvgSentenceChars,
            MetricKind::AvgWordLength => StatisticOption::AvgWordLength,
            MetricKind::Paragraphs => StatisticOption::Paragraphs,
            MetricKind::LineCount => StatisticOption::LineCount,
            MetricKind::ReadingTime => StatisticOption::ReadingTime(rate),
            MetricKind::SpeakingTime => StatisticOption::SpeakingTime(rate),
            MetricKind::HandWritingTime => StatisticOption::HandWritingTime(rate),
        }
    }

    /// The metric without its rate.
    #[verifier::when_used_as_spec(spec_kind)]
    pub fn kind(self) -> (kind: MetricKind)
        ensures
            kind == self.spec_kind(),
    {
        match self {
            StatisticOption::Characters => MetricKind::Characters,
            StatisticOption::CharacterCountNoSpaces => MetricKind::CharacterCountNoSpaces,
            StatisticOption::LineCount => MetricKind::LineCount,
            StatisticOption::Paragraphs => MetricKind::Paragraphs,
            StatisticOption::Sentences => MetricKind::Sentences,
            StatisticOption::LongestSentenceWords => MetricKind::LongestSentenceWords,
            StatisticOption::ShortestSentenceWords => MetricKind::ShortestSentenceWords,
            StatisticOption::AvgSentenceWords => MetricKind::AvgSentenceWords,
            StatisticOption::AvgSentenceChars => MetricKind::AvgSentenceChars,
            StatisticOption::AvgWordLength => MetricKind::AvgWordLength,
            StatisticOption::ReadingTime(_) => MetricKind::ReadingTime,
            StatisticOption::SpeakingTime(_) => MetricKind::SpeakingTime,
            StatisticOption::HandWritingTime(_) => MetricKind::HandWritingTime,
            StatisticOption::UniqueWords => MetricKind::UniqueWords,
            StatisticOption::Words => MetricKind::Words,
        }
    }

    /// The rate a timing metric carries; `None` for the other metrics.
    #[verifier::when_used_as_spec(spec_rate)]
    pub fn rate(self) -> (rate: Option<usize>)
        ensures
            rate == self.spec_rate(),
    {
        match self {
            StatisticOption::ReadingTime(rate) => Some(rate),
            StatisticOption::SpeakingTime(rate) => Some(rate),
            StatisticOption::HandWritingTime(rate) => Some(rate),
            _ => None,
        }
    }

    /// The metric of the kind `kind`; a timing metric carries `rate`.
    #[verifier::when_used_as_spec(spec_of)]
    pub fn of(kind: MetricKind, rate: usize) -> (option: StatisticOption)
        ensures
            option == StatisticOption::spec_of(kind, rate),
    {
        match kind {
            MetricKind::Words => StatisticOption::Words,
            MetricKind::UniqueWords => StatisticOption::UniqueWords,
            MetricKind::Characters => StatisticOption::Characters,
            MetricKind::CharacterCountNoSpaces => StatisticOption::CharacterCountNoSpaces,
            MetricKind::Sentences => StatisticOption::Sentences,
            MetricKind::LongestSentenceWords => StatisticOption::LongestSentenceWords,
            MetricKind::ShortestSentenceWords => StatisticOption::ShortestSentenceWords,
            MetricKind::AvgSentenceWords => StatisticOption::AvgSentenceWords,
            MetricKind::AvgSentenceChars => StatisticOption::AvgSentenceChars,
            MetricKind::AvgWordLength => StatisticOption::AvgWordLength,
            MetricKind::Paragraphs => StatisticOption::Paragraphs,
            MetricKind::LineCount => StatisticOption::LineCount,
            MetricKind::ReadingTime => StatisticOption::ReadingTime(rate),
            MetricKind::SpeakingTime => StatisticOption::SpeakingTime(rate),
            MetricKind::HandWritingTime => StatisticOption::HandWritingTime(rate),
        }
    }
}

/// What an option set stands for: the kinds that are enabled, and the rate
/// of each timing metric. A rate is kept while its metric is disabled.
pub ghost struct OptionSetModel {
    pub enabled: Set<MetricKind>,
    pub reading_rate: usize,
    pub speaking_rate: usize,
    pub hand_writing_rate: usize,
}

impl OptionSetModel {
    /// The set of a fresh session: words, characters, sentences, paragraphs,
    /// reading time and speaking time, at the default rates.
    pub open spec fn initial() -> OptionSetModel {
        OptionSetModel {
            enabled: set![
                MetricKind::Words,
                MetricKind::Characters,
                MetricKind::Sentences,
                MetricKind::Paragraphs,
                MetricKind::ReadingTime,
                MetricKind::SpeakingTime,
            ],
            reading_rate: DEFAULT_READING_RATE,
            speaking_rate: DEFAULT_SPEAKING_RATE,
            hand_writing_rate: DEFAULT_HAND_WRITING_RATE,
        }
    }

    /// The rate kept for `kind`; 0 for a kind that carries none.
    pub open spec fn rate_of(self, kind: MetricKind) -> usize {
        match kind {
            MetricKind::ReadingTime => self.reading_rate,
            MetricKind::SpeakingTime => self.speaking_rate,
            MetricKind::HandWritingTime => self.hand_writing_rate,
            _ => 0,
        }
    }

    /// The metric of the kind `kind` as this set would show it.
    pub open spec fn option_of(self, kind: MetricKind) -> StatisticOption {
        StatisticOption::spec_of(kind, self.rate_of(kind))
    }

    /// The set after `kind` was switched on or off.
    pub open spec fn toggled(self, kind: MetricKind, enabled: bool) -> OptionSetModel {
        OptionSetModel {
            enabled: if enabled {
                self.enabled.insert(kind)
            } else {
                self.enabled.remove(kind)
            },
            ..self
        }
    }

    /// The set after the rate of `kind` was set; unchanged for a kind that
    /// carries no rate.
    pub open spec fn with_rate(self, kind: MetricKind, rate: usize) -> OptionSetModel {
        match kind {
            MetricKind::ReadingTime => OptionSetModel { reading_rate: rate, ..self },
            MetricKind::SpeakingTime => OptionSetModel { speaking_rate: rate, ..self },
            MetricKind::HandWritingTime => OptionSetModel { hand_writing_rate: rate, ..self },
            _ => self,
        }
    }

    /// The enabled metrics among the first `n` kinds, in display order.
    pub open spec fn listed(self, n: int) -> Seq<StatisticOption>
        decreases n,
    {
        if n <= 0 {
            Seq::empty()
        } else if self.enabled.contains(MetricKind::at(n - 1)) {
            self.listed(n - 1).push(self.option_of(MetricKind::at(n - 1)))
        } else {
            self.listed(n - 1)
        }
    }

    /// The enabled metrics, in display order.
    pub open spec fn list(self) -> Seq<StatisticOption> {
        self.listed(KIND_COUNT as int)
    }
}

/// Whether `list` holds a metric of the kind `kind`, whatever its rate.
pub open spec fn has_kind(list: Seq<StatisticOption>, kind: MetricKind) -> bool {
    exists|i: int| 0 <= i < list.len() && #[trigger] list[i].spec_kind() == kind
}

/// The rate of the first metric of the kind `kind` in `list`, if there is one.
pub open spec fn first_rate(list: Seq<StatisticOption>, kind: MetricKind) -> Option<usize>
    decreases list.len(),
{
    if list.len() == 0 {
        None
    } else if list[0].spec_kind() == kind {
        Some(
            match list[0].spec_rate() {
                Some(rate) => rate,
                None => 0,
            },
        )
    } else {
        first_rate(list.drop_first(), kind)
    }
}

/// The rate that `list` gives the timing metric `kind`: that of its first
/// metric of that kind, else `fallback`.
pub open spec fn listed_rate(list: Seq<StatisticOption>, kind: MetricKind, fallback: usize) -> usize {
    match first_rate(list, kind) {
        Some(rate) => rate,
        None => fallback,
    }
}

/// The option set that a stored list stands for. A kind is enabled where the
/// list holds a metric of it, whatever rate that metric carries; a timing
/// metric gets the rate of its first entry, one without an entry the default.
pub open spec fn model_of_list(list: Seq<StatisticOption>) -> OptionSetModel {
    OptionSetModel {
        enabled: Set::new(|kind: MetricKind| has_kind(list, kind)),
        reading_rate: listed_rate(list, MetricKind::ReadingTime, DEFAULT_READING_RATE),
        speaking_rate: listed_rate(list, MetricKind::SpeakingTime, DEFAULT_SPEAKING_RATE),
        hand_writing_rate: listed_rate(
            list,
            MetricKind::HandWritingTime,
            DEFAULT_HAND_WRITING_RATE,
        ),
    }
}

/// What one more metric at the end of a list does to `first_rate`.
proof fn lemma_first_rate_push(list: Seq<StatisticOption>, option: StatisticOption, kind: MetricKind)
    ensures
        first_rate(list.push(option), kind) == match first_rate(list, kind) {
            Some(rate) => Some(rate),
            None => if option.spec_kind() == kind {
                Some(
                    match option.spec_rate() {
                        Some(rate) => rate,
                        None => 0,
                    },
                )
            } else {
                None
            },
        },
    decreases list.len(),
{
    if list.len() == 0 {
        assert(list.push(option).drop_first() == Seq::<StatisticOption>::empty());
        assert(first_rate(Seq::<StatisticOption>::empty(), kind) is None);
    } else {
        assert(list.push(option)[0] == list[0]);
        assert(list.push(option).drop_first() == list.drop_first().push(option));
        if list[0].spec_kind() != kind {
            lemma_first_rate_push(list.drop_first(), option, kind);
        }
    }
}

/// What one more metric at the end of a list does to `has_kind`, and when
/// `first_rate` finds something.
proof fn lemma_has_kind_push(list: Seq<StatisticOption>, option: StatisticOption)
    ensures
        forall|kind: MetricKind|
            #[trigger] has_kind(list.push(option), kind) == (has_kind(list, kind)
                || option.spec_kind() == kind),
        forall|kind: MetricKind| #[trigger] has_kind(list, kind) == first_rate(list, kind).is_some(),
{
    let longer = list.push(option);
    assert forall|kind: MetricKind|
        #[trigger] has_kind(longer, kind) == (has_kind(list, kind) || option.spec_kind()
            == kind) by {
        if has_kind(longer, kind) {
            let i = choose|i: int| 0 <= i < longer.len() && #[trigger] longer[i].spec_kind() == kind;
            if i < list.len() {
                assert(list[i].spec_kind() == kind);
            }
        }
        if has_kind(list, kind) {
            let i = choose|i: int| 0 <= i < list.len() && #[trigger] list[i].spec_kind() == kind;
            assert(longer[i].spec_kind() == kind);
        }
        if option.spec_kind() == kind {
            assert(longer[list.len() as int].spec_kind() == kind);
        }
    }
    assert forall|kind: MetricKind| #[trigger]
        has_kind(list, kind) == first_rate(list, kind).is_some() by {
        lemma_first_rate_found(list, kind);
    }
}

/// `first_rate` finds a rate exactly where the list holds the kind.
proof fn lemma_first_rate_found(list: Seq<StatisticOption>, kind: MetricKind)
    ensures
        has_kind(list, kind) == first_rate(list, kind).is_some(),
    decreases list.len(),
{
    if list.len() > 0 {
        if list[0].spec_kind() == kind {
            assert(has_kind(list, kind));
        } else {
            let rest = list.drop_first();
            lemma_first_rate_found(rest, kind);
            if has_kind(list, kind) {
                let i = choose|i: int| 0 <= i < list.len() && #[trigger] list[i].spec_kind() == kind;
                assert(rest[i - 1].spec_kind() == kind);
            }
            if has_kind(rest, kind) {
                let i = choose|i: int| 0 <= i < rest.len() && #[trigger] rest[i].spec_kind() == kind;
                assert(list[i + 1].spec_kind() == kind);
            }
        }
    }
}

/// The enabled metrics of a session and the rates of its timing metrics.
#[derive(Clone, Copy, Debug)]
pub struct OptionSet {
    flags: [bool; 15],
    reading_rate: usize,
    speaking_rate: usize,
    hand_writing_rate: usize,
}

impl View for OptionSet {
    type V = OptionSetModel;

    closed spec fn view(&self) -> OptionSetModel {
        OptionSetModel {
            enabled: Set::new(|kind: MetricKind| self.flags@[kind.position()]),
            reading_rate: self.reading_rate,
            speaking_rate: self.speaking_rate,
            hand_writing_rate: self.hand_writing_rate,
        }
    }
}

impl OptionSet {
    /// The set of a fresh session.
    pub fn new() -> (set: OptionSet)
        ensures
            set@ == OptionSetModel::initial(),
    {
        let mut flags = [false; 15];
        flags[MetricKind::Words.index()] = true;
        flags[MetricKind::Characters.index()] = true;
        flags[MetricKind::Sentences.index()] = true;
        flags[MetricKind::Paragraphs.index()] = true;
        flags[MetricKind::ReadingTime.index()] = true;
        flags[MetricKind::SpeakingTime.index()] = true;
        let set = OptionSet {
            flags,
            reading_rate: DEFAULT_READING_RATE,
            speaking_rate: DEFAULT_SPEAKING_RATE,
            hand_writing_rate: DEFAULT_HAND_WRITING_RATE,
        };
        assert(set@.enabled =~= OptionSetModel::initial().enabled);
        set
    }

    /// The set that a stored list stands for: see `model_of_list`.
    pub fn from_options(list: &Vec<StatisticOption>) -> (set: OptionSet)
        ensures
            set@ == model_of_list(list@),
    {
        let mut set = OptionSet {
            flags: [false; 15],
            reading_rate: DEFAULT_READING_RATE,
            speaking_rate: DEFAULT_SPEAKING_RATE,
            hand_writing_rate: DEFAULT_HAND_WRITING_RATE,
        };
        let mut n: usize = 0;
        assert(set@.enabled =~= model_of_list(list@.take(0)).enabled);
        while n < list.len()
            invariant
                n <= list.len(),
                set@ == model_of_list(list@.take(n as int)),
            decreases list.len() - n,
        {
            let option = list[n];
            let kind = option.kind();
            proof {
                let before = list@.take(n as int);
                assert(list@.take(n + 1) == before.push(option));
                lemma_first_rate_push(before, option, MetricKind::ReadingTime);
                lemma_first_rate_push(before, option, MetricKind::SpeakingTime);
                lemma_first_rate_push(before, option, MetricKind::HandWritingTime);
                lemma_has_kind_push(before, option);
            }
            if !set.is_enabled(kind) {
                set.toggle(kind, true);
                match option.rate() {
                    Some(rate) => {
                        set.set_rate(kind, rate);
                    },
                    None => {},
                }
            }
            assert(set@.enabled =~= model_of_list(list@.take(n + 1)).enabled);
            n += 1;
        }
        assert(list@.take(n as int) == list@);
        set
    }

    /// The set to start a session with: what `stored` stands for, or the set
    /// of a fresh session where nothing usable was stored.
    pub fn restore(stored: Option<Vec<StatisticOption>>) -> (set: OptionSet)
        ensures
            set@ == match stored {
                Some(list) => model_of_list(list@),
                None => OptionSetModel::initial(),
            },
    {
        match stored {
            Some(list) => OptionSet::from_options(&list),
            None => OptionSet::new(),
        }
    }

    /// Whether `kind` is enabled.
    pub fn is_enabled(&self, kind: MetricKind) -> (enabled: bool)
        ensures
            enabled == self@.enabled.contains(kind),
    {
        self.flags[kind.index()]
    }

    /// The rate kept for `kind`; 0 for a kind that carries none.
    pub fn rate(&self, kind: MetricKind) -> (rate: usize)
        ensures
            rate == self@.rate_of(kind),
    {
        match kind {
            MetricKind::ReadingTime => self.reading_rate,
            MetricKind::SpeakingTime => self.speaking_rate,
            MetricKind::HandWritingTime => self.hand_writing_rate,
            _ => 0,
        }
    }

    /// Switches `kind` on or off. Switching on what is on, or off what is
    /// off, changes nothing.
    pub fn toggle(&mut self, kind: MetricKind, enabled: bool)
        ensures
            final(self)@ == old(self)@.toggled(kind, enabled),
    {
        self.flags[kind.index()] = enabled;
        assert(self@.enabled =~= old(self)@.toggled(kind, enabled).enabled);
    }

    /// Sets the rate of a timing metric, enabled or not. For a kind that
    /// carries no rate nothing changes.
    pub fn set_rate(&mut self, kind: MetricKind, rate: usize)
        ensures
            final(self)@ == old(self)@.with_rate(kind, rate),
    {
        match kind {
            MetricKind::ReadingTime => {
                self.reading_rate = rate;
            },
            MetricKind::SpeakingTime => {
                self.speaking_rate = rate;
            },
            MetricKind::HandWritingTime => {
                self.hand_writing_rate = rate;
            },
            _ => {},
        }
    }

    /// The enabled metrics in display order, each timing metric with its
    /// current rate. The list is built anew on every call.
    pub fn options(&self) -> (list: Vec<StatisticOption>)
        ensures
            list@ == self@.list(),
    {
        let mut list: Vec<StatisticOption> = Vec::new();
        let mut index: usize = 0;
        while index < KIND_COUNT
            invariant
                index <= KIND_COUNT,
                list@ == self@.listed(index as int),
            decreases KIND_COUNT - index,
        {
            match MetricKind::from_index(index) {
                Some(kind) => {
                    if self.flags[index] {
                        list.push(StatisticOption::of(kind, self.rate(kind)));
                    }
                },
                None => {},
            }
            index += 1;
        }
        list
    }
}

/// Whether `c` is a decimal digit.
pub open spec fn is_digit(c: char) -> bool {
    '0' <= c <= '9'
}

/// The number that decimal digits spell; 0 for no digits.
pub open spec fn digits_value(digits: Seq<char>) -> nat
    decreases digits.len(),
{
    if digits.len() == 0 {
        0
    } else {
        10 * digits_value(digits.drop_last()) + (digits.last() as nat - '0' as nat) as nat
    }
}

/// The text without the plus sign that may stand in front of a number.
pub open spec fn unsigned_part(text: Seq<char>) -> Seq<char> {
    if text.len() > 0 && text[0] == '+' {
        text.drop_first()
    } else {
        text
    }
}

/// Whether `text` spells a rate: decimal digits, at least one, with or
/// without a plus sign in front, and a number that the machine can hold.
pub open spec fn spells_rate(text: Seq<char>) -> bool {
    &&& unsigned_part(text).len() > 0
    &&& forall|i: int| 0 <= i < unsigned_part(text).len() ==> is_digit(unsigned_part(text)[i])
    &&& digits_value(unsigned_part(text)) <= usize::MAX
}

/// The rate that an input stands for: the number it spells, and 0 where
/// it spells none.
pub open spec fn rate_value(text: Seq<char>) -> nat {
    if spells_rate(text) {
        digits_value(unsigned_part(text))
    } else {
        0
    }
}

proof fn lemma_digits_grow(digits: Seq<char>, k: int)
    requires
        0 <= k <= digits.len(),
        forall|i: int| 0 <= i < digits.len() ==> is_digit(digits[i]),
    ensures
        digits_value(digits.take(k)) <= digits_value(digits),
    decreases digits.len() - k,
{
    if k < digits.len() {
        lemma_digits_grow(digits, k + 1);
        assert(digits.take(k + 1).drop_last() == digits.take(k));
    } else {
        assert(digits.take(k) == digits);
    }
}

/// The rate that an input stands for: the number it spells, and 0 where
/// it spells none.
pub fn parse_rate(text: &str) -> (rate: usize)
    ensures
        rate == rate_value(text@),
{
    let chars = chars_of(text);
    let first: usize = if chars.len() > 0 && chars[0] == '+' {
        1
    } else {
        0
    };
    let ghost digits = unsigned_part(text@);
    assert(digits =~= chars@.subrange(first as int, chars@.len() as int));
    if first == chars.len() {
        return 0;
    }
    let mut rate: usize = 0;
    let mut i: usize = first;
    assert(digits.take(0) =~= Seq::<char>::empty());
    while i < chars.len()
        invariant
            first <= i <= chars@.len(),
            chars@ == text@,
            digits == chars@.subrange(first as int, chars@.len() as int),
            digits == unsigned_part(text@),
            forall|j: int| 0 <= j < i - first ==> is_digit(digits[j]),
            rate == digits_value(digits.take(i - first)),
        decreases chars@.len() - i,
    {
        let c = chars[i];
        assert(digits[i - first] == c);
        if !('0' <= c && c <= '9') {
            return 0;
        }
        let digit = (c as u32 - '0' as u32) as usize;
        proof {
            assert(digits.take(i - first + 1).drop_last() == digits.take(i - first));
            assert(digits.take(i - first + 1).last() == c);
        }
        if rate > (usize::MAX - digit) / 10 {
            proof {
                if spells_rate(text@) {
                    lemma_digits_grow(digits, i - first + 1);
                }
            }
            return 0;
        }
        rate = 10 * rate + digit;
        i += 1;
    }
    assert(digits.take(i - first) == digits);
    rate
}

/// The rate to start with: what the stored input stands for, or
/// `fallback` where nothing was stored.
pub fn rate_or(stored: Option<&str>, fallback: usize) -> (rate: usize)
    ensures
        rate == match stored {
            Some(text) => rate_value(text@),
            None => fallback as nat,
        },
{
    match stored {
        Some(text) => parse_rate(text),
        None => fallback,
    }
}

/// What holds of the enabled metrics among the first `n` kinds.
proof fn lemma_listed(model: OptionSetModel, n: int)
    requires
        0 <= n <= KIND_COUNT,
    ensures
        forall|i: int|
            0 <= i < model.listed(n).len() ==> {
                let option = #[trigger] model.listed(n)[i];
                &&& 0 <= option.spec_kind().position() < n
                &&& model.enabled.contains(option.spec_kind())
                &&& option == model.option_of(option.spec_kind())
            },
        forall|i: int, j: int|
            0 <= i < j < model.listed(n).len() ==> (#[trigger] model.listed(n)[i]).spec_kind().position()
                < (#[trigger] model.listed(n)[j]).spec_kind().position(),
        forall|kind: MetricKind|
            kind.position() < n && model.enabled.contains(kind) ==> #[trigger] has_kind(
                model.listed(n),
                kind,
            ),
    decreases n,
{
    if n > 0 {
        lemma_listed(model, n - 1);
        let shorter = model.listed(n - 1);
        let longer = model.listed(n);
        let last = MetricKind::at(n - 1);
        assert(last.position() == n - 1);
        assert forall|kind: MetricKind|
            kind.position() < n && model.enabled.contains(kind) implies #[trigger] has_kind(
            longer,
            kind,
        ) by {
            if kind.position() < n - 1 {
                assert(has_kind(shorter, kind));
                let i = choose|i: int|
                    0 <= i < shorter.len() && #[trigger] shorter[i].spec_kind() == kind;
                assert(longer[i].spec_kind() == kind);
            } else {
                assert(kind == last);
                assert(longer[shorter.len() as int].spec_kind() == kind);
            }
        }
    }
}

/// `first_rate` answers with the rate of a metric of the list.
proof fn lemma_first_rate_member(list: Seq<StatisticOption>, kind: MetricKind)
    requires
        first_rate(list, kind).is_some(),
    ensures
        exists|i: int|
            0 <= i < list.len() && (#[trigger] list[i]).spec_kind() == kind && first_rate(
                list,
                kind,
            ) == Some(
                match list[i].spec_rate() {
                    Some(rate) => rate,
                    None => 0,
                },
            ),
    decreases list.len(),
{
    if list[0].spec_kind() == kind {
        assert(list[0].spec_kind() == kind);
    } else {
        let rest = list.drop_first();
        lemma_first_rate_member(rest, kind);
        let i = choose|i: int|
            0 <= i < rest.len() && (#[trigger] rest[i]).spec_kind() == kind && first_rate(
                rest,
                kind,
            ) == Some(
                match rest[i].spec_rate() {
                    Some(rate) => rate,
                    None => 0,
                },
            );
        assert(list[i + 1] == rest[i]);
    }
}

/// Two sets that enable the same kinds, and agree on the rate of each
/// enabled timing metric, list the same metrics.
proof fn lemma_listed_agree(a: OptionSetModel, b: OptionSetModel, n: int)
    requires
        0 <= n <= KIND_COUNT,
        a.enabled == b.enabled,
        forall|kind: MetricKind| a.enabled.contains(kind) ==> a.rate_of(kind) == b.rate_of(kind),
    ensures
        a.listed(n) == b.listed(n),
    decreases n,
{
    if n > 0 {
        lemma_listed_agree(a, b, n - 1);
    }
}

/// The set of a fresh session lists six metrics: words, characters,
/// sentences, paragraphs, reading time at 275 and speaking time at 180
/// words per minute.
pub proof fn lemma_initial_list()
    ensures
        OptionSetModel::initial().list() == seq![
            StatisticOption::Words,
            StatisticOption::Characters,
            StatisticOption::Sentences,
            StatisticOption::Paragraphs,
            StatisticOption::ReadingTime(275),
            StatisticOption::SpeakingTime(180),
        ],
{
    reveal_with_fuel(OptionSetModel::listed, 16);
    assert(OptionSetModel::initial().list() =~= seq![
        StatisticOption::Words,
        StatisticOption::Characters,
        StatisticOption::Sentences,
        StatisticOption::Paragraphs,
        StatisticOption::ReadingTime(275),
        StatisticOption::SpeakingTime(180),
    ]);
}

/// The enabled list never holds a metric twice: its metrics stand in
/// display order, each kind at most once, and each with the rate the set
/// keeps for it.
pub proof fn lemma_list_has_no_duplicates(model: OptionSetModel)
    ensures
        forall|i: int, j: int|
            0 <= i < j < model.list().len() ==> (#[trigger] model.list()[i]).spec_kind().position()
                < (#[trigger] model.list()[j]).spec_kind().position(),
        forall|i: int, j: int|
            0 <= i < model.list().len() && 0 <= j < model.list().len() && i != j ==> (
            #[trigger] model.list()[i]).spec_kind() != (#[trigger] model.list()[j]).spec_kind(),
{
    lemma_listed(model, KIND_COUNT as int);
    let list = model.list();
    assert forall|i: int, j: int|
        0 <= i < list.len() && 0 <= j < list.len() && i != j implies (#[trigger] list[i]).spec_kind()
        != (#[trigger] list[j]).spec_kind() by {
        if i < j {
            assert(list[i].spec_kind().position() < list[j].spec_kind().position());
        } else {
            assert(list[j].spec_kind().position() < list[i].spec_kind().position());
        }
    }
}

/// The enabled list holds exactly the enabled kinds: a metric is in it if
/// and only if its kind is enabled and it carries the rate kept for it.
pub proof fn lemma_list_members(model: OptionSetModel, option: StatisticOption)
    ensures
        model.list().contains(option) <==> model.enabled.contains(option.spec_kind()) && option
            == model.option_of(option.spec_kind()),
{
    lemma_listed(model, KIND_COUNT as int);
    let list = model.list();
    let kind = option.spec_kind();
    if model.enabled.contains(kind) && option == model.option_of(kind) {
        assert(has_kind(list, kind));
        let i = choose|i: int| 0 <= i < list.len() && #[trigger] list[i].spec_kind() == kind;
        assert(list[i] == option);
    }
    if list.contains(option) {
        let i = choose|i: int| 0 <= i < list.len() && list[i] == option;
        assert(list[i] == option);
    }
}

/// Switching a disabled kind on and then off again gives back the set as
/// it was, and with it the very same enabled list.
pub proof fn lemma_toggle_on_off(model: OptionSetModel, kind: MetricKind)
    requires
        !model.enabled.contains(kind),
    ensures
        model.toggled(kind, true).toggled(kind, false) == model,
        model.toggled(kind, true).toggled(kind, false).list() == model.list(),
{
    assert(model.toggled(kind, true).toggled(kind, false).enabled =~= model.enabled);
}

/// Switching on what is on, or off what is off, changes nothing; and a
/// second switch to the same side changes nothing either.
pub proof fn lemma_toggle_same_side(model: OptionSetModel, kind: MetricKind, enabled: bool)
    ensures
        model.enabled.contains(kind) == enabled ==> model.toggled(kind, enabled) == model,
        model.toggled(kind, enabled).toggled(kind, enabled) == model.toggled(kind, enabled),
        model.toggled(kind, enabled).enabled.contains(kind) == enabled,
{
    if model.enabled.contains(kind) == enabled {
        assert(model.toggled(kind, enabled).enabled =~= model.enabled);
    }
    assert(model.toggled(kind, enabled).toggled(kind, enabled).enabled =~= model.toggled(
        kind,
        enabled,
    ).enabled);
}

/// A new rate shows in the enabled list at once where its metric is
/// enabled, and leaves the list alone where it is not.
pub proof fn lemma_rate_shows(model: OptionSetModel, kind: MetricKind, rate: usize)
    requires
        kind.has_rate(),
    ensures
        model.enabled.contains(kind) ==> model.with_rate(kind, rate).list().contains(
            StatisticOption::spec_of(kind, rate),
        ),
        !model.enabled.contains(kind) ==> model.with_rate(kind, rate).list() == model.list(),
{
    let after = model.with_rate(kind, rate);
    if model.enabled.contains(kind) {
        lemma_list_members(after, StatisticOption::spec_of(kind, rate));
    } else {
        lemma_listed_agree(after, model, KIND_COUNT as int);
    }
}

/// The enabled list survives being stored and restored: the set that the
/// list of a set stands for lists the same metrics, rates included.
pub proof fn lemma_restore_round_trip(model: OptionSetModel)
    ensures
        model_of_list(model.list()).list() == model.list(),
{
    let list = model.list();
    let back = model_of_list(list);
    lemma_listed(model, KIND_COUNT as int);
    assert forall|kind: MetricKind| back.enabled.contains(kind) == model.enabled.contains(
        kind,
    ) by {
        if has_kind(list, kind) {
            let i = choose|i: int| 0 <= i < list.len() && #[trigger] list[i].spec_kind() == kind;
            assert(model.enabled.contains(list[i].spec_kind()));
        }
        if model.enabled.contains(kind) {
            assert(has_kind(list, kind));
        }
    }
    assert(back.enabled =~= model.enabled);
    assert forall|kind: MetricKind| back.enabled.contains(kind) implies back.rate_of(kind)
        == model.rate_of(kind) by {
        if kind.has_rate() {
            lemma_first_rate_found(list, kind);
            lemma_first_rate_member(list, kind);
        }
    }
    lemma_listed_agree(back, model, KIND_COUNT as int);
}

} // verus!
