//! A session: the text, how its keywords are counted, the keyword table
//! and the enabled metrics, kept in step with one another.

use crate::duration::{capped_seconds, duration_seconds};
use crate::keywords::{first_seen, keys_of, tally, KeywordDictionary};
use crate::metrics::{
    avg_sentence_chars, avg_sentence_words, avg_word_length, character_count_no_spaces,
    character_total, covered, largest, line_count, longest_sentence_words, paragraph_count,
    sentence_count, sentence_word_counts, shortest_sentence_words, smallest, space_count,
    unique_word_count, word_count,
};
use crate::options::{
    parse_rate, rate_value, MetricKind, OptionSet, OptionSetModel, StatisticOption,
};
use crate::pattern::WordClass;
use crate::ratio::{ratio_of, Ratio};
use crate::segment::{line_spans, paragraph_spans, sentence_spans, word_spans};
use vstd::prelude::*;

verus! {

/// What a metric shows.
#[derive(Clone, Copy, Debug, PartialEq, Eq, Structural)]
pub enum MetricValue {
    /// A number of things.
    Count(usize),
    /// An average; `None` where there is nothing to take it over.
    Average(Option<Ratio>),
    /// A time in whole seconds.
    Seconds(u64),
}

/// What `option` shows for `text`.
pub open spec fn metric_value(text: Seq<char>, option: StatisticOption) -> MetricValue {
    match option {
        StatisticOption::Characters => MetricValue::Count(text.len() as usize),
        StatisticOption::CharacterCountNoSpaces => MetricValue::Count(
            (text.len() - space_count(text)) as usize,
        ),
        StatisticOption::LineCount => MetricValue::Count(line_spans(text).len() as usize),
        StatisticOption::Paragraphs => MetricValue::Count(paragraph_spans(text).len() as usize),
        StatisticOption::Sentences => MetricValue::Count(sentence_spans(text).len() as usize),
        StatisticOption::LongestSentenceWords => MetricValue::Count(
            largest(sentence_word_counts(text)) as usize,
        ),
        StatisticOption::ShortestSentenceWords => MetricValue::Count(
            smallest(sentence_word_counts(text)) as usize,
        ),
        StatisticOption::AvgSentenceWords => MetricValue::Average(
            ratio_of(word_spans(text).len(), sentence_spans(text).len()),
        ),
        StatisticOption::AvgSentenceChars => MetricValue::Average(
            ratio_of(text.len(), sentence_spans(text).len()),
        ),
        StatisticOption::AvgWordLength => MetricValue::Average(
            ratio_of(covered(word_spans(text)) as nat, word_spans(text).len()),
        ),
        StatisticOption::ReadingTime(rate) => MetricValue::Seconds(
            capped_seconds(word_spans(text).len(), rate as nat) as u64,
        ),
        StatisticOption::SpeakingTime(rate) => MetricValue::Seconds(
            capped_seconds(word_spans(text).len(), rate as nat) as u64,
        ),
        StatisticOption::HandWritingTime(rate) => MetricValue::Seconds(
            capped_seconds(word_spans(text).len(), rate as nat) as u64,
        ),
        StatisticOption::UniqueWords => MetricValue::Count(
            first_seen(keys_of(text, false)).len() as usize,
        ),
        StatisticOption::Words => MetricValue::Count(word_spans(text).len() as usize),
    }
}

/// Something that happened to a session.
#[derive(Clone, Debug, PartialEq, Eq)]
pub enum Event {
    /// The text was edited and now reads as given.
    TextChanged(String),
    /// The text is to be cleared.
    ClearRequested,
    /// Whether case matters was switched over.
    MatchCaseToggled,
    /// A metric was switched on or off.
    OptionToggled(MetricKind, bool),
    /// A rate was typed in for a timing metric.
    RateEntered(MetricKind, String),
}

/// A value that is to be written to the store after an event.
#[derive(Clone, Copy, Debug, PartialEq, Eq, Structural)]
pub enum StoreKey {
    Text,
    MatchCase,
    StatisticsOptions,
    Rate(MetricKind),
}

/// What a session stands for.
pub ghost struct StateModel {
    pub text: Seq<char>,
    pub match_case: bool,
    pub dictionary: Seq<(Seq<char>, nat)>,
    pub options: OptionSetModel,
}

impl StateModel {
    /// Whether the keyword table is that of the text as it stands.
    pub open spec fn consistent(self) -> bool {
        self.dictionary == tally(keys_of(self.text, self.match_case))
    }

    /// The state with the keyword table made anew from the text.
    pub open spec fn recomputed(self) -> StateModel {
        StateModel { dictionary: tally(keys_of(self.text, self.match_case)), ..self }
    }

    /// The state after an event. The keyword table follows the text and
    /// the case switch; the enabled metrics change only by their own
    /// events.
    pub open spec fn after(self, event: Event) -> StateModel {
        match event {
            Event::TextChanged(text) => StateModel { text: text@, ..self }.recomputed(),
            Event::ClearRequested => StateModel { text: Seq::empty(), ..self }.recomputed(),
            Event::MatchCaseToggled => StateModel {
                match_case: !self.match_case,
                ..self
            }.recomputed(),
            Event::OptionToggled(kind, enabled) => StateModel {
                options: self.options.toggled(kind, enabled),
                ..self
            }.recomputed(),
            Event::RateEntered(kind, input) => StateModel {
                options: self.options.with_rate(kind, rate_value(input@) as usize),
                ..self
            }.recomputed(),
        }
    }

    /// The values to write to the store after an event, in order. Nothing
    /// is written where nothing can have changed: when an empty text is
    /// cleared, or a rate is entered for a metric that has none.
    pub open spec fn to_store(self, event: Event) -> Seq<StoreKey> {
        match event {
            Event::TextChanged(_) => seq![StoreKey::Text, StoreKey::StatisticsOptions],
            Event::ClearRequested => if self.text.len() == 0 {
                Seq::empty()
            } else {
                seq![StoreKey::Text, StoreKey::StatisticsOptions]
            },
            Event::MatchCaseToggled => seq![StoreKey::MatchCase, StoreKey::StatisticsOptions],
            Event::OptionToggled(_, _) => seq![StoreKey::StatisticsOptions],
            Event::RateEntered(kind, _) => if kind.has_rate() {
                seq![StoreKey::Rate(kind), StoreKey::StatisticsOptions]
            } else {
                Seq::empty()
            },
        }
    }
}

/// Whether case matters by what the store holds: it does not where nothing
/// was stored or `false` was; it does for anything else.
pub open spec fn stored_flag(stored: Option<String>) -> bool {
    match stored {
        Some(flag) => flag@ != "false"@,
        None => false,
    }
}

/// The text that the store holds, the empty text where it holds none.
pub open spec fn stored_text(stored: Option<String>) -> Seq<char> {
    match stored {
        Some(text) => text@,
        None => Seq::empty(),
    }
}

/// A text with the keyword table that belongs to it. The table is never
/// that of another text or of another setting of the case switch.
pub struct Snapshot {
    text: String,
    match_case: bool,
    dictionary: KeywordDictionary,
}

impl Snapshot {
    #[verifier::type_invariant]
    spec fn in_step(self) -> bool {
        self.dictionary@ == tally(keys_of(self.text@, self.match_case))
    }

    /// The text.
    pub closed spec fn text_view(self) -> Seq<char> {
        self.text@
    }

    /// Whether case matters.
    pub closed spec fn case_view(self) -> bool {
        self.match_case
    }

    /// The keyword table.
    pub closed spec fn table_view(self) -> Seq<(Seq<char>, nat)> {
        self.dictionary@
    }

    /// Takes a text in and counts its keywords.
    pub fn take(words: &WordClass, text: String, match_case: bool) -> (snapshot: Snapshot)
        ensures
            snapshot.text_view() == text@,
            snapshot.case_view() == match_case,
            snapshot.table_view() == tally(keys_of(text@, match_case)),
    {
        let dictionary = KeywordDictionary::build(words, text.as_str(), match_case);
        Snapshot { text, match_case, dictionary }
    }

    /// The text.
    pub fn text(&self) -> (text: &str)
        ensures
            text@ == self.text_view(),
    {
        self.text.as_str()
    }

    /// Whether words that differ in case alone are counted apart.
    pub fn match_case(&self) -> (match_case: bool)
        ensures
            match_case == self.case_view(),
    {
        self.match_case
    }

    /// The keyword table, which is that of the text.
    pub fn dictionary(&self) -> (dictionary: &KeywordDictionary)
        ensures
            dictionary@ == self.table_view(),
            dictionary@ == tally(keys_of(self.text_view(), self.case_view())),
    {
        proof {
            use_type_invariant(self);
        }
        &self.dictionary
    }
}

/// A session.
pub struct GlobalState {
    snapshot: Snapshot,
    options: OptionSet,
    words: WordClass,
}

impl View for GlobalState {
    type V = StateModel;

    closed spec fn view(&self) -> StateModel {
        StateModel {
            text: self.snapshot.text_view(),
            match_case: self.snapshot.case_view(),
            dictionary: self.snapshot.table_view(),
            options: self.options@,
        }
    }
}

impl GlobalState {
    /// The session to start with, from what the store held.
    pub fn new(
        words: WordClass,
        text: Option<String>,
        case_flag: Option<String>,
        options: OptionSet,
    ) -> (state: GlobalState)
        ensures
            state@ == (StateModel {
                text: stored_text(text),
                match_case: stored_flag(case_flag),
                dictionary: Seq::empty(),
                options: options@,
            }).recomputed(),
            state@.consistent(),
    {
        let text = match text {
            Some(text) => text,
            None => String::new(),
        };
        let match_case = match case_flag {
            Some(flag) => flag != "false".to_owned(),
            None => false,
        };
        let snapshot = Snapshot::take(&words, text, match_case);
        GlobalState { snapshot, options, words }
    }

    /// The text.
    pub fn text(&self) -> (text: &str)
        ensures
            text@ == self@.text,
    {
        self.snapshot.text()
    }

    /// Whether words that differ in case alone are counted apart.
    pub fn match_case(&self) -> (match_case: bool)
        ensures
            match_case == self@.match_case,
    {
        self.snapshot.match_case()
    }

    /// The keyword table, which is that of the text as it stands.
    pub fn dictionary(&self) -> (dictionary: &KeywordDictionary)
        ensures
            dictionary@ == self@.dictionary,
            self@.consistent(),
    {
        self.snapshot.dictionary()
    }

    /// The enabled metrics and their rates.
    pub fn options(&self) -> (options: &OptionSet)
        ensures
            options@ == self@.options,
    {
        &self.options
    }

    /// The enabled metrics in display order.
    pub fn statistics_options(&self) -> (list: Vec<StatisticOption>)
        ensures
            list@ == self@.options.list(),
    {
        self.options.options()
    }

    /// Makes the keyword table anew from the text as it stands.
    pub fn recompute(&mut self)
        ensures
            final(self)@ == old(self)@.recomputed(),
            final(self)@.consistent(),
    {
        let text = self.snapshot.text().to_owned();
        let match_case = self.snapshot.match_case();
        self.snapshot = Snapshot::take(&self.words, text, match_case);
    }

    /// Takes an event in: changes what the event changes, makes the
    /// keyword table anew where the text or the case switch changed, and
    /// says which values are to be written to the store.
    pub fn apply(&mut self, event: Event) -> (store: Vec<StoreKey>)
        ensures
            final(self)@ == old(self)@.after(event),
            final(self)@.consistent(),
            store@ == old(self)@.to_store(event),
    {
        let mut store: Vec<StoreKey> = Vec::new();
        match event {
            Event::TextChanged(text) => {
                let match_case = self.snapshot.match_case();
                self.snapshot = Snapshot::take(&self.words, text, match_case);
                store.push(StoreKey::Text);
                store.push(StoreKey::StatisticsOptions);
            },
            Event::ClearRequested => {
                if self.snapshot.text().unicode_len() != 0 {
                    store.push(StoreKey::Text);
                    store.push(StoreKey::StatisticsOptions);
                }
                let match_case = self.snapshot.match_case();
                self.snapshot = Snapshot::take(&self.words, String::new(), match_case);
            },
            Event::MatchCaseToggled => {
                let text = self.snapshot.text().to_owned();
                let match_case = !self.snapshot.match_case();
                self.snapshot = Snapshot::take(&self.words, text, match_case);
                store.push(StoreKey::MatchCase);
                store.push(StoreKey::StatisticsOptions);
            },
            Event::OptionToggled(kind, enabled) => {
                proof {
                    use_type_invariant(&self.snapshot);
                }
                self.options.toggle(kind, enabled);
                store.push(StoreKey::StatisticsOptions);
            },
            Event::RateEntered(kind, input) => {
                proof {
                    use_type_invariant(&self.snapshot);
                }
                self.options.set_rate(kind, parse_rate(input.as_str()));
                match kind {
                    MetricKind::ReadingTime | MetricKind::SpeakingTime
                    | MetricKind::HandWritingTime => {
                        store.push(StoreKey::Rate(kind));
                        store.push(StoreKey::StatisticsOptions);
                    },
                    _ => {},
                }
            },
        }
        assert(store@ =~= old(self)@.to_store(event));
        store
    }

    /// What `option` shows for the text as it stands.
    pub fn value(&self, option: StatisticOption) -> (value: MetricValue)
        ensures
            value == metric_value(self@.text, option),
    {
        match option {
            StatisticOption::Characters => MetricValue::Count(self.character_total()),
            StatisticOption::CharacterCountNoSpaces => MetricValue::Count(
                self.character_count_no_spaces(),
            ),
            StatisticOption::LineCount => MetricValue::Count(self.line_count()),
            StatisticOption::Paragraphs => MetricValue::Count(self.paragraph_count()),
            StatisticOption::Sentences => MetricValue::Count(self.sentence_count()),
            StatisticOption::LongestSentenceWords => MetricValue::Count(
                self.show_longest_sentence_words_count(),
            ),
            StatisticOption::ShortestSentenceWords => MetricValue::Count(
                self.show_shortest_sentence_words_count(),
            ),
            StatisticOption::AvgSentenceWords => MetricValue::Average(self.avg_sentence_words()),
            StatisticOption::AvgSentenceChars => MetricValue::Average(self.avg_sentence_chars()),
            StatisticOption::AvgWordLength => MetricValue::Average(self.avg_word_count()),
            StatisticOption::ReadingTime(rate) => MetricValue::Seconds(
                duration_seconds(self.word_count(), rate),
            ),
            StatisticOption::SpeakingTime(rate) => MetricValue::Seconds(
                duration_seconds(self.word_count(), rate),
            ),
            StatisticOption::HandWritingTime(rate) => MetricValue::Seconds(
                duration_seconds(self.word_count(), rate),
            ),
            StatisticOption::UniqueWords => MetricValue::Count(self.unique_word_count()),
            StatisticOption::Words => MetricValue::Count(self.word_count()),
        }
    }

    /// Number of words in the text.
    pub fn word_count(&self) -> (n: usize)
        ensures
            n == word_spans(self@.text).len(),
    {
        word_count(&self.words, self.snapshot.text())
    }

    /// The average length of a word, in characters; `None` where the text
    /// has no word.
    pub fn avg_word_count(&self) -> (average: Option<Ratio>)
        ensures
            average == ratio_of(
                covered(word_spans(self@.text)) as nat,
                word_spans(self@.text).len(),
            ),
            average is None <==> word_spans(self@.text).len() == 0,
    {
        avg_word_length(&self.words, self.snapshot.text())
    }

    /// The average number of words to a sentence; `None` where the text
    /// has no sentence.
    pub fn avg_sentence_words(&self) -> (average: Option<Ratio>)
        ensures
            average == ratio_of(word_spans(self@.text).len(), sentence_spans(self@.text).len()),
            average is None <==> sentence_spans(self@.text).len() == 0,
    {
        avg_sentence_words(&self.words, self.snapshot.text())
    }

    /// The average number of characters to a sentence; `None` where the
    /// text has no sentence.
    pub fn avg_sentence_chars(&self) -> (average: Option<Ratio>)
        ensures
            average == ratio_of(self@.text.len(), sentence_spans(self@.text).len()),
            average is None <==> sentence_spans(self@.text).len() == 0,
    {
        avg_sentence_chars(self.snapshot.text())
    }

    /// Number of different words, case set aside whatever the case switch
    /// says.
    pub fn unique_word_count(&self) -> (n: usize)
        ensures
            n == first_seen(keys_of(self@.text, false)).len(),
    {
        unique_word_count(&self.words, self.snapshot.text())
    }

    /// Number of sentences in the text.
    pub fn sentence_count(&self) -> (n: usize)
        ensures
            n == sentence_spans(self@.text).len(),
    {
        sentence_count(self.snapshot.text())
    }

    /// Number of words in the sentence that has most; 0 without a
    /// sentence.
    pub fn show_longest_sentence_words_count(&self) -> (n: usize)
        ensures
            n == largest(sentence_word_counts(self@.text)),
    {
        longest_sentence_words(&self.words, self.snapshot.text())
    }

    /// Number of words in the sentence that has fewest; 0 without a
    /// sentence.
    pub fn show_shortest_sentence_words_count(&self) -> (n: usize)
        ensures
            n == smallest(sentence_word_counts(self@.text)),
    {
        shortest_sentence_words(&self.words, self.snapshot.text())
    }

    /// Number of paragraphs in the text; 0 for the empty text.
    pub fn paragraph_count(&self) -> (n: usize)
        ensures
            n == paragraph_spans(self@.text).len(),
    {
        paragraph_count(self.snapshot.text())
    }

    /// Number of characters that are no space.
    pub fn character_count_no_spaces(&self) -> (n: usize)
        ensures
            n == self@.text.len() - space_count(self@.text),
    {
        character_count_no_spaces(self.snapshot.text())
    }

    /// Number of characters in the text.
    pub fn character_total(&self) -> (n: usize)
        ensures
            n == self@.text.len(),
    {
        character_total(self.snapshot.text())
    }

    /// Number of lines in the text.
    pub fn line_count(&self) -> (n: usize)
        ensures
            n == line_spans(self@.text).len(),
    {
        line_count(self.snapshot.text())
    }
}

/// Making the keyword table anew a second time changes nothing: it depends
/// on the text and the case switch alone.
pub proof fn lemma_recompute_is_idempotent(state: StateModel)
    ensures
        state.recomputed().recomputed() == state.recomputed(),
        state.recomputed().consistent(),
        state.consistent() ==> state.recomputed() == state,
{
}

/// After every event the keyword table is that of the text and the case
/// switch as the event left them.
pub proof fn lemma_events_keep_consistent(state: StateModel, event: Event)
    ensures
        state.after(event).consistent(),
{
}

} // verus!
