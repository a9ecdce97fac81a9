//! The metrics of a text: counts, extremes and averages.

use crate::keywords::{
    first_seen, keys_of, lemma_first_seen_contains, lemma_first_seen_distinct, occurrences,
    KeywordDictionary,
};
use crate::pattern::WordClass;
use crate::ratio::{ratio_of, Ratio};
use crate::segment::{
    body_flags, body_mask, lemma_runs_are_maximal, lemma_sentences_are_whole, line_spans, lines,
    mask_runs, mask_sentences, maximal_run, paragraph_spans, paragraphs, runs, sentence_spans,
    sentences, views, whole_sentence, word_flags, word_mask, word_spans, words,
};
use crate::text::chars_of;
use vstd::prelude::*;
use vstd::slice::slice_subrange;

verus! {

/// How many space characters, U+0020 and no other, `text` holds.
pub open spec fn space_count(text: Seq<char>) -> nat
    decreases text.len(),
{
    if text.len() == 0 {
        0
    } else {
        space_count(text.drop_last()) + if text.last() == ' ' {
            1nat
        } else {
            0nat
        }
    }
}

/// The lengths of the spans, added up.
pub open spec fn covered(spans: Seq<(int, int)>) -> int
    decreases spans.len(),
{
    if spans.len() == 0 {
        0
    } else {
        covered(spans.drop_last()) + (spans.last().1 - spans.last().0)
    }
}

/// For each sentence of `text`, the number of words in it.
pub open spec fn sentence_word_counts(text: Seq<char>) -> Seq<nat> {
    Seq::new(
        sentence_spans(text).len(),
        |k: int|
            word_spans(text.subrange(sentence_spans(text)[k].0, sentence_spans(text)[k].1)).len(),
    )
}

/// The largest of the numbers; 0 where there is none.
pub open spec fn largest(numbers: Seq<nat>) -> nat
    decreases numbers.len(),
{
    if numbers.len() == 0 {
        0
    } else if largest(numbers.drop_last()) >= numbers.last() {
        largest(numbers.drop_last())
    } else {
        numbers.last()
    }
}

/// The smallest of the numbers; 0 where there is none.
pub open spec fn smallest(numbers: Seq<nat>) -> nat
    decreases numbers.len(),
{
    if numbers.len() == 0 {
        0
    } else if numbers.len() == 1 || numbers.last() < smallest(numbers.drop_last()) {
        numbers.last()
    } else {
        smallest(numbers.drop_last())
    }
}

/// The numbers as natural numbers.
pub open spec fn naturals(numbers: Seq<usize>) -> Seq<nat> {
    Seq::new(numbers.len(), |i: int| numbers[i] as nat)
}

/// Number of words in `text`.
pub fn word_count(class: &WordClass, text: &str) -> (n: usize)
    ensures
        n == word_spans(text@).len(),
{
    words(class, text).len()
}

/// Number of sentences in `text`: of runs that a terminator ends.
pub fn sentence_count(text: &str) -> (n: usize)
    ensures
        n == sentence_spans(text@).len(),
{
    sentences(text).len()
}

/// Number of paragraphs in `text`: 0 for the empty text, else one more
/// than there are separators.
pub fn paragraph_count(text: &str) -> (n: usize)
    ensures
        n == paragraph_spans(text@).len(),
{
    paragraphs(text).len()
}

/// Number of lines in `text`.
pub fn line_count(text: &str) -> (n: usize)
    ensures
        n == line_spans(text@).len(),
{
    lines(text).len()
}

/// Number of characters in `text`: of Unicode scalar values, not bytes.
pub fn character_total(text: &str) -> (n: usize)
    ensures
        n == text@.len(),
{
    chars_of(text).len()
}

/// Number of characters in `text` that are no space. Only U+0020 is left
/// out: tabs, line feeds and other white space count.
pub fn character_count_no_spaces(text: &str) -> (n: usize)
    ensures
        n == text@.len() - space_count(text@),
{
    let chars = chars_of(text);
    let mut n: usize = 0;
    let mut i: usize = 0;
    assert(chars@.take(0) =~= Seq::<char>::empty());
    while i < chars.len()
        invariant
            i <= chars@.len(),
            n == i - space_count(chars@.take(i as int)),
            n <= i,
        decreases chars@.len() - i,
    {
        assert(chars@.take(i + 1).drop_last() == chars@.take(i as int));
        if chars[i] != ' ' {
            n += 1;
        }
        i += 1;
    }
    assert(chars@.take(i as int) == chars@);
    n
}

/// For each sentence of `text`, the number of words in it.
pub fn count_sentence_words(class: &WordClass, text: &str) -> (counts: Vec<usize>)
    ensures
        naturals(counts@) == sentence_word_counts(text@),
{
    let chars = chars_of(text);
    let in_word = word_flags(class, chars.as_slice());
    let in_body = body_flags(chars.as_slice());
    let found = mask_sentences(in_body.as_slice());
    let mut counts: Vec<usize> = Vec::new();
    let mut k: usize = 0;
    while k < found.len()
        invariant
            k <= found@.len(),
            chars@ == text@,
            in_word@ == word_mask(text@),
            views(found@) == sentence_spans(text@),
            counts@.len() == k,
            forall|j: int| 0 <= j < k ==> #[trigger] counts@[j] == sentence_word_counts(text@)[j],
        decreases found@.len() - k,
    {
        let span = found[k];
        proof {
            lemma_sentences_are_whole(body_mask(text@));
            assert(views(found@)[k as int] == span@);
            assert(whole_sentence(body_mask(text@), span.start as int, span.end as int));
            assert(word_mask(text@).subrange(span.start as int, span.end as int) =~= word_mask(
                text@.subrange(span.start as int, span.end as int),
            ));
        }
        let part = slice_subrange(in_word.as_slice(), span.start, span.end);
        counts.push(mask_runs(part).len());
        k += 1;
    }
    assert(naturals(counts@) =~= sentence_word_counts(text@));
    counts
}

/// The largest of the numbers; 0 where there is none.
pub fn largest_of(numbers: &Vec<usize>) -> (n: usize)
    ensures
        n == largest(naturals(numbers@)),
{
    let mut n: usize = 0;
    let mut i: usize = 0;
    assert(naturals(numbers@).take(0) =~= Seq::<nat>::empty());
    while i < numbers.len()
        invariant
            i <= numbers@.len(),
            n == largest(naturals(numbers@).take(i as int)),
        decreases numbers@.len() - i,
    {
        assert(naturals(numbers@).take(i + 1).drop_last() == naturals(numbers@).take(i as int));
        if numbers[i] > n {
            n = numbers[i];
        }
        i += 1;
    }
    assert(naturals(numbers@).take(i as int) == naturals(numbers@));
    n
}

/// The smallest of the numbers; 0 where there is none.
pub fn smallest_of(numbers: &Vec<usize>) -> (n: usize)
    ensures
        n == smallest(naturals(numbers@)),
{
    let mut n: usize = 0;
    let mut i: usize = 0;
    assert(naturals(numbers@).take(0) =~= Seq::<nat>::empty());
    while i < numbers.len()
        invariant
            i <= numbers@.len(),
            n == smallest(naturals(numbers@).take(i as int)),
        decreases numbers@.len() - i,
    {
        assert(naturals(numbers@).take(i + 1).drop_last() == naturals(numbers@).take(i as int));
        if i == 0 || numbers[i] < n {
            n = numbers[i];
        }
        i += 1;
    }
    assert(naturals(numbers@).take(i as int) == naturals(numbers@));
    n
}

/// Number of words in the sentence of `text` that has most; 0 where
/// `text` has no sentence.
pub fn longest_sentence_words(class: &WordClass, text: &str) -> (n: usize)
    ensures
        n == largest(sentence_word_counts(text@)),
{
    let counts = count_sentence_words(class, text);
    largest_of(&counts)
}

/// Number of words in the sentence of `text` that has fewest; 0 where
/// `text` has no sentence.
pub fn shortest_sentence_words(class: &WordClass, text: &str) -> (n: usize)
    ensures
        n == smallest(sentence_word_counts(text@)),
{
    let counts = count_sentence_words(class, text);
    smallest_of(&counts)
}

/// Number of different words in `text`, where words that differ in case
/// alone are the same word.
pub fn unique_word_count(class: &WordClass, text: &str) -> (n: usize)
    ensures
        n == first_seen(keys_of(text@, false)).len(),
{
    KeywordDictionary::build(class, text, false).len()
}

/// The characters that the words of `text` hold between them.
pub fn word_characters(class: &WordClass, text: &str) -> (n: usize)
    ensures
        n == covered(word_spans(text@)),
{
    let spans = words(class, text);
    let ghost all = views(spans@);
    let mut n: usize = 0;
    let mut k: usize = 0;
    assert(all.take(0) =~= Seq::<(int, int)>::empty());
    while k < spans.len()
        invariant
            k <= spans@.len(),
            all == views(spans@),
            all == runs(word_mask(text@)),
            n == covered(all.take(k as int)),
            k > 0 ==> n <= spans@[k - 1].end,
        decreases spans@.len() - k,
    {
        let span = spans[k];
        proof {
            lemma_runs_are_maximal(word_mask(text@));
            assert(all[k as int] == span@);
            assert(maximal_run(word_mask(text@), span.start as int, span.end as int));
            if k > 0 {
                assert(all[k - 1] == spans@[k - 1]@);
                assert(all[k - 1].1 < all[k as int].0);
            }
            assert(all.take(k + 1).drop_last() == all.take(k as int));
        }
        n += span.end - span.start;
        k += 1;
    }
    assert(all.take(k as int) == all);
    n
}

/// The average length of a word of `text`, in characters: the characters
/// of all words over the number of words. `None` where there is no word.
pub fn avg_word_length(class: &WordClass, text: &str) -> (average: Option<Ratio>)
    ensures
        average == ratio_of(covered(word_spans(text@)) as nat, word_spans(text@).len()),
        average is None <==> word_spans(text@).len() == 0,
{
    Ratio::of(word_characters(class, text), word_count(class, text))
}

/// The average number of words in a sentence of `text`: all words, in a
/// sentence or not, over the number of sentences. `None` where there is
/// no sentence.
pub fn avg_sentence_words(class: &WordClass, text: &str) -> (average: Option<Ratio>)
    ensures
        average == ratio_of(word_spans(text@).len(), sentence_spans(text@).len()),
        average is None <==> sentence_spans(text@).len() == 0,
{
    Ratio::of(word_count(class, text), sentence_count(text))
}

/// The average number of characters in a sentence of `text`: all
/// characters, in a sentence or not, over the number of sentences. `None`
/// where there is no sentence.
pub fn avg_sentence_chars(text: &str) -> (average: Option<Ratio>)
    ensures
        average == ratio_of(text@.len(), sentence_spans(text@).len()),
        average is None <==> sentence_spans(text@).len() == 0,
{
    Ratio::of(character_total(text), sentence_count(text))
}

/// The largest of some numbers is one of them, and none is larger.
pub proof fn lemma_largest(numbers: Seq<nat>)
    ensures
        forall|i: int| 0 <= i < numbers.len() ==> #[trigger] numbers[i] <= largest(numbers),
        numbers.len() > 0 ==> numbers.contains(largest(numbers)),
        numbers.len() == 0 ==> largest(numbers) == 0,
    decreases numbers.len(),
{
    if numbers.len() > 0 {
        let front = numbers.drop_last();
        lemma_largest(front);
        assert forall|i: int| 0 <= i < numbers.len() implies #[trigger] numbers[i] <= largest(
            numbers,
        ) by {
            if i < front.len() {
                assert(front[i] == numbers[i]);
            }
        }
        if front.len() > 0 && largest(front) >= numbers.last() {
            let i = choose|i: int| 0 <= i < front.len() && front[i] == largest(front);
            assert(numbers[i] == largest(numbers));
        } else {
            assert(numbers[numbers.len() - 1] == largest(numbers));
        }
    }
}

/// The smallest of some numbers is one of them, and none is smaller.
pub proof fn lemma_smallest(numbers: Seq<nat>)
    ensures
        forall|i: int| 0 <= i < numbers.len() ==> #[trigger] numbers[i] >= smallest(numbers),
        numbers.len() > 0 ==> numbers.contains(smallest(numbers)),
        numbers.len() == 0 ==> smallest(numbers) == 0,
    decreases numbers.len(),
{
    if numbers.len() > 0 {
        let front = numbers.drop_last();
        lemma_smallest(front);
        assert forall|i: int| 0 <= i < numbers.len() implies #[trigger] numbers[i] >= smallest(
            numbers,
        ) by {
            if i < front.len() {
                assert(front[i] == numbers[i]);
            }
        }
        if numbers.len() == 1 || numbers.last() < smallest(front) {
            assert(numbers[numbers.len() - 1] == smallest(numbers));
        } else {
            let i = choose|i: int| 0 <= i < front.len() && front[i] == smallest(front);
            assert(numbers[i] == smallest(numbers));
        }
    }
}

/// The number of different keys is the size of the set of the keys.
pub proof fn lemma_distinct_keys(keys: Seq<Seq<char>>)
    ensures
        first_seen(keys).len() == keys.to_set().len(),
{
    lemma_first_seen_distinct(keys);
    let distinct = first_seen(keys);
    distinct.unique_seq_to_set();
    assert(distinct.to_set() =~= keys.to_set()) by {
        assert forall|key: Seq<char>| distinct.to_set().contains(key) == keys.to_set().contains(
            key,
        ) by {
            lemma_first_seen_contains(keys, key);
            if keys.contains(key) {
                let i = choose|i: int| 0 <= i < keys.len() && keys[i] == key;
                assert(distinct.contains(keys[i]));
            }
            if distinct.contains(key) && !keys.contains(key) {
                lemma_absent_never_occurs(keys, key);
            }
        }
    }
}

proof fn lemma_absent_never_occurs(keys: Seq<Seq<char>>, key: Seq<char>)
    requires
        !keys.contains(key),
    ensures
        occurrences(keys, key) == 0,
    decreases keys.len(),
{
    if keys.len() > 0 {
        let front = keys.drop_last();
        assert(keys[keys.len() - 1] != key);
        if front.contains(key) {
            let i = choose|i: int| 0 <= i < front.len() && front[i] == key;
            assert(keys[i] == key);
        }
        lemma_absent_never_occurs(front, key);
    }
}

} // verus!
