//! Segmentation: the words, sentences, paragraphs and lines of a text.
//!
//! A text is a sequence of Unicode scalar values, and every position in this
//! module counts such values, not bytes. A span `(start, end)` stands for the
//! characters from `start` up to `end`, `end` not included.

use crate::pattern::{word_char, WordClass};
use crate::text::{
    chars_of, is_terminator, is_white_space, string_of, terminator, texts, white_space,
};
use vstd::prelude::*;

verus! {

/// A stretch of a text: the characters from `start` up to `end`, `end` not
/// included.
#[derive(Clone, Copy, Debug, PartialEq, Eq, Structural)]
pub struct Span {
    pub start: usize,
    pub end: usize,
}

impl View for Span {
    type V = (int, int);

    open spec fn view(&self) -> (int, int) {
        (self.start as int, self.end as int)
    }
}

impl Span {
    /// Number of characters in the span; 0 where the span ends before it
    /// begins.
    pub fn len(&self) -> (n: usize)
        ensures
            n == if self.start <= self.end {
                self.end - self.start
            } else {
                0
            },
    {
        if self.start <= self.end {
            self.end - self.start
        } else {
            0
        }
    }
}

/// The spans of a vector, as pairs of positions.
pub open spec fn views(spans: Seq<Span>) -> Seq<(int, int)> {
    Seq::new(spans.len(), |i: int| spans[i]@)
}

/// Where the run of `true` that holds position `from` stops: the first
/// position at or after `from` that is `false` or past the end.
pub open spec fn run_end(mask: Seq<bool>, from: int) -> int
    decreases mask.len() - from,
{
    if 0 <= from < mask.len() && mask[from] {
        run_end(mask, from + 1)
    } else {
        from
    }
}

/// `run_end` stops at the first `false` or at the end, and not before.
pub proof fn lemma_run_end(mask: Seq<bool>, from: int)
    requires
        0 <= from <= mask.len(),
    ensures
        from <= run_end(mask, from) <= mask.len(),
        forall|i: int| from <= i < run_end(mask, from) ==> mask[i],
        run_end(mask, from) < mask.len() ==> !mask[run_end(mask, from)],
        from < mask.len() && mask[from] ==> from < run_end(mask, from),
    decreases mask.len() - from,
{
    if from < mask.len() && mask[from] {
        lemma_run_end(mask, from + 1);
    }
}

/// The maximal runs of `true` that begin at or after `from`, where `from`
/// begins a run or stands outside one.
pub open spec fn runs_from(mask: Seq<bool>, from: int) -> Seq<(int, int)>
    decreases mask.len() - from,
{
    if from < 0 || from >= mask.len() {
        Seq::empty()
    } else if mask[from] {
        proof {
            lemma_run_end(mask, from);
        }
        seq![(from, run_end(mask, from))] + runs_from(mask, run_end(mask, from))
    } else {
        runs_from(mask, from + 1)
    }
}

/// The maximal runs of `true` in `mask`, from left to right.
pub open spec fn runs(mask: Seq<bool>) -> Seq<(int, int)> {
    runs_from(mask, 0)
}

/// The maximal runs of `true` in `mask`, from left to right.
pub fn mask_runs(mask: &[bool]) -> (spans: Vec<Span>)
    ensures
        views(spans@) == runs(mask@),
{
    let mut spans: Vec<Span> = Vec::new();
    let mut at: usize = 0;
    while at < mask.len()
        invariant
            at <= mask@.len(),
            runs(mask@) == views(spans@) + runs_from(mask@, at as int),
        decreases mask@.len() - at,
    {
        if mask[at] {
            let start = at;
            while at < mask.len() && mask[at]
                invariant
                    start <= at <= mask@.len(),
                    run_end(mask@, start as int) == run_end(mask@, at as int),
                decreases mask@.len() - at,
            {
                at += 1;
            }
            proof {
                lemma_run_end(mask@, start as int);
                assert(views(spans@.push(Span { start, end: at })) == views(spans@).push(
                    (start as int, at as int),
                ));
                assert(views(spans@) + (seq![(start as int, at as int)] + runs_from(
                    mask@,
                    at as int,
                )) == views(spans@).push((start as int, at as int)) + runs_from(
                    mask@,
                    at as int,
                ));
            }
            spans.push(Span { start, end: at });
        } else {
            at += 1;
        }
    }
    assert(views(spans@) + Seq::<(int, int)>::empty() == views(spans@));
    spans
}

/// The sentences that begin at or after `from`, over the mask that is `true`
/// where a character is no terminator. A sentence is a maximal run of such
/// characters together with the terminator that follows it; a run that the
/// text ends without a terminator is none.
pub open spec fn sentences_from(body: Seq<bool>, from: int) -> Seq<(int, int)>
    decreases body.len() - from,
{
    if from < 0 || from >= body.len() {
        Seq::empty()
    } else if !body[from] {
        sentences_from(body, from + 1)
    } else {
        proof {
            lemma_run_end(body, from);
        }
        let stop = run_end(body, from);
        if stop >= body.len() {
            Seq::empty()
        } else {
            seq![(from, stop + 1)] + sentences_from(body, stop + 1)
        }
    }
}

/// The sentences over a mask, from left to right.
pub open spec fn sentence_runs(body: Seq<bool>) -> Seq<(int, int)> {
    sentences_from(body, 0)
}

/// The sentences over the mask that is `true` where a character is no
/// terminator, from left to right.
pub fn mask_sentences(body: &[bool]) -> (spans: Vec<Span>)
    ensures
        views(spans@) == sentence_runs(body@),
{
    let mut spans: Vec<Span> = Vec::new();
    let mut at: usize = 0;
    while at < body.len()
        invariant
            at <= body@.len(),
            sentence_runs(body@) == views(spans@) + sentences_from(body@, at as int),
        decreases body@.len() - at,
    {
        if body[at] {
            let start = at;
            while at < body.len() && body[at]
                invariant
                    start <= at <= body@.len(),
                    run_end(body@, start as int) == run_end(body@, at as int),
                decreases body@.len() - at,
            {
                at += 1;
            }
            proof {
                lemma_run_end(body@, start as int);
            }
            if at < body.len() {
                at += 1;
                proof {
                    assert(views(spans@.push(Span { start, end: at })) == views(spans@).push(
                        (start as int, at as int),
                    ));
                    assert(views(spans@) + (seq![(start as int, at as int)] + sentences_from(
                        body@,
                        at as int,
                    )) == views(spans@).push((start as int, at as int)) + sentences_from(
                        body@,
                        at as int,
                    ));
                }
                spans.push(Span { start, end: at });
            }
        } else {
            at += 1;
        }
    }
    assert(views(spans@) + Seq::<(int, int)>::empty() == views(spans@));
    spans
}

/// The mask that is `true` where `text` holds white space.
pub open spec fn space_mask(text: Seq<char>) -> Seq<bool> {
    Seq::new(text.len(), |i: int| white_space(text[i]))
}

/// The last line feed among `text[from..to]`, or -1 where there is none.
pub open spec fn last_newline(text: Seq<char>, from: int, to: int) -> int
    decreases to - from,
{
    if to <= from {
        -1
    } else if text[to - 1] == '\n' {
        to - 1
    } else {
        last_newline(text, from, to - 1)
    }
}

/// `last_newline` answers with a line feed of the range, the last one, or
/// with -1.
pub proof fn lemma_last_newline(text: Seq<char>, from: int, to: int)
    requires
        0 <= from,
        to <= text.len(),
    ensures
        last_newline(text, from, to) == -1 || (from <= last_newline(text, from, to) < to
            && text[last_newline(text, from, to)] == '\n'),
        forall|i: int| from <= i < to && last_newline(text, from, to) < i ==> text[i] != '\n',
    decreases to - from,
{
    if to > from && text[to - 1] != '\n' {
        lemma_last_newline(text, from, to - 1);
    }
}

/// The paragraph separators that begin at or after `from`. A separator
/// begins at a line feed and runs over white space up to another line feed,
/// the last one that only white space parts from the first.
pub open spec fn separators_from(text: Seq<char>, from: int) -> Seq<(int, int)>
    decreases text.len() - from,
{
    if from < 0 || from >= text.len() {
        Seq::empty()
    } else if text[from] == '\n' {
        let stop = run_end(space_mask(text), from + 1);
        let last = last_newline(text, from + 1, stop);
        if last > from {
            proof {
                lemma_run_end(space_mask(text), from + 1);
                lemma_last_newline(text, from + 1, stop);
            }
            seq![(from, last + 1)] + separators_from(text, last + 1)
        } else {
            separators_from(text, from + 1)
        }
    } else {
        separators_from(text, from + 1)
    }
}

/// The paragraph separators of `text`, from left to right.
pub open spec fn separators(text: Seq<char>) -> Seq<(int, int)> {
    separators_from(text, 0)
}

/// The paragraph separators of `text`, from left to right.
pub fn find_separators(text: &[char]) -> (spans: Vec<Span>)
    ensures
        views(spans@) == separators(text@),
{
    let mut spans: Vec<Span> = Vec::new();
    let mut at: usize = 0;
    while at < text.len()
        invariant
            at <= text@.len(),
            separators(text@) == views(spans@) + separators_from(text@, at as int),
        decreases text@.len() - at,
    {
        if text[at] == '\n' {
            let mut probe: usize = at + 1;
            let mut last: usize = at;
            while probe < text.len() && is_white_space(text[probe])
                invariant
                    at < probe <= text@.len(),
                    at <= last < probe,
                    run_end(space_mask(text@), at + 1) == run_end(space_mask(text@), probe as int),
                    last_newline(text@, at + 1, probe as int) == if last > at {
                        last as int
                    } else {
                        -1
                    },
                decreases text@.len() - probe,
            {
                if text[probe] == '\n' {
                    last = probe;
                }
                probe += 1;
            }
            if last > at {
                let start = at;
                at = last + 1;
                proof {
                    assert(views(spans@.push(Span { start, end: at })) == views(spans@).push(
                        (start as int, at as int),
                    ));
                    assert(views(spans@) + (seq![(start as int, at as int)] + separators_from(
                        text@,
                        at as int,
                    )) == views(spans@).push((start as int, at as int)) + separators_from(
                        text@,
                        at as int,
                    ));
                }
                spans.push(Span { start, end: at });
            } else {
                at += 1;
            }
        } else {
            at += 1;
        }
    }
    assert(views(spans@) + Seq::<(int, int)>::empty() == views(spans@));
    spans
}

/// The pieces that the separators from the `k`-th on leave of a text of
/// `len` characters, the first piece beginning at `start`.
pub open spec fn pieces_from(gaps: Seq<(int, int)>, k: int, start: int, len: int) -> Seq<
    (int, int),
>
    decreases gaps.len() - k,
{
    if k < 0 || k >= gaps.len() {
        seq![(start, len)]
    } else {
        seq![(start, gaps[k].0)] + pieces_from(gaps, k + 1, gaps[k].1, len)
    }
}

/// The paragraphs of `text`: nothing for the empty text, else what lies
/// before, between and after its separators, empty pieces included.
pub open spec fn paragraph_spans(text: Seq<char>) -> Seq<(int, int)> {
    if text.len() == 0 {
        Seq::empty()
    } else {
        pieces_from(separators(text), 0, 0, text.len() as int)
    }
}

/// Separators leave one piece more than there are of them.
pub proof fn lemma_pieces_len(gaps: Seq<(int, int)>, k: int, start: int, len: int)
    requires
        0 <= k <= gaps.len(),
    ensures
        pieces_from(gaps, k, start, len).len() == gaps.len() - k + 1,
    decreases gaps.len() - k,
{
    if k < gaps.len() {
        lemma_pieces_len(gaps, k + 1, gaps[k].1, len);
    }
}

/// The paragraphs of `text`, from left to right.
pub fn find_paragraphs(text: &[char]) -> (spans: Vec<Span>)
    ensures
        views(spans@) == paragraph_spans(text@),
        spans@.len() == if text@.len() == 0 {
            0
        } else {
            separators(text@).len() + 1
        },
{
    let mut spans: Vec<Span> = Vec::new();
    if text.len() == 0 {
        assert(views(spans@) == Seq::<(int, int)>::empty());
        return spans;
    }
    let gaps = find_separators(text);
    let mut start: usize = 0;
    let mut k: usize = 0;
    while k < gaps.len()
        invariant
            k <= gaps@.len(),
            views(gaps@) == separators(text@),
            paragraph_spans(text@) == views(spans@) + pieces_from(
                views(gaps@),
                k as int,
                start as int,
                text@.len() as int,
            ),
            spans@.len() == k,
        decreases gaps@.len() - k,
    {
        let gap = gaps[k];
        proof {
            assert(views(gaps@)[k as int] == gap@);
            assert(views(spans@.push(Span { start, end: gap.start })) == views(spans@).push(
                (start as int, gap.start as int),
            ));
            assert(views(spans@) + (seq![(start as int, gap.start as int)] + pieces_from(
                views(gaps@),
                k + 1,
                gap.end as int,
                text@.len() as int,
            )) == views(spans@).push((start as int, gap.start as int)) + pieces_from(
                views(gaps@),
                k + 1,
                gap.end as int,
                text@.len() as int,
            ));
        }
        spans.push(Span { start, end: gap.start });
        start = gap.end;
        k += 1;
    }
    proof {
        assert(views(spans@.push(Span { start, end: text.len() })) == views(spans@).push(
            (start as int, text@.len() as int),
        ));
        assert(views(spans@) + seq![(start as int, text@.len() as int)] == views(spans@).push(
            (start as int, text@.len() as int),
        ));
    }
    spans.push(Span { start, end: text.len() });
    spans
}

/// The mask that is `true` where `text` holds anything but a line feed.
pub open spec fn line_mask(text: Seq<char>) -> Seq<bool> {
    Seq::new(text.len(), |i: int| text[i] != '\n')
}

/// The lines of `text` that begin at or after `from`, where `from` begins a
/// line. A line ends before its line feed, and before the carriage return
/// that stands directly in front of that line feed, if one does. What
/// follows the last line feed is a line unless it is empty.
pub open spec fn lines_from(text: Seq<char>, from: int) -> Seq<(int, int)>
    decreases text.len() - from,
{
    if from < 0 || from >= text.len() {
        Seq::empty()
    } else {
        proof {
            lemma_run_end(line_mask(text), from);
        }
        let stop = run_end(line_mask(text), from);
        if stop >= text.len() {
            seq![(from, stop)]
        } else if stop > from && text[stop - 1] == '\r' {
            seq![(from, stop - 1)] + lines_from(text, stop + 1)
        } else {
            seq![(from, stop)] + lines_from(text, stop + 1)
        }
    }
}

/// The lines of `text`, from first to last.
pub open spec fn line_spans(text: Seq<char>) -> Seq<(int, int)> {
    lines_from(text, 0)
}

/// The lines of `text`, from first to last.
pub fn find_lines(text: &[char]) -> (spans: Vec<Span>)
    ensures
        views(spans@) == line_spans(text@),
{
    let mut spans: Vec<Span> = Vec::new();
    let mut at: usize = 0;
    while at < text.len()
        invariant
            at <= text@.len(),
            line_spans(text@) == views(spans@) + lines_from(text@, at as int),
        decreases text@.len() - at,
    {
        let start = at;
        while at < text.len() && text[at] != '\n'
            invariant
                start <= at <= text@.len(),
                run_end(line_mask(text@), start as int) == run_end(line_mask(text@), at as int),
            decreases text@.len() - at,
        {
            at += 1;
        }
        let end = if at < text.len() && at > start && text[at - 1] == '\r' {
            at - 1
        } else {
            at
        };
        let ghost rest = if at < text@.len() {
            lines_from(text@, at + 1)
        } else {
            Seq::empty()
        };
        proof {
            lemma_run_end(line_mask(text@), start as int);
            assert(lines_from(text@, start as int) == seq![(start as int, end as int)] + rest);
            assert(views(spans@.push(Span { start, end })) == views(spans@).push(
                (start as int, end as int),
            ));
            assert(views(spans@) + (seq![(start as int, end as int)] + rest) == views(
                spans@,
            ).push((start as int, end as int)) + rest);
        }
        spans.push(Span { start, end });
        if at < text.len() {
            at += 1;
        }
    }
    assert(views(spans@) + Seq::<(int, int)>::empty() == views(spans@));
    spans
}

/// The mask that is `true` where `text` holds a word character.
pub open spec fn word_mask(text: Seq<char>) -> Seq<bool> {
    Seq::new(text.len(), |i: int| word_char(text[i]))
}

/// The mask that is `true` where `text` holds anything but a terminator.
pub open spec fn body_mask(text: Seq<char>) -> Seq<bool> {
    Seq::new(text.len(), |i: int| !terminator(text[i]))
}

/// The words of `text`: its maximal runs of word characters.
pub open spec fn word_spans(text: Seq<char>) -> Seq<(int, int)> {
    runs(word_mask(text))
}

/// The sentences of `text`: each maximal run of characters that are no
/// terminators, with the terminator that ends it.
pub open spec fn sentence_spans(text: Seq<char>) -> Seq<(int, int)> {
    sentence_runs(body_mask(text))
}

/// For each character of `text`, whether it is a word character.
pub fn word_flags(class: &WordClass, text: &[char]) -> (flags: Vec<bool>)
    ensures
        flags@ == word_mask(text@),
{
    let mut flags: Vec<bool> = Vec::new();
    let mut i: usize = 0;
    while i < text.len()
        invariant
            i <= text@.len(),
            flags@.len() == i,
            forall|j: int| 0 <= j < i ==> flags@[j] == word_char(text@[j]),
        decreases text@.len() - i,
    {
        flags.push(class.contains(text[i]));
        i += 1;
    }
    assert(flags@ =~= word_mask(text@));
    flags
}

/// For each character of `text`, whether it is anything but a terminator.
pub fn body_flags(text: &[char]) -> (flags: Vec<bool>)
    ensures
        flags@ == body_mask(text@),
{
    let mut flags: Vec<bool> = Vec::new();
    let mut i: usize = 0;
    while i < text.len()
        invariant
            i <= text@.len(),
            flags@.len() == i,
            forall|j: int| 0 <= j < i ==> flags@[j] == !terminator(text@[j]),
        decreases text@.len() - i,
    {
        flags.push(!is_terminator(text[i]));
        i += 1;
    }
    assert(flags@ =~= body_mask(text@));
    flags
}

/// The words of `text`, from left to right.
pub fn words(class: &WordClass, text: &str) -> (spans: Vec<Span>)
    ensures
        views(spans@) == word_spans(text@),
{
    let chars = chars_of(text);
    let flags = word_flags(class, chars.as_slice());
    mask_runs(flags.as_slice())
}

/// The words of `text` as texts of their own, from left to right.
pub open spec fn word_texts(text: Seq<char>) -> Seq<Seq<char>> {
    Seq::new(
        word_spans(text).len(),
        |k: int| text.subrange(word_spans(text)[k].0, word_spans(text)[k].1),
    )
}

/// The words of `text` as strings of their own, from left to right.
pub fn word_strings(class: &WordClass, text: &str) -> (found: Vec<String>)
    ensures
        texts(found@) == word_texts(text@),
{
    let chars = chars_of(text);
    let flags = word_flags(class, chars.as_slice());
    let spans = mask_runs(flags.as_slice());
    let mut found: Vec<String> = Vec::new();
    let mut k: usize = 0;
    while k < spans.len()
        invariant
            k <= spans@.len(),
            chars@ == text@,
            views(spans@) == word_spans(text@),
            found@.len() == k,
            forall|j: int| 0 <= j < k ==> (#[trigger] found@[j])@ == word_texts(text@)[j],
        decreases spans@.len() - k,
    {
        let span = spans[k];
        proof {
            lemma_runs_are_maximal(word_mask(text@));
            assert(views(spans@)[k as int] == span@);
            assert(maximal_run(word_mask(text@), span.start as int, span.end as int));
        }
        found.push(string_of(chars.as_slice(), span.start, span.end));
        k += 1;
    }
    assert(texts(found@) =~= word_texts(text@));
    found
}

/// The sentences of `text`, from left to right. What follows the last
/// terminator is no sentence.
pub fn sentences(text: &str) -> (spans: Vec<Span>)
    ensures
        views(spans@) == sentence_spans(text@),
{
    let chars = chars_of(text);
    let flags = body_flags(chars.as_slice());
    mask_sentences(flags.as_slice())
}

/// The paragraphs of `text`, from left to right: none for the empty text,
/// one for a text without a separator.
pub fn paragraphs(text: &str) -> (spans: Vec<Span>)
    ensures
        views(spans@) == paragraph_spans(text@),
{
    let chars = chars_of(text);
    find_paragraphs(chars.as_slice())
}

/// The lines of `text`, from first to last. A line feed at the very end
/// begins no further line.
pub fn lines(text: &str) -> (spans: Vec<Span>)
    ensures
        views(spans@) == line_spans(text@),
{
    let chars = chars_of(text);
    find_lines(chars.as_slice())
}

/// Whether `from` stands where a run may begin: at either end of the mask,
/// or next to a `false`.
spec fn at_boundary(mask: Seq<bool>, from: int) -> bool {
    from <= 0 || from >= mask.len() || !mask[from - 1] || !mask[from]
}

/// Whether `(start, end)` is a maximal run of `true` in `mask`.
pub open spec fn maximal_run(mask: Seq<bool>, start: int, end: int) -> bool {
    &&& 0 <= start < end <= mask.len()
    &&& forall|i: int| start <= i < end ==> mask[i]
    &&& start == 0 || !mask[start - 1]
    &&& end == mask.len() || !mask[end]
}

proof fn lemma_runs_from(mask: Seq<bool>, from: int)
    requires
        0 <= from,
        at_boundary(mask, from),
    ensures
        forall|k: int|
            0 <= k < runs_from(mask, from).len() ==> from <= (#[trigger] runs_from(mask, from)[k]).0
                && maximal_run(mask, runs_from(mask, from)[k].0, runs_from(mask, from)[k].1),
        forall|k: int|
            0 <= k < runs_from(mask, from).len() - 1 ==> (#[trigger] runs_from(mask, from)[k]).1
                < runs_from(mask, from)[k + 1].0,
        forall|i: int|
            from <= i < mask.len() && mask[i] ==> exists|k: int|
                0 <= k < runs_from(mask, from).len() && (#[trigger] runs_from(mask, from)[k]).0
                    <= i < runs_from(mask, from)[k].1,
    decreases mask.len() - from,
{
    let all = runs_from(mask, from);
    if from >= mask.len() {
        assert(all.len() == 0);
    } else if mask[from] {
        let end = run_end(mask, from);
        lemma_run_end(mask, from);
        lemma_runs_from(mask, end);
        let rest = runs_from(mask, end);
        assert(all == seq![(from, end)] + rest);
        assert(all[0] == (from, end));
        assert forall|k: int| 0 <= k < all.len() implies from <= (#[trigger] all[k]).0
            && maximal_run(mask, all[k].0, all[k].1) by {
            if k > 0 {
                assert(all[k] == rest[k - 1]);
            }
        }
        assert forall|k: int| 0 <= k < all.len() - 1 implies (#[trigger] all[k]).1 < all[k + 1].0 by {
            assert(all[k + 1] == rest[k]);
            if k > 0 {
                assert(all[k] == rest[k - 1]);
            } else {
                assert(maximal_run(mask, rest[0].0, rest[0].1));
                assert(mask[rest[0].0]);
            }
        }
        assert forall|i: int| from <= i < mask.len() && mask[i] implies exists|k: int|
            0 <= k < all.len() && (#[trigger] all[k]).0 <= i < all[k].1 by {
            if i < end {
                assert(all[0].0 <= i < all[0].1);
            } else {
                let k = choose|k: int| 0 <= k < rest.len() && (#[trigger] rest[k]).0 <= i < rest[k].1;
                assert(all[k + 1] == rest[k]);
            }
        }
    } else {
        lemma_runs_from(mask, from + 1);
        assert(all == runs_from(mask, from + 1));
    }
}

/// The spans of `runs` are the maximal runs of `true`, all of them, each
/// once, from left to right.
pub proof fn lemma_runs_are_maximal(mask: Seq<bool>)
    ensures
        forall|k: int|
            0 <= k < runs(mask).len() ==> maximal_run(
                mask,
                (#[trigger] runs(mask)[k]).0,
                runs(mask)[k].1,
            ),
        forall|k: int|
            0 <= k < runs(mask).len() - 1 ==> (#[trigger] runs(mask)[k]).1 < runs(mask)[k + 1].0,
        forall|i: int|
            0 <= i < mask.len() && mask[i] ==> exists|k: int|
                0 <= k < runs(mask).len() && (#[trigger] runs(mask)[k]).0 <= i < runs(mask)[k].1,
{
    lemma_runs_from(mask, 0);
}

/// What comes after the end of a mask does not move where a run stops
/// inside it, as long as it begins with `false`.
proof fn lemma_run_end_before_tail(mask: Seq<bool>, tail: Seq<bool>, from: int)
    requires
        0 <= from <= mask.len(),
        tail.len() > 0 ==> !tail[0],
    ensures
        run_end(mask + tail, from) == run_end(mask, from),
    decreases mask.len() - from,
{
    if from < mask.len() {
        assert((mask + tail)[from] == mask[from]);
        if mask[from] {
            lemma_run_end_before_tail(mask, tail, from + 1);
        }
    } else if tail.len() > 0 {
        assert((mask + tail)[from] == tail[0]);
    }
}

proof fn lemma_runs_before_false_tail(mask: Seq<bool>, tail: Seq<bool>, from: int)
    requires
        0 <= from,
        forall|i: int| 0 <= i < tail.len() ==> !tail[i],
    ensures
        runs_from(mask + tail, from) == runs_from(mask, from),
    decreases (mask + tail).len() - from,
{
    let whole = mask + tail;
    if from >= whole.len() {
    } else if from >= mask.len() {
        assert(whole[from] == tail[from - mask.len()]);
        lemma_runs_before_false_tail(mask, tail, from + 1);
    } else {
        assert(whole[from] == mask[from]);
        if mask[from] {
            lemma_run_end_before_tail(mask, tail, from);
            lemma_run_end(mask, from);
            lemma_runs_before_false_tail(mask, tail, run_end(mask, from));
        } else {
            lemma_runs_before_false_tail(mask, tail, from + 1);
        }
    }
}

/// Characters that are no word characters, put after a text, change
/// nothing about its words.
pub proof fn lemma_words_ignore_tail(text: Seq<char>, tail: Seq<char>)
    requires
        forall|i: int| 0 <= i < tail.len() ==> !word_char(tail[i]),
    ensures
        word_spans(text + tail) == word_spans(text),
        word_spans(text + tail).len() == word_spans(text).len(),
{
    assert(word_mask(text + tail) =~= word_mask(text) + word_mask(tail));
    lemma_runs_before_false_tail(word_mask(text), word_mask(tail), 0);
}

/// White space put after a text changes nothing about its words, nor
/// about how many there are.
pub proof fn lemma_trailing_space_keeps_words(text: Seq<char>, space: Seq<char>)
    requires
        forall|i: int| 0 <= i < space.len() ==> white_space(space[i]),
    ensures
        word_spans(text + space) == word_spans(text),
        word_spans(text + space).len() == word_spans(text).len(),
{
    lemma_words_ignore_tail(text, space);
}

/// Whether `(start, end)` is a sentence over `body`: a run of `true` that
/// cannot begin earlier, and the `false` that follows it.
pub open spec fn whole_sentence(body: Seq<bool>, start: int, end: int) -> bool {
    &&& 0 <= start < end - 1 < body.len()
    &&& forall|i: int| start <= i < end - 1 ==> body[i]
    &&& start == 0 || !body[start - 1]
    &&& !body[end - 1]
}

proof fn lemma_sentences_from(body: Seq<bool>, from: int)
    requires
        0 <= from,
        from == 0 || from > body.len() || !body[from - 1],
    ensures
        forall|k: int|
            0 <= k < sentences_from(body, from).len() ==> from <= (#[trigger] sentences_from(
                body,
                from,
            )[k]).0 && whole_sentence(
                body,
                sentences_from(body, from)[k].0,
                sentences_from(body, from)[k].1,
            ),
        forall|k: int|
            0 <= k < sentences_from(body, from).len() - 1 ==> (#[trigger] sentences_from(
                body,
                from,
            )[k]).1 <= sentences_from(body, from)[k + 1].0,
    decreases body.len() - from,
{
    let all = sentences_from(body, from);
    if from >= body.len() {
        assert(all.len() == 0);
    } else if !body[from] {
        lemma_sentences_from(body, from + 1);
        assert(all == sentences_from(body, from + 1));
    } else {
        lemma_run_end(body, from);
        let stop = run_end(body, from);
        if stop >= body.len() {
            assert(all.len() == 0);
        } else {
            lemma_sentences_from(body, stop + 1);
            let rest = sentences_from(body, stop + 1);
            assert(all == seq![(from, stop + 1)] + rest);
            assert(all[0] == (from, stop + 1));
            assert forall|k: int| 0 <= k < all.len() implies from <= (#[trigger] all[k]).0
                && whole_sentence(body, all[k].0, all[k].1) by {
                if k > 0 {
                    assert(all[k] == rest[k - 1]);
                }
            }
            assert forall|k: int| 0 <= k < all.len() - 1 implies (#[trigger] all[k]).1 <= all[k
                + 1].0 by {
                assert(all[k + 1] == rest[k]);
                if k > 0 {
                    assert(all[k] == rest[k - 1]);
                }
            }
        }
    }
}

/// Every sentence is a run of characters that are no terminators with
/// the terminator that follows it, and the sentences do not overlap.
pub proof fn lemma_sentences_are_whole(body: Seq<bool>)
    ensures
        forall|k: int|
            0 <= k < sentence_runs(body).len() ==> whole_sentence(
                body,
                (#[trigger] sentence_runs(body)[k]).0,
                sentence_runs(body)[k].1,
            ),
        forall|k: int|
            0 <= k < sentence_runs(body).len() - 1 ==> (#[trigger] sentence_runs(body)[k]).1
                <= sentence_runs(body)[k + 1].0,
{
    lemma_sentences_from(body, 0);
}

proof fn lemma_sentences_one_more(body: Seq<bool>, from: int)
    requires
        0 <= from < body.len(),
        body.last(),
    ensures
        sentences_from(body.push(false), from).len() == sentences_from(body, from).len() + 1,
    decreases body.len() - from,
{
    let longer = body.push(false);
    assert(longer =~= body + seq![false]);
    assert(longer[from] == body[from]);
    if !body[from] {
        lemma_sentences_one_more(body, from + 1);
    } else {
        lemma_run_end(body, from);
        lemma_run_end_before_tail(body, seq![false], from);
        let stop = run_end(body, from);
        if stop >= body.len() {
            assert(sentences_from(longer, stop + 1) == Seq::<(int, int)>::empty());
        } else {
            lemma_sentences_one_more(body, stop + 1);
        }
    }
}

/// A terminator put after a text that does not end in one, and is not
/// empty, ends exactly one sentence more.
pub proof fn lemma_terminator_ends_a_sentence(text: Seq<char>, mark: char)
    requires
        terminator(mark),
        text.len() > 0,
        !terminator(text.last()),
    ensures
        sentence_spans(text.push(mark)).len() == sentence_spans(text).len() + 1,
{
    assert(body_mask(text.push(mark)) =~= body_mask(text).push(false));
    lemma_sentences_one_more(body_mask(text), 0);
}

proof fn lemma_no_terminator_from(body: Seq<bool>, from: int)
    requires
        0 <= from,
        forall|i: int| 0 <= i < body.len() ==> body[i],
    ensures
        sentences_from(body, from) == Seq::<(int, int)>::empty(),
{
    if from < body.len() {
        lemma_run_end(body, from);
    }
}

/// A text without a terminator has no sentence, whatever words it holds.
pub proof fn lemma_no_terminator_no_sentence(text: Seq<char>)
    requires
        forall|i: int| 0 <= i < text.len() ==> !terminator(text[i]),
    ensures
        sentence_spans(text).len() == 0,
{
    lemma_no_terminator_from(body_mask(text), 0);
}

proof fn lemma_lines_before_final_feed(text: Seq<char>, from: int)
    requires
        0 <= from < text.len(),
        text.last() != '\n',
    ensures
        lines_from(text.push('\n'), from).len() == lines_from(text, from).len(),
    decreases text.len() - from,
{
    let longer = text.push('\n');
    assert(line_mask(longer) =~= line_mask(text) + seq![false]);
    lemma_run_end(line_mask(text), from);
    lemma_run_end_before_tail(line_mask(text), seq![false], from);
    let stop = run_end(line_mask(text), from);
    if stop >= text.len() {
        assert(lines_from(longer, stop + 1) == Seq::<(int, int)>::empty());
    } else {
        if stop > from {
            assert(longer[stop - 1] == text[stop - 1]);
        }
        lemma_lines_before_final_feed(text, stop + 1);
    }
}

/// A line feed at the end of a text whose last line it ends begins no
/// further line.
pub proof fn lemma_final_line_feed_adds_no_line(text: Seq<char>)
    requires
        text.len() > 0,
        text.last() != '\n',
    ensures
        line_spans(text.push('\n')).len() == line_spans(text).len(),
{
    lemma_lines_before_final_feed(text, 0);
}

proof fn lemma_no_feed_no_separator(text: Seq<char>, from: int)
    requires
        0 <= from,
        forall|i: int| 0 <= i < text.len() ==> text[i] != '\n',
    ensures
        separators_from(text, from) == Seq::<(int, int)>::empty(),
    decreases text.len() - from,
{
    if from < text.len() {
        lemma_no_feed_no_separator(text, from + 1);
    }
}

/// The empty text has no paragraph; any other has one more than it has
/// separators, and so exactly one, the whole text, where it has no line
/// feed.
pub proof fn lemma_paragraph_count(text: Seq<char>)
    ensures
        text.len() == 0 ==> paragraph_spans(text).len() == 0,
        text.len() > 0 ==> paragraph_spans(text).len() == separators(text).len() + 1,
        text.len() > 0 && (forall|i: int| 0 <= i < text.len() ==> text[i] != '\n')
            ==> paragraph_spans(text) == seq![(0int, text.len() as int)],
{
    lemma_pieces_len(separators(text), 0, 0, text.len() as int);
    if text.len() > 0 && (forall|i: int| 0 <= i < text.len() ==> text[i] != '\n') {
        lemma_no_feed_no_separator(text, 0);
    }
}

} // verus!
