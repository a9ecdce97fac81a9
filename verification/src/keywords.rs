//! Keyword frequencies: how often each word occurs in a text.

use crate::pattern::WordClass;
use crate::ratio::{ratio_of, Ratio};
use crate::segment::{word_spans, word_strings, word_texts};
use crate::text::{decimal, lowercase, push_decimal, texts};
use vstd::hash_map::StringHashMap;
use vstd::prelude::*;

verus! {

/// How often `key` occurs among `keys`.
pub open spec fn occurrences(keys: Seq<Seq<char>>, key: Seq<char>) -> nat
    decreases keys.len(),
{
    if keys.len() == 0 {
        0
    } else {
        occurrences(keys.drop_last(), key) + if keys.last() == key {
            1nat
        } else {
            0nat
        }
    }
}

/// The keys without repetition, each where it is first seen.
pub open spec fn first_seen(keys: Seq<Seq<char>>) -> Seq<Seq<char>>
    decreases keys.len(),
{
    if keys.len() == 0 {
        Seq::empty()
    } else if first_seen(keys.drop_last()).contains(keys.last()) {
        first_seen(keys.drop_last())
    } else {
        first_seen(keys.drop_last()).push(keys.last())
    }
}

/// Every key once, in the order of `first_seen`, with the number of its
/// occurrences.
pub open spec fn tally(keys: Seq<Seq<char>>) -> Seq<(Seq<char>, nat)> {
    Seq::new(
        first_seen(keys).len(),
        |i: int| (first_seen(keys)[i], occurrences(keys, first_seen(keys)[i])),
    )
}

/// The keys under which the words of `text` are counted: the words as
/// they stand where case matters, else their lowercase forms.
pub open spec fn keys_of(text: Seq<char>, match_case: bool) -> Seq<Seq<char>> {
    Seq::new(
        word_texts(text).len(),
        |k: int|
            if match_case {
                word_texts(text)[k]
            } else {
                lowercase(word_texts(text)[k])
            },
    )
}

/// Where a row of `count` occurrences goes among `rows` from `from` on: in
/// front of the first row that does not have more.
pub open spec fn rank_position(rows: Seq<(Seq<char>, nat)>, count: nat, from: int) -> int
    decreases rows.len() - from,
{
    if 0 <= from < rows.len() && rows[from].1 > count {
        rank_position(rows, count, from + 1)
    } else {
        from
    }
}

/// The entries by falling count. Each entry in turn goes in front of the
/// rows that do not have more than it, so that of two entries with the
/// same count the later one comes first.
pub open spec fn ranked(entries: Seq<(Seq<char>, nat)>) -> Seq<(Seq<char>, nat)>
    decreases entries.len(),
{
    if entries.len() == 0 {
        Seq::empty()
    } else {
        ranked(entries.drop_last()).insert(
            rank_position(ranked(entries.drop_last()), entries.last().1, 0),
            entries.last(),
        )
    }
}

/// The counts of the entries, added up.
pub open spec fn total(entries: Seq<(Seq<char>, nat)>) -> nat
    decreases entries.len(),
{
    if entries.len() == 0 {
        0
    } else {
        total(entries.drop_last()) + entries.last().1
    }
}

/// A key is among `first_seen` exactly where it occurs, and occurs no
/// more often than there are keys.
pub proof fn lemma_first_seen_contains(keys: Seq<Seq<char>>, key: Seq<char>)
    ensures
        first_seen(keys).contains(key) <==> occurrences(keys, key) > 0,
        occurrences(keys, key) <= keys.len(),
    decreases keys.len(),
{
    if keys.len() > 0 {
        let before = first_seen(keys.drop_last());
        lemma_first_seen_contains(keys.drop_last(), key);
        lemma_first_seen_contains(keys.drop_last(), keys.last());
        if before.contains(keys.last()) {
        } else {
            let after = before.push(keys.last());
            assert(after[before.len() as int] == keys.last());
            if before.contains(key) {
                let i = choose|i: int| 0 <= i < before.len() && before[i] == key;
                assert(after[i] == key);
            }
            if after.contains(key) && key != keys.last() {
                let i = choose|i: int| 0 <= i < after.len() && after[i] == key;
                assert(before[i] == key);
            }
        }
    }
}

/// The keys under which the words of `text` are counted, from left to
/// right.
pub fn word_keys(class: &WordClass, text: &str, match_case: bool) -> (keys: Vec<String>)
    ensures
        texts(keys@) == keys_of(text@, match_case),
{
    let found = word_strings(class, text);
    if match_case {
        assert(texts(found@) =~= keys_of(text@, match_case));
        return found;
    }
    let mut keys: Vec<String> = Vec::new();
    let mut k: usize = 0;
    while k < found.len()
        invariant
            k <= found@.len(),
            texts(found@) == word_texts(text@),
            keys@.len() == k,
            forall|j: int| 0 <= j < k ==> (#[trigger] keys@[j])@ == lowercase(word_texts(text@)[j]),
        decreases found@.len() - k,
    {
        assert(texts(found@)[k as int] == found@[k as int]@);
        keys.push(found[k].as_str().to_lowercase());
        k += 1;
    }
    assert(texts(keys@) =~= keys_of(text@, match_case));
    keys
}

/// The table that is handed out for export: a header row, `Word` and
/// `Count`, and under it one row for each entry, the count in decimal
/// digits.
pub open spec fn export_table(entries: Seq<(Seq<char>, nat)>) -> Seq<(Seq<char>, Seq<char>)> {
    Seq::new(
        entries.len() + 1,
        |i: int|
            if i == 0 {
                ("Word"@, "Count"@)
            } else {
                (entries[i - 1].0, decimal(entries[i - 1].1))
            },
    )
}

/// What rows of two strings stand for.
pub open spec fn row_texts(rows: Seq<(String, String)>) -> Seq<(Seq<char>, Seq<char>)> {
    Seq::new(rows.len(), |i: int| (rows[i].0@, rows[i].1@))
}

/// A word with the number of times it occurs.
#[derive(Clone, Debug, PartialEq, Eq)]
pub struct Keyword {
    pub word: String,
    pub count: usize,
}

impl View for Keyword {
    type V = (Seq<char>, nat);

    open spec fn view(&self) -> (Seq<char>, nat) {
        (self.word@, self.count as nat)
    }
}

/// What keywords stand for: pairs of a word and its count.
pub open spec fn keyword_views(rows: Seq<Keyword>) -> Seq<(Seq<char>, nat)> {
    Seq::new(rows.len(), |i: int| rows[i]@)
}

/// The words of a text with the number of times each occurs. The entries
/// stand in the order in which the words first occur.
pub struct KeywordDictionary {
    entries: Vec<Keyword>,
}

impl View for KeywordDictionary {
    type V = Seq<(Seq<char>, nat)>;

    closed spec fn view(&self) -> Seq<(Seq<char>, nat)> {
        keyword_views(self.entries@)
    }
}

impl KeywordDictionary {
    /// The dictionary without an entry.
    pub fn new() -> (dictionary: KeywordDictionary)
        ensures
            dictionary@ == Seq::<(Seq<char>, nat)>::empty(),
    {
        let dictionary = KeywordDictionary { entries: Vec::new() };
        assert(dictionary@ =~= Seq::<(Seq<char>, nat)>::empty());
        dictionary
    }

    /// The dictionary of `text`: each word under its key, the word itself
    /// where case matters and its lowercase form where it does not, with
    /// the number of words that fall under that key.
    pub fn build(class: &WordClass, text: &str, match_case: bool) -> (dictionary: KeywordDictionary)
        ensures
            dictionary@ == tally(keys_of(text@, match_case)),
    {
        let keys = word_keys(class, text, match_case);
        KeywordDictionary::tally_keys(&keys)
    }

    /// Number of entries, which is the number of distinct keys.
    pub fn len(&self) -> (n: usize)
        ensures
            n == self@.len(),
    {
        self.entries.len()
    }

    /// Whether the dictionary has no entry.
    pub fn is_empty(&self) -> (empty: bool)
        ensures
            empty == (self@.len() == 0),
    {
        self.entries.len() == 0
    }

    /// The entries in the order in which their words first occur.
    pub fn entries(&self) -> (rows: &Vec<Keyword>)
        ensures
            keyword_views(rows@) == self@,
    {
        &self.entries
    }

    /// The share that `count` has in the table: `count` over the number
    /// of entries, not over the number of words.
    pub fn density(&self, count: usize) -> (share: Option<Ratio>)
        ensures
            share == ratio_of(count as nat, self@.len()),
            share is None <==> self@.len() == 0,
    {
        Ratio::of(count, self.entries.len())
    }

    /// The entries as the table shows them: the highest count first; of
    /// two words with the same count, the one that occurs first in the
    /// text comes last.
    pub fn ranked(&self) -> (rows: Vec<Keyword>)
        ensures
            keyword_views(rows@) == ranked(self@),
    {
        let mut rows: Vec<Keyword> = Vec::new();
        let mut i: usize = 0;
        assert(self@.take(0) =~= Seq::<(Seq<char>, nat)>::empty());
        assert(keyword_views(rows@) =~= ranked(self@.take(0)));
        while i < self.entries.len()
            invariant
                i <= self.entries@.len(),
                keyword_views(rows@) == ranked(self@.take(i as int)),
            decreases self.entries@.len() - i,
        {
            let count = self.entries[i].count;
            let ghost before = keyword_views(rows@);
            let mut at: usize = 0;
            while at < rows.len() && rows[at].count > count
                invariant
                    at <= rows@.len(),
                    before == keyword_views(rows@),
                    rank_position(before, count as nat, 0) == rank_position(
                        before,
                        count as nat,
                        at as int,
                    ),
                decreases rows@.len() - at,
            {
                at += 1;
            }
            let row = Keyword { word: self.entries[i].word.clone(), count };
            proof {
                assert(self@.take(i + 1).drop_last() == self@.take(i as int));
                assert(self@.take(i + 1).last() == row@);
                assert(keyword_views(rows@.insert(at as int, row)) =~= before.insert(
                    at as int,
                    row@,
                ));
            }
            rows.insert(at, row);
            i += 1;
        }
        assert(self@.take(i as int) == self@);
        rows
    }

    /// The rows to export: the header row, then the entries in their
    /// order.
    pub fn export_rows(&self) -> (rows: Vec<(String, String)>)
        ensures
            row_texts(rows@) == export_table(self@),
    {
        let mut rows: Vec<(String, String)> = Vec::new();
        rows.push(("Word".to_owned(), "Count".to_owned()));
        let mut i: usize = 0;
        while i < self.entries.len()
            invariant
                i <= self.entries@.len(),
                rows@.len() == i + 1,
                rows@[0].0@ == "Word"@,
                rows@[0].1@ == "Count"@,
                forall|j: int|
                    1 <= j <= i ==> (#[trigger] rows@[j]).0@ == self.entries@[j - 1].word@
                        && rows@[j].1@ == decimal(self.entries@[j - 1].count as nat),
            decreases self.entries@.len() - i,
        {
            let mut digits = String::new();
            push_decimal(&mut digits, self.entries[i].count as u64);
            assert(Seq::<char>::empty() + decimal(self.entries@[i as int].count as nat)
                == decimal(self.entries@[i as int].count as nat));
            rows.push((self.entries[i].word.clone(), digits));
            i += 1;
        }
        assert(row_texts(rows@) =~= export_table(self@));
        rows
    }

    /// The dictionary of `keys`: every key once, where it is first seen,
    /// with the number of its occurrences.
    pub fn tally_keys(keys: &Vec<String>) -> (dictionary: KeywordDictionary)
        ensures
            dictionary@ == tally(texts(keys@)),
    {
        let mut entries: Vec<Keyword> = Vec::new();
        let mut index: StringHashMap<usize> = StringHashMap::new();
        let ghost all = texts(keys@);
        let mut i: usize = 0;
        while i < keys.len()
            invariant
                i <= keys@.len(),
                all == texts(keys@),
                entries@.len() == first_seen(all.take(i as int)).len(),
                forall|j: int|
                    0 <= j < entries@.len() ==> (#[trigger] entries@[j]).word@ == first_seen(
                        all.take(i as int),
                    )[j],
                forall|j: int|
                    0 <= j < entries@.len() ==> (#[trigger] entries@[j]).count == occurrences(
                        all.take(i as int),
                        entries@[j].word@,
                    ),
                forall|j: int|
                    0 <= j < entries@.len() ==> index@.contains_key(
                        (#[trigger] entries@[j]).word@,
                    ) && index@[entries@[j].word@] == j,
                forall|key: Seq<char>| #[trigger]
                    index@.contains_key(key) ==> 0 <= index@[key] < entries@.len()
                        && entries@[index@[key] as int].word@ == key,
            decreases keys@.len() - i,
        {
            let key = keys[i].clone();
            let ghost seen = all.take(i as int);
            let ghost next = all.take(i + 1);
            let ghost before = first_seen(seen);
            proof {
                assert(key@ == all[i as int]);
                assert(next.drop_last() == seen);
                assert(next.last() == key@);
                lemma_first_seen_contains(seen, key@);
            }
            match index.get(key.as_str()) {
                Some(found) => {
                    let at = *found;
                    proof {
                        assert(entries@[at as int].word@ == key@);
                        assert(before[at as int] == key@);
                        assert(before.contains(key@));
                        assert(first_seen(next) == before);
                    }
                    let count = entries[at].count;
                    let ghost old_entries = entries@;
                    entries[at].count = count + 1;
                    proof {
                        assert forall|j: int| 0 <= j < entries@.len() implies (
                        #[trigger] entries@[j]).count == occurrences(next, entries@[j].word@) by {
                            if j != at {
                                assert(index@[old_entries[j].word@] == j);
                                assert(entries@[j].word@ != key@);
                            }
                        }
                    }
                },
                None => {
                    proof {
                        if before.contains(key@) {
                            let j = choose|j: int| 0 <= j < before.len() && before[j] == key@;
                            assert(entries@[j].word@ == key@);
                        }
                        assert(first_seen(next) == before.push(key@));
                    }
                    let at = entries.len();
                    index.insert(key.clone(), at);
                    entries.push(Keyword { word: key, count: 1 });
                    proof {
                        assert forall|j: int| 0 <= j < entries@.len() implies (
                        #[trigger] entries@[j]).count == occurrences(next, entries@[j].word@) by {
                            if j != at {
                                assert(entries@[j].word@ == before[j]);
                                assert(entries@[j].word@ != key@);
                            }
                        }
                    }
                },
            }
            i += 1;
        }
        let dictionary = KeywordDictionary { entries };
        proof {
            assert(all.take(i as int) == all);
            assert(dictionary@ =~= tally(all));
        }
        dictionary
    }
}

/// The occurrences among `keys` of each key of `distinct`, added up.
spec fn counted(keys: Seq<Seq<char>>, distinct: Seq<Seq<char>>) -> nat
    decreases distinct.len(),
{
    if distinct.len() == 0 {
        0
    } else {
        counted(keys, distinct.drop_last()) + occurrences(keys, distinct.last())
    }
}

proof fn lemma_counted_one_more(keys: Seq<Seq<char>>, distinct: Seq<Seq<char>>)
    requires
        keys.len() > 0,
    ensures
        counted(keys, distinct) == counted(keys.drop_last(), distinct) + occurrences(
            distinct,
            keys.last(),
        ),
    decreases distinct.len(),
{
    if distinct.len() > 0 {
        lemma_counted_one_more(keys, distinct.drop_last());
    }
}

proof fn lemma_occurs_once(distinct: Seq<Seq<char>>, key: Seq<char>)
    requires
        distinct.no_duplicates(),
    ensures
        occurrences(distinct, key) == if distinct.contains(key) {
            1nat
        } else {
            0nat
        },
    decreases distinct.len(),
{
    if distinct.len() > 0 {
        let front = distinct.drop_last();
        lemma_occurs_once(front, key);
        if front.contains(key) {
            let i = choose|i: int| 0 <= i < front.len() && front[i] == key;
            assert(distinct[i] == key);
        }
        if distinct.contains(key) && distinct.last() != key {
            let i = choose|i: int| 0 <= i < distinct.len() && distinct[i] == key;
            assert(front[i] == key);
        }
    }
}

proof fn lemma_counted_all(keys: Seq<Seq<char>>, distinct: Seq<Seq<char>>)
    requires
        distinct.no_duplicates(),
        forall|i: int| 0 <= i < keys.len() ==> distinct.contains(#[trigger] keys[i]),
    ensures
        counted(keys, distinct) == keys.len(),
    decreases keys.len(),
{
    if keys.len() == 0 {
        assert(keys =~= Seq::<Seq<char>>::empty());
        lemma_counted_none(distinct);
    } else {
        let front = keys.drop_last();
        assert forall|i: int| 0 <= i < front.len() implies distinct.contains(
            #[trigger] front[i],
        ) by {
            assert(front[i] == keys[i]);
        }
        lemma_counted_all(front, distinct);
        lemma_counted_one_more(keys, distinct);
        assert(distinct.contains(keys[keys.len() - 1]));
        lemma_occurs_once(distinct, keys.last());
    }
}

proof fn lemma_counted_none(distinct: Seq<Seq<char>>)
    ensures
        counted(Seq::<Seq<char>>::empty(), distinct) == 0,
    decreases distinct.len(),
{
    if distinct.len() > 0 {
        lemma_counted_none(distinct.drop_last());
    }
}

proof fn lemma_total_is_counted(keys: Seq<Seq<char>>, distinct: Seq<Seq<char>>)
    ensures
        total(Seq::new(distinct.len(), |i: int| (distinct[i], occurrences(keys, distinct[i]))))
            == counted(keys, distinct),
    decreases distinct.len(),
{
    if distinct.len() > 0 {
        let front = distinct.drop_last();
        let rows = Seq::new(distinct.len(), |i: int| (distinct[i], occurrences(keys, distinct[i])));
        let front_rows = Seq::new(front.len(), |i: int| (front[i], occurrences(keys, front[i])));
        lemma_total_is_counted(keys, front);
        assert(rows.drop_last() =~= front_rows);
    }
}

/// No key stands twice among `first_seen`, and every key that occurs
/// stands there.
pub proof fn lemma_first_seen_distinct(keys: Seq<Seq<char>>)
    ensures
        first_seen(keys).no_duplicates(),
        forall|i: int| 0 <= i < keys.len() ==> first_seen(keys).contains(#[trigger] keys[i]),
    decreases keys.len(),
{
    if keys.len() > 0 {
        let front = keys.drop_last();
        let before = first_seen(front);
        lemma_first_seen_distinct(front);
        assert forall|i: int| 0 <= i < keys.len() implies first_seen(keys).contains(
            #[trigger] keys[i],
        ) by {
            lemma_first_seen_contains(keys, keys[i]);
            lemma_occurs_at(keys, i);
        }
    }
}

proof fn lemma_occurs_at(keys: Seq<Seq<char>>, i: int)
    requires
        0 <= i < keys.len(),
    ensures
        occurrences(keys, keys[i]) > 0,
    decreases keys.len(),
{
    if i < keys.len() - 1 {
        lemma_occurs_at(keys.drop_last(), i);
    }
}

/// The dictionary of some keys holds every key that occurs, each once
/// and with a count of at least one, and the key of every entry occurs.
pub proof fn lemma_tally_entries(keys: Seq<Seq<char>>)
    ensures
        forall|i: int, j: int|
            0 <= i < j < tally(keys).len() ==> (#[trigger] tally(keys)[i]).0 != (#[trigger] tally(
                keys,
            )[j]).0,
        forall|i: int|
            0 <= i < tally(keys).len() ==> (#[trigger] tally(keys)[i]).1 == occurrences(
                keys,
                tally(keys)[i].0,
            ) && tally(keys)[i].1 >= 1,
        forall|k: int|
            #![trigger keys[k]]
            0 <= k < keys.len() ==> exists|i: int|
                0 <= i < tally(keys).len() && (#[trigger] tally(keys)[i]).0 == keys[k],
{
    lemma_first_seen_distinct(keys);
    let distinct = first_seen(keys);
    assert forall|i: int| 0 <= i < tally(keys).len() implies (#[trigger] tally(keys)[i]).1
        == occurrences(keys, tally(keys)[i].0) && tally(keys)[i].1 >= 1 by {
        assert(distinct.contains(distinct[i]));
        lemma_first_seen_contains(keys, distinct[i]);
    }
    assert forall|k: int| #![trigger keys[k]] 0 <= k < keys.len() implies exists|i: int|
        0 <= i < tally(keys).len() && (#[trigger] tally(keys)[i]).0 == keys[k] by {
        assert(distinct.contains(keys[k]));
        let i = choose|i: int| 0 <= i < distinct.len() && distinct[i] == keys[k];
        assert(tally(keys)[i].0 == keys[k]);
    }
}

/// The counts of a dictionary add up to the number of keys it was made
/// of: keys that fall together make fewer entries, never a smaller sum.
pub proof fn lemma_tally_total(keys: Seq<Seq<char>>)
    ensures
        total(tally(keys)) == keys.len(),
{
    lemma_first_seen_distinct(keys);
    lemma_total_is_counted(keys, first_seen(keys));
    lemma_counted_all(keys, first_seen(keys));
}

/// The counts of the dictionary of a text add up to the number of its
/// words, whether case matters or not.
pub proof fn lemma_dictionary_counts_every_word(text: Seq<char>, match_case: bool)
    ensures
        total(tally(keys_of(text, match_case))) == word_spans(text).len(),
{
    lemma_tally_total(keys_of(text, match_case));
}

proof fn lemma_rank_position(rows: Seq<(Seq<char>, nat)>, count: nat, from: int)
    requires
        0 <= from <= rows.len(),
    ensures
        from <= rank_position(rows, count, from) <= rows.len(),
        forall|i: int| from <= i < rank_position(rows, count, from) ==> rows[i].1 > count,
        rank_position(rows, count, from) < rows.len() ==> rows[rank_position(rows, count, from)].1
            <= count,
    decreases rows.len() - from,
{
    if from < rows.len() && rows[from].1 > count {
        lemma_rank_position(rows, count, from + 1);
    }
}

/// The ranked rows are the entries, each as often as before, and no row
/// has more than a row in front of it.
pub proof fn lemma_ranked(entries: Seq<(Seq<char>, nat)>)
    ensures
        ranked(entries).len() == entries.len(),
        ranked(entries).to_multiset() == entries.to_multiset(),
        forall|a: int, b: int|
            0 <= a <= b < ranked(entries).len() ==> (#[trigger] ranked(entries)[a]).1 >= (
            #[trigger] ranked(entries)[b]).1,
    decreases entries.len(),
{
    broadcast use vstd::seq_lib::to_multiset_insert, vstd::seq_lib::to_multiset_build;

    if entries.len() == 0 {
        assert(entries =~= ranked(entries));
    } else {
        let front = entries.drop_last();
        let last = entries.last();
        let before = ranked(front);
        lemma_ranked(front);
        let at = rank_position(before, last.1, 0);
        lemma_rank_position(before, last.1, 0);
        let after = before.insert(at, last);
        assert(entries == front.push(last));
        assert(after.to_multiset() == before.to_multiset().insert(last));
        assert(entries.to_multiset() == front.to_multiset().insert(last));
        assert forall|a: int, b: int| 0 <= a <= b < after.len() implies (#[trigger] after[a]).1 >= (
        #[trigger] after[b]).1 by {
            if a < at {
                assert(after[a] == before[a]);
            } else if a > at {
                assert(after[a] == before[a - 1]);
            }
            if b < at {
                assert(after[b] == before[b]);
            } else if b > at {
                assert(after[b] == before[b - 1]);
                assert(before[at].1 >= before[b - 1].1);
            }
        }
    }
}

} // verus!
