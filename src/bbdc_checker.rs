//! The lists of recognised and unrecognised words that the vocabulary service
//! sends back.
use vstd::prelude::*;

use crate::text::{trim_text, trimmed};
use crate::word_extractor::Word;

verus! {

/// Which words the vocabulary service recognised.
#[derive(Debug, Clone)]
pub struct CheckResult {
    pub recognized_words: Vec<String>,
    pub unrecognized_words: Vec<String>,
    pub recognized_count: usize,
    pub unrecognized_count: usize,
    pub total_count: usize,
}

/// The pieces of `s` between its commas.
pub open spec fn comma_split(s: Seq<char>) -> Seq<Seq<char>>
    decreases s.len(),
{
    if s.len() == 0 {
        seq![seq![]]
    } else {
        let prev = comma_split(s.drop_last());
        if s.last() == ',' {
            prev.push(seq![])
        } else {
            prev.update(prev.len() - 1, prev.last().push(s.last()))
        }
    }
}

/// The trimmed pieces that are not empty, in order.
pub open spec fn kept_items(parts: Seq<Seq<char>>) -> Seq<Seq<char>>
    decreases parts.len(),
{
    if parts.len() == 0 {
        seq![]
    } else if trimmed(parts.last()).len() > 0 {
        kept_items(parts.drop_last()).push(trimmed(parts.last()))
    } else {
        kept_items(parts.drop_last())
    }
}

/// The words of a comma-separated list: its pieces, trimmed, without the empty ones.
pub open spec fn list_items(s: Seq<char>) -> Seq<Seq<char>> {
    kept_items(comma_split(s))
}

/// Relies on `str::split`: the pieces of `s` between its commas.
#[verifier::external_body]
fn split_commas(s: &str) -> (r: Vec<String>)
    ensures
        r.deep_view() == comma_split(s@),
{
    s.split(',').map(|p| p.to_string()).collect()
}

proof fn lemma_split_len(s: Seq<char>)
    ensures
        1 <= comma_split(s).len() <= s.len() + 1,
    decreases s.len(),
{
    if s.len() > 0 {
        lemma_split_len(s.drop_last());
    }
}

proof fn lemma_kept_len(parts: Seq<Seq<char>>)
    ensures
        kept_items(parts).len() <= parts.len(),
    decreases parts.len(),
{
    if parts.len() > 0 {
        lemma_kept_len(parts.drop_last());
    }
}

/// The words of a comma-separated list.
pub fn split_list(s: &str) -> (r: Vec<String>)
    ensures
        r.deep_view() == list_items(s@),
        r@.len() <= s@.len() + 1,
{
    let parts = split_commas(s);
    let ghost pv = parts.deep_view();
    let mut items: Vec<String> = Vec::new();
    let mut i: usize = 0;
    while i < parts.len()
        invariant
            pv == parts.deep_view(),
            i <= parts@.len(),
            items.deep_view() == kept_items(pv.subrange(0, i as int)),
        decreases parts@.len() - i,
    {
        assert(pv.subrange(0, i + 1).drop_last() =~= pv.subrange(0, i as int));
        assert(pv.subrange(0, i + 1).last() == parts@[i as int]@);
        let item = trim_text(parts[i].as_str());
        if !item.as_str().is_empty() {
            items.push(item);
            assert(items.deep_view() =~= kept_items(pv.subrange(0, i + 1)));
        } else {
            assert(items.deep_view() =~= kept_items(pv.subrange(0, i + 1)));
        }
        i = i + 1;
    }
    assert(pv.subrange(0, i as int) =~= pv);
    proof {
        lemma_split_len(s@);
        lemma_kept_len(pv);
    }
    items
}

impl CheckResult {
    /// The result made from the service's comma-separated lists of recognised
    /// and unrecognised words.
    pub fn from_lists(know_list: &str, unknow_list: &str) -> (r: Self)
        requires
            know_list@.len() + unknow_list@.len() + 2 <= usize::MAX,
        ensures
            r.recognized_words.deep_view() == list_items(know_list@),
            r.unrecognized_words.deep_view() == list_items(unknow_list@),
            r.recognized_count == r.recognized_words@.len(),
            r.unrecognized_count == r.unrecognized_words@.len(),
            r.total_count == r.recognized_count + r.unrecognized_count,
    {
        let recognized_words = split_list(know_list);
        let unrecognized_words = split_list(unknow_list);
        let recognized_count = recognized_words.len();
        let unrecognized_count = unrecognized_words.len();
        CheckResult {
            recognized_words,
            unrecognized_words,
            recognized_count,
            unrecognized_count,
            total_count: recognized_count + unrecognized_count,
        }
    }
}

/// The terms of a list of words, in order.
pub fn word_texts(words: &Vec<Word>) -> (r: Vec<String>)
    ensures
        r@.len() == words@.len(),
        forall|i: int| 0 <= i < words@.len() ==> (#[trigger] r@[i])@ == words@[i].word@,
{
    let mut r: Vec<String> = Vec::new();
    let mut i: usize = 0;
    while i < words.len()
        invariant
            i <= words@.len(),
            r@.len() == i,
            forall|j: int| 0 <= j < i ==> (#[trigger] r@[j])@ == words@[j].word@,
        decreases words@.len() - i,
    {
        r.push(words[i].word.clone());
        i = i + 1;
    }
    r
}

} // verus!
