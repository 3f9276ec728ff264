//! Vocabulary extraction from the HTML tables of a markdown document.
use vstd::prelude::*;

use crate::text::{
    char_is_space, chars_of, contains_seq, find, is_space, lower_of, lowercase, same_chars, same_text,
    trim_text, trimmed,
};
use crate::Error;

verus! {

/// A word row of a table.
#[derive(Debug, Clone)]
pub struct Word {
    pub number: String,
    pub word: String,
    pub meaning: String,
    pub line_number: Option<usize>,
}

/// A phrase row of a table.
#[derive(Debug, Clone)]
pub struct Phrase {
    pub number: String,
    pub phrase: String,
    pub meaning: String,
}

/// The words and phrases of a document, in document order.
#[derive(Debug, Clone)]
pub struct ExtractResult {
    pub words: Vec<Word>,
    pub phrases: Vec<Phrase>,
    pub total_words: usize,
    pub total_phrases: usize,
}

/// Extraction settings: whether words are deduplicated, whether phrases are kept.
pub struct WordExtractor {
    unique: bool,
    include_phrases: bool,
}

/// What a table row stands for.
#[derive(Debug, Clone, Copy, PartialEq, Eq, Structural)]
pub enum RowClass {
    Skip,
    Word,
    Phrase,
}

/// A word as plain values.
pub struct WordView {
    pub number: Seq<char>,
    pub word: Seq<char>,
    pub meaning: Seq<char>,
    pub line_number: Option<usize>,
}

/// A phrase as plain values.
pub struct PhraseView {
    pub number: Seq<char>,
    pub phrase: Seq<char>,
    pub meaning: Seq<char>,
}

/// An extraction result as plain values.
pub struct ExtractView {
    pub words: Seq<WordView>,
    pub phrases: Seq<PhraseView>,
    pub total_words: usize,
    pub total_phrases: usize,
}

impl View for Word {
    type V = WordView;

    open spec fn view(&self) -> WordView {
        WordView {
            number: self.number@,
            word: self.word@,
            meaning: self.meaning@,
            line_number: self.line_number,
        }
    }
}

impl View for Phrase {
    type V = PhraseView;

    open spec fn view(&self) -> PhraseView {
        PhraseView { number: self.number@, phrase: self.phrase@, meaning: self.meaning@ }
    }
}

impl View for ExtractResult {
    type V = ExtractView;

    open spec fn view(&self) -> ExtractView {
        ExtractView {
            words: self.words@.map_values(|w: Word| w@),
            phrases: self.phrases@.map_values(|p: Phrase| p@),
            total_words: self.total_words,
            total_phrases: self.total_phrases,
        }
    }
}

/// Every character of `s` is a decimal digit.
pub open spec fn all_digits(s: Seq<char>) -> bool {
    forall|i: int| 0 <= i < s.len() ==> '0' <= #[trigger] s[i] && s[i] <= '9'
}

/// A first cell that marks a header or a noise row, or is no sequence number.
pub open spec fn is_noise_number(c: Seq<char>) -> bool {
    c.len() == 0 || c == "NO."@ || contains_seq(c, "补充区"@) || !all_digits(c)
}

/// A second cell that holds no term: empty, or a header label.
pub open spec fn is_noise_term(t: Seq<char>) -> bool {
    t.len() == 0 || t == "单词"@ || t == "短语"@
}

/// A term with white space or a hyphen in it is a phrase.
pub open spec fn is_phrase_term(t: Seq<char>) -> bool {
    exists|i: int| 0 <= i < t.len() && (is_space(#[trigger] t[i]) || t[i] == '-')
}

/// How a row of cell texts is classified.
pub open spec fn row_class(cells: Seq<Seq<char>>, include_phrases: bool) -> RowClass {
    if cells.len() < 3 || is_noise_number(trimmed(cells[0])) || is_noise_term(trimmed(cells[1])) {
        RowClass::Skip
    } else if is_phrase_term(trimmed(cells[1])) {
        if include_phrases {
            RowClass::Phrase
        } else {
            RowClass::Skip
        }
    } else {
        RowClass::Word
    }
}

/// The row is a word row.
pub open spec fn is_word_row(cells: Seq<Seq<char>>) -> bool {
    row_class(cells, false) == RowClass::Word
}

/// The deduplication key of a row: its term, lower-cased.
pub open spec fn row_key(cells: Seq<Seq<char>>) -> Seq<char> {
    lower_of(trimmed(cells[1]))
}

/// The keys of the word rows among the first `n` rows.
pub open spec fn keys_before(rows: Seq<Seq<Seq<char>>>, n: int) -> Seq<Seq<char>>
    decreases n,
{
    if n <= 0 {
        seq![]
    } else if is_word_row(rows[n - 1]) {
        keys_before(rows, n - 1).push(row_key(rows[n - 1]))
    } else {
        keys_before(rows, n - 1)
    }
}

/// Row `i` yields a word: it is a word row and, under deduplication, no earlier
/// word row has its key.
pub open spec fn word_kept(rows: Seq<Seq<Seq<char>>>, unique: bool, i: int) -> bool {
    is_word_row(rows[i]) && !(unique && keys_before(rows, i).contains(row_key(rows[i])))
}

/// The word that a word row yields.
pub open spec fn word_entry(cells: Seq<Seq<char>>) -> WordView {
    WordView {
        number: trimmed(cells[0]),
        word: trimmed(cells[1]),
        meaning: trimmed(cells[2]),
        line_number: None,
    }
}

/// The phrase that a phrase row yields.
pub open spec fn phrase_entry(cells: Seq<Seq<char>>) -> PhraseView {
    PhraseView { number: trimmed(cells[0]), phrase: trimmed(cells[1]), meaning: trimmed(cells[2]) }
}

/// The words that the first `n` rows yield, in row order.
pub open spec fn words_of(rows: Seq<Seq<Seq<char>>>, unique: bool, n: int) -> Seq<WordView>
    decreases n,
{
    if n <= 0 {
        seq![]
    } else if word_kept(rows, unique, n - 1) {
        words_of(rows, unique, n - 1).push(word_entry(rows[n - 1]))
    } else {
        words_of(rows, unique, n - 1)
    }
}

/// The phrases that the first `n` rows yield, in row order.
pub open spec fn phrases_of(rows: Seq<Seq<Seq<char>>>, include_phrases: bool, n: int) -> Seq<
    PhraseView,
>
    decreases n,
{
    if n <= 0 {
        seq![]
    } else if row_class(rows[n - 1], include_phrases) == RowClass::Phrase {
        phrases_of(rows, include_phrases, n - 1).push(phrase_entry(rows[n - 1]))
    } else {
        phrases_of(rows, include_phrases, n - 1)
    }
}

/// The result of extracting from the rows of a document.
pub open spec fn extraction(rows: Seq<Seq<Seq<char>>>, unique: bool, include_phrases: bool) -> ExtractView {
    ExtractView {
        words: words_of(rows, unique, rows.len() as int),
        phrases: phrases_of(rows, include_phrases, rows.len() as int),
        total_words: words_of(rows, unique, rows.len() as int).len() as usize,
        total_phrases: phrases_of(rows, include_phrases, rows.len() as int).len() as usize,
    }
}

/// What scraper finds in a document: for each `tr` element within each `table`
/// element, the texts of the `td` cells in it.
pub uninterp spec fn table_cells_of(doc: Seq<char>) -> Seq<Seq<Seq<char>>>;

/// Relies on scraper's `Html::parse_document`, `Selector::parse`, `select` and
/// `text`: the rows of cell texts of every table of the document, in document order.
#[verifier::external_body]
fn table_cells(content: &str) -> (r: Vec<Vec<String>>)
    ensures
        r.deep_view() == table_cells_of(content@),
{
    let doc = scraper::Html::parse_document(content);
    let table = scraper::Selector::parse("table").unwrap();
    let row = scraper::Selector::parse("tr").unwrap();
    let cell = scraper::Selector::parse("td").unwrap();
    doc.select(&table)
        .flat_map(|t| t.select(&row).collect::<Vec<_>>())
        .map(|r| r.select(&cell).map(|c| c.text().collect::<String>()).collect())
        .collect()
}

/// A document without table rows yields no word and no phrase.
pub proof fn lemma_no_rows_no_terms(rows: Seq<Seq<Seq<char>>>, unique: bool, include_phrases: bool)
    requires
        rows.len() == 0,
    ensures
        extraction(rows, unique, include_phrases).total_words == 0,
        extraction(rows, unique, include_phrases).total_phrases == 0,
        extraction(rows, unique, include_phrases).words.len() == 0,
        extraction(rows, unique, include_phrases).phrases.len() == 0,
{
}

/// A row whose first cell is empty or not all decimal digits is skipped,
/// whatever its other cells hold.
pub proof fn lemma_bad_number_skipped(cells: Seq<Seq<char>>, include_phrases: bool)
    requires
        cells.len() > 0,
        trimmed(cells[0]).len() == 0 || !all_digits(trimmed(cells[0])),
    ensures
        row_class(cells, include_phrases) == RowClass::Skip,
{
}

proof fn lemma_words_prefix(rows: Seq<Seq<Seq<char>>>, unique: bool, n: int, m: int)
    requires
        0 <= n <= m,
    ensures
        words_of(rows, unique, n).len() <= words_of(rows, unique, m).len(),
        forall|k: int|
            0 <= k < words_of(rows, unique, n).len() ==> words_of(rows, unique, m)[k]
                == #[trigger] words_of(rows, unique, n)[k],
    decreases m - n,
{
    if n < m {
        lemma_words_prefix(rows, unique, n, m - 1);
    }
}

/// Words keep document order: when two rows both yield a word, the word of the
/// earlier row comes first in the output, each at the place given by the number
/// of words that the rows before it yield.
pub proof fn lemma_word_order(rows: Seq<Seq<Seq<char>>>, unique: bool, i: int, j: int)
    requires
        0 <= i < j < rows.len(),
        word_kept(rows, unique, i),
        word_kept(rows, unique, j),
    ensures
        ({
            let out = words_of(rows, unique, rows.len() as int);
            let a = words_of(rows, unique, i).len() as int;
            let b = words_of(rows, unique, j).len() as int;
            &&& a < b < out.len()
            &&& out[a] == word_entry(rows[i])
            &&& out[b] == word_entry(rows[j])
        }),
{
    let a = words_of(rows, unique, i).len() as int;
    let b = words_of(rows, unique, j).len() as int;
    assert(words_of(rows, unique, i + 1)[a] == word_entry(rows[i]));
    assert(words_of(rows, unique, j + 1)[b] == word_entry(rows[j]));
    lemma_words_prefix(rows, unique, i + 1, j);
    lemma_words_prefix(rows, unique, i + 1, rows.len() as int);
    lemma_words_prefix(rows, unique, j + 1, rows.len() as int);
}

/// The terms of a word list, one per line.
pub open spec fn words_only(ws: Seq<WordView>) -> Seq<char>
    decreases ws.len(),
{
    if ws.len() == 0 {
        seq![]
    } else if ws.len() == 1 {
        ws[0].word
    } else {
        words_only(ws.drop_last()) + "\n"@ + ws.last().word
    }
}

/// The line that frames a section heading.
pub open spec fn rule_line() -> Seq<char> {
    "=================================================="@
}

/// One line `number. term<TAB>meaning` per word.
pub open spec fn word_lines(ws: Seq<WordView>) -> Seq<char>
    decreases ws.len(),
{
    if ws.len() == 0 {
        seq![]
    } else {
        word_lines(ws.drop_last()) + ws.last().number + ". "@ + ws.last().word + "\t"@
            + ws.last().meaning + "\n"@
    }
}

/// One line `number. phrase<TAB>meaning` per phrase.
pub open spec fn phrase_lines(ps: Seq<PhraseView>) -> Seq<char>
    decreases ps.len(),
{
    if ps.len() == 0 {
        seq![]
    } else {
        phrase_lines(ps.drop_last()) + ps.last().number + ". "@ + ps.last().phrase + "\t"@
            + ps.last().meaning + "\n"@
    }
}

/// The listing of words with their meanings, followed, when phrases are kept
/// and there are some, by the listing of phrases.
pub open spec fn meaning_listing(r: ExtractView, include_phrases: bool) -> Seq<char> {
    rule_line() + "\n单词列表\n"@ + rule_line() + "\n\n"@ + word_lines(r.words) + if include_phrases
        && r.phrases.len() > 0 {
        "\n"@ + rule_line() + "\n短语列表\n"@ + rule_line() + "\n\n"@ + phrase_lines(r.phrases)
    } else {
        seq![]
    }
}

/// The words of the word rows among the first `n` rows, in row order, before
/// deduplication.
pub open spec fn word_rows(rows: Seq<Seq<Seq<char>>>, n: int) -> Seq<WordView>
    decreases n,
{
    if n <= 0 {
        seq![]
    } else if is_word_row(rows[n - 1]) {
        word_rows(rows, n - 1).push(word_entry(rows[n - 1]))
    } else {
        word_rows(rows, n - 1)
    }
}

/// No key before position `i` equals the key at `i`.
pub open spec fn is_first_key(keys: Seq<Seq<char>>, i: int) -> bool {
    !keys.subrange(0, i).contains(keys[i])
}

/// The words whose key, at the same position, occurs there for the first time.
pub open spec fn first_occurrences(ws: Seq<WordView>, keys: Seq<Seq<char>>) -> Seq<WordView>
    decreases ws.len(),
{
    if ws.len() == 0 {
        seq![]
    } else if is_first_key(keys, ws.len() - 1) {
        first_occurrences(ws.drop_last(), keys).push(ws.last())
    } else {
        first_occurrences(ws.drop_last(), keys)
    }
}

/// The positions among the first `n` keys where a key occurs for the first time.
pub open spec fn first_positions(keys: Seq<Seq<char>>, n: int) -> Seq<int>
    decreases n,
{
    if n <= 0 {
        seq![]
    } else if is_first_key(keys, n - 1) {
        first_positions(keys, n - 1).push(n - 1)
    } else {
        first_positions(keys, n - 1)
    }
}

proof fn lemma_first_occurrences_prefix(ws: Seq<WordView>, keys: Seq<Seq<char>>, more: Seq<Seq<char>>)
    requires
        ws.len() <= keys.len() <= more.len(),
        more.subrange(0, keys.len() as int) == keys,
    ensures
        first_occurrences(ws, keys) == first_occurrences(ws, more),
    decreases ws.len(),
{
    if ws.len() > 0 {
        let i = ws.len() - 1;
        assert(keys.subrange(0, i) =~= more.subrange(0, i)) by {
            assert forall|j: int| 0 <= j < i implies keys[j] == more[j] by {
                assert(more.subrange(0, keys.len() as int)[j] == more[j]);
            }
        }
        assert(more.subrange(0, keys.len() as int)[i] == more[i]);
        lemma_first_occurrences_prefix(ws.drop_last(), keys, more);
    }
}

/// The kept words are the words at the first positions of their keys, taken in
/// increasing position order.
pub proof fn lemma_first_occurrences_positions(ws: Seq<WordView>, keys: Seq<Seq<char>>)
    requires
        ws.len() == keys.len(),
    ensures
        ({
            let out = first_occurrences(ws, keys);
            let pos = first_positions(keys, ws.len() as int);
            &&& out.len() == pos.len() <= ws.len()
            &&& forall|k: int| 0 <= k < pos.len() ==> 0 <= #[trigger] pos[k] < ws.len() && out[k] == ws[pos[k]]
            &&& forall|a: int, b: int| 0 <= a < b < pos.len() ==> pos[a] < pos[b]
        }),
    decreases ws.len(),
{
    if ws.len() > 0 {
        let n = ws.len() as int;
        let keys0 = keys.subrange(0, n - 1);
        lemma_first_occurrences_positions(ws.drop_last(), keys0);
        lemma_first_occurrences_prefix(ws.drop_last(), keys0, keys);
        lemma_first_positions_prefix(keys0, keys, n - 1);
    }
}

proof fn lemma_first_positions_prefix(keys: Seq<Seq<char>>, more: Seq<Seq<char>>, n: int)
    requires
        0 <= n <= keys.len() <= more.len(),
        more.subrange(0, keys.len() as int) == keys,
    ensures
        first_positions(keys, n) == first_positions(more, n),
    decreases n,
{
    if n > 0 {
        let i = n - 1;
        assert(keys.subrange(0, i) =~= more.subrange(0, i)) by {
            assert forall|j: int| 0 <= j < i implies keys[j] == more[j] by {
                assert(more.subrange(0, keys.len() as int)[j] == more[j]);
            }
        }
        assert(more.subrange(0, keys.len() as int)[i] == more[i]);
        lemma_first_positions_prefix(keys, more, n - 1);
    }
}

proof fn lemma_words_dedup(rows: Seq<Seq<Seq<char>>>, n: int)
    requires
        0 <= n,
    ensures
        keys_before(rows, n).len() == word_rows(rows, n).len() <= n,
        words_of(rows, false, n) == word_rows(rows, n),
        words_of(rows, true, n) == first_occurrences(word_rows(rows, n), keys_before(rows, n)),
    decreases n,
{
    if n > 0 {
        lemma_words_dedup(rows, n - 1);
        let ws = word_rows(rows, n);
        let ks = keys_before(rows, n);
        let ks0 = keys_before(rows, n - 1);
        if is_word_row(rows[n - 1]) {
            assert(ks.subrange(0, ks0.len() as int) =~= ks0);
            assert(ws.drop_last() =~= word_rows(rows, n - 1));
            lemma_first_occurrences_prefix(word_rows(rows, n - 1), ks0, ks);
        }
    }
}

/// `out` is made of the elements of `q` at the strictly increasing positions `pos`.
pub open spec fn picks_in_order(out: Seq<WordView>, q: Seq<WordView>, pos: Seq<int>) -> bool {
    &&& pos.len() == out.len()
    &&& forall|k: int| 0 <= k < pos.len() ==> 0 <= #[trigger] pos[k] < q.len() && out[k] == q[pos[k]]
    &&& forall|a: int, b: int| 0 <= a < b < pos.len() ==> pos[a] < pos[b]
}

/// Words keep document order: the words of an extraction are the word rows'
/// words at strictly increasing positions, all of them without deduplication.
pub proof fn lemma_words_subsequence(rows: Seq<Seq<Seq<char>>>, unique: bool)
    ensures
        exists|pos: Seq<int>|
            #[trigger] picks_in_order(
                extraction(rows, unique, false).words,
                word_rows(rows, rows.len() as int),
                pos,
            ),
        !unique ==> extraction(rows, unique, false).words == word_rows(rows, rows.len() as int),
{
    let n = rows.len() as int;
    let q = word_rows(rows, n);
    lemma_words_dedup(rows, n);
    if unique {
        lemma_first_occurrences_positions(q, keys_before(rows, n));
        let pos = first_positions(keys_before(rows, n), q.len() as int);
        assert(picks_in_order(extraction(rows, unique, false).words, q, pos));
    } else {
        let pos = Seq::new(q.len(), |i: int| i);
        assert(picks_in_order(extraction(rows, unique, false).words, q, pos));
    }
}

proof fn lemma_phrases_prefix(rows: Seq<Seq<Seq<char>>>, include_phrases: bool, n: int, m: int)
    requires
        0 <= n <= m,
    ensures
        phrases_of(rows, include_phrases, n).len() <= phrases_of(rows, include_phrases, m).len(),
        forall|k: int|
            0 <= k < phrases_of(rows, include_phrases, n).len() ==> phrases_of(rows, include_phrases, m)[k]
                == #[trigger] phrases_of(rows, include_phrases, n)[k],
    decreases m - n,
{
    if n < m {
        lemma_phrases_prefix(rows, include_phrases, n, m - 1);
    }
}

/// Phrases keep document order: of two phrase rows, the phrase of the earlier
/// row comes first in the output.
pub proof fn lemma_phrase_order(rows: Seq<Seq<Seq<char>>>, i: int, j: int)
    requires
        0 <= i < j < rows.len(),
        row_class(rows[i], true) == RowClass::Phrase,
        row_class(rows[j], true) == RowClass::Phrase,
    ensures
        ({
            let out = phrases_of(rows, true, rows.len() as int);
            let a = phrases_of(rows, true, i).len() as int;
            let b = phrases_of(rows, true, j).len() as int;
            &&& a < b < out.len()
            &&& out[a] == phrase_entry(rows[i])
            &&& out[b] == phrase_entry(rows[j])
        }),
{
    let a = phrases_of(rows, true, i).len() as int;
    let b = phrases_of(rows, true, j).len() as int;
    assert(phrases_of(rows, true, i + 1)[a] == phrase_entry(rows[i]));
    assert(phrases_of(rows, true, j + 1)[b] == phrase_entry(rows[j]));
    lemma_phrases_prefix(rows, true, i + 1, j);
    lemma_phrases_prefix(rows, true, i + 1, rows.len() as int);
    lemma_phrases_prefix(rows, true, j + 1, rows.len() as int);
}

fn trimmed_chars(s: &String) -> (r: Vec<char>)
    ensures
        r@ == trimmed(s@),
{
    let t = trim_text(s.as_str());
    chars_of(t.as_str())
}

fn all_digit_chars(s: &Vec<char>) -> (r: bool)
    ensures
        r == all_digits(s@),
{
    let mut i: usize = 0;
    while i < s.len()
        invariant
            i <= s@.len(),
            forall|j: int| 0 <= j < i ==> '0' <= #[trigger] s@[j] && s@[j] <= '9',
        decreases s@.len() - i,
    {
        if s[i] < '0' || s[i] > '9' {
            return false;
        }
        i = i + 1;
    }
    true
}

fn has_space_or_hyphen(t: &Vec<char>) -> (r: bool)
    ensures
        r == is_phrase_term(t@),
{
    let mut i: usize = 0;
    while i < t.len()
        invariant
            i <= t@.len(),
            forall|j: int| 0 <= j < i ==> !(is_space(#[trigger] t@[j]) || t@[j] == '-'),
        decreases t@.len() - i,
    {
        if char_is_space(t[i]) || t[i] == '-' {
            return true;
        }
        i = i + 1;
    }
    false
}

/// Classifies a row of cell texts: too few cells, a header, noise or an empty
/// term give `Skip`; a term with white space or a hyphen is a phrase, kept only
/// when phrases are included; any other term is a word.
pub fn classify_row(cells: &Vec<String>, include_phrases: bool) -> (r: RowClass)
    ensures
        r == row_class(cells.deep_view(), include_phrases),
{
    if cells.len() < 3 {
        return RowClass::Skip;
    }
    let number = trimmed_chars(&cells[0]);
    let term = trimmed_chars(&cells[1]);
    proof {
        assert(cells.deep_view()[0] == cells@[0]@);
        assert(cells.deep_view()[1] == cells@[1]@);
    }
    if number.len() == 0 || same_chars(&number, &chars_of("NO.")) || find(
        &number,
        &chars_of("补充区"),
        0,
    ).is_some() || !all_digit_chars(&number) {
        return RowClass::Skip;
    }
    if term.len() == 0 || same_chars(&term, &chars_of("单词")) || same_chars(
        &term,
        &chars_of("短语"),
    ) {
        return RowClass::Skip;
    }
    if has_space_or_hyphen(&term) {
        if include_phrases {
            RowClass::Phrase
        } else {
            RowClass::Skip
        }
    } else {
        RowClass::Word
    }
}

fn key_seen_before(keys: &Vec<String>, i: usize) -> (r: bool)
    requires
        i < keys@.len(),
    ensures
        r == keys.deep_view().subrange(0, i as int).contains(keys.deep_view()[i as int]),
{
    let ghost kv = keys.deep_view();
    let mut j: usize = 0;
    while j < i
        invariant
            kv == keys.deep_view(),
            i < keys@.len(),
            j <= i,
            forall|k: int| 0 <= k < j ==> #[trigger] kv[k] != kv[i as int],
        decreases i - j,
    {
        if same_text(keys[j].as_str(), keys[i].as_str()) {
            assert(kv.subrange(0, i as int)[j as int] == kv[i as int]);
            return true;
        }
        j = j + 1;
    }
    proof {
        if kv.subrange(0, i as int).contains(kv[i as int]) {
            let k = choose|k: int| 0 <= k < i && kv.subrange(0, i as int)[k] == kv[i as int];
            assert(kv[k] == kv[i as int]);
        }
    }
    false
}

/// Keeps each word whose key, at the same position in `keys`, has not occurred
/// before; the first word of each key survives, with its own casing and meaning.
pub fn dedup_words(words: &Vec<Word>, keys: &Vec<String>) -> (r: Vec<Word>)
    requires
        words@.len() == keys@.len(),
    ensures
        r@.map_values(|w: Word| w@) == first_occurrences(
            words@.map_values(|w: Word| w@),
            keys.deep_view(),
        ),
        r@.len() <= words@.len(),
{
    let ghost wv = words@.map_values(|w: Word| w@);
    let mut out: Vec<Word> = Vec::new();
    let mut i: usize = 0;
    while i < words.len()
        invariant
            wv == words@.map_values(|w: Word| w@),
            words@.len() == keys@.len(),
            i <= words@.len(),
            out@.len() <= i,
            out@.map_values(|w: Word| w@) == first_occurrences(wv.subrange(0, i as int), keys.deep_view()),
        decreases words@.len() - i,
    {
        assert(wv.subrange(0, i + 1).drop_last() =~= wv.subrange(0, i as int));
        if !key_seen_before(keys, i) {
            let w = &words[i];
            out.push(
                Word {
                    number: w.number.clone(),
                    word: w.word.clone(),
                    meaning: w.meaning.clone(),
                    line_number: w.line_number,
                },
            );
            assert(out@.map_values(|w: Word| w@) =~= first_occurrences(
                wv.subrange(0, i + 1),
                keys.deep_view(),
            ));
        }
        i = i + 1;
    }
    assert(wv.subrange(0, i as int) =~= wv);
    out
}

impl WordExtractor {
    /// Whether repeated words are dropped.
    pub closed spec fn dedup(&self) -> bool {
        self.unique
    }

    /// Whether phrases are kept.
    pub closed spec fn phrases_kept(&self) -> bool {
        self.include_phrases
    }

    pub fn new(unique: bool, include_phrases: bool) -> (r: Self)
        ensures
            r.dedup() == unique,
            r.phrases_kept() == include_phrases,
    {
        WordExtractor { unique, include_phrases }
    }

    /// Extracts the words and phrases of the tables of a markdown document.
    pub fn extract_from_markdown(&self, content: &str) -> (r: Result<ExtractResult, Error>)
        ensures
            r matches Ok(res) && res@ == extraction(
                table_cells_of(content@),
                self.dedup(),
                self.phrases_kept(),
            ),
    {
        let rows = table_cells(content);
        Ok(self.extract_rows(&rows))
    }

    /// Extracts the words and phrases of rows of cell texts, in row order.
    pub fn extract_rows(&self, rows: &Vec<Vec<String>>) -> (r: ExtractResult)
        ensures
            r@ == extraction(rows.deep_view(), self.dedup(), self.phrases_kept()),
    {
        let ghost rv = rows.deep_view();
        let mut found: Vec<Word> = Vec::new();
        let mut keys: Vec<String> = Vec::new();
        let mut phrases: Vec<Phrase> = Vec::new();
        let mut i: usize = 0;
        while i < rows.len()
            invariant
                rv == rows.deep_view(),
                i <= rows@.len(),
                found@.map_values(|w: Word| w@) == word_rows(rv, i as int),
                phrases@.map_values(|p: Phrase| p@) == phrases_of(rv, self.include_phrases, i as int),
                phrases@.len() <= i,
                self.unique ==> keys.deep_view() == keys_before(rv, i as int),
            decreases rows@.len() - i,
        {
            let cells = &rows[i];
            assert(rv[i as int] == cells.deep_view());
            let class = classify_row(cells, self.include_phrases);
            proof {
                if cells@.len() >= 3 {
                    assert(cells.deep_view()[0] == cells@[0]@);
                    assert(cells.deep_view()[1] == cells@[1]@);
                    assert(cells.deep_view()[2] == cells@[2]@);
                }
            }
            match class {
                RowClass::Phrase => {
                    phrases.push(
                        Phrase {
                            number: trim_text(cells[0].as_str()),
                            phrase: trim_text(cells[1].as_str()),
                            meaning: trim_text(cells[2].as_str()),
                        },
                    );
                    assert(phrases@.map_values(|p: Phrase| p@) =~= phrases_of(
                        rv,
                        self.include_phrases,
                        i as int + 1,
                    ));
                },
                RowClass::Word => {
                    let term = trim_text(cells[1].as_str());
                    if self.unique {
                        keys.push(lowercase(term.as_str()));
                        assert(keys.deep_view() =~= keys_before(rv, i as int + 1));
                    }
                    found.push(
                        Word {
                            number: trim_text(cells[0].as_str()),
                            word: term,
                            meaning: trim_text(cells[2].as_str()),
                            line_number: None,
                        },
                    );
                    assert(found@.map_values(|w: Word| w@) =~= word_rows(rv, i as int + 1));
                },
                RowClass::Skip => {},
            }
            i = i + 1;
        }
        proof {
            lemma_words_dedup(rv, rv.len() as int);
        }
        let words = if self.unique {
            dedup_words(&found, &keys)
        } else {
            found
        };
        let total_words = words.len();
        let total_phrases = phrases.len();
        ExtractResult { words, phrases, total_words, total_phrases }
    }
}

impl WordExtractor {
    /// The terms of `words`, one per line.
    pub fn words_only_text(&self, words: &Vec<Word>) -> (r: String)
        ensures
            r@ == words_only(words@.map_values(|w: Word| w@)),
    {
        let ghost wv = words@.map_values(|w: Word| w@);
        let mut out = String::new();
        let mut i: usize = 0;
        while i < words.len()
            invariant
                wv == words@.map_values(|w: Word| w@),
                i <= words@.len(),
                out@ == words_only(wv.subrange(0, i as int)),
            decreases words@.len() - i,
        {
            assert(wv.subrange(0, i + 1).drop_last() =~= wv.subrange(0, i as int));
            if i > 0 {
                out.append("\n");
            }
            out.append(words[i].word.as_str());
            i = i + 1;
        }
        assert(wv.subrange(0, i as int) =~= wv);
        out
    }

    /// The words with their meanings under a heading, then, when phrases are
    /// kept and there are some, the phrases with theirs.
    pub fn with_meaning_text(&self, result: &ExtractResult) -> (r: String)
        ensures
            r@ == meaning_listing(result@, self.phrases_kept()),
    {
        let ghost wv = result.words@.map_values(|w: Word| w@);
        let ghost pv = result.phrases@.map_values(|p: Phrase| p@);
        let rule = "==================================================";
        let mut out = String::new();
        out.append(rule);
        out.append("\n单词列表\n");
        out.append(rule);
        out.append("\n\n");
        let ghost head = out@;
        let mut i: usize = 0;
        while i < result.words.len()
            invariant
                wv == result.words@.map_values(|w: Word| w@),
                i <= result.words@.len(),
                out@ == head + word_lines(wv.subrange(0, i as int)),
            decreases result.words@.len() - i,
        {
            assert(wv.subrange(0, i + 1).drop_last() =~= wv.subrange(0, i as int));
            let w = &result.words[i];
            out.append(w.number.as_str());
            out.append(". ");
            out.append(w.word.as_str());
            out.append("\t");
            out.append(w.meaning.as_str());
            out.append("\n");
            i = i + 1;
        }
        assert(wv.subrange(0, i as int) =~= wv);
        if self.include_phrases && result.phrases.len() > 0 {
            out.append("\n");
            out.append(rule);
            out.append("\n短语列表\n");
            out.append(rule);
            out.append("\n\n");
            let ghost mid = out@;
            let mut k: usize = 0;
            while k < result.phrases.len()
                invariant
                    pv == result.phrases@.map_values(|p: Phrase| p@),
                    k <= result.phrases@.len(),
                    out@ == mid + phrase_lines(pv.subrange(0, k as int)),
                decreases result.phrases@.len() - k,
            {
                assert(pv.subrange(0, k + 1).drop_last() =~= pv.subrange(0, k as int));
                let p = &result.phrases[k];
                out.append(p.number.as_str());
                out.append(". ");
                out.append(p.phrase.as_str());
                out.append("\t");
                out.append(p.meaning.as_str());
                out.append("\n");
                k = k + 1;
            }
            assert(pv.subrange(0, k as int) =~= pv);
        }
        out
    }
}

} // verus!
