use bbdc_word_tool::word_extractor::{classify_row, dedup_words, ExtractResult, RowClass, Word, WordExtractor};

fn table(rows: &[(&str, &str, &str)]) -> String {
    let mut doc = String::from("# Unit 1\n\n<table>\n<tr><td>NO.</td><td>单词</td><td>释义</td></tr>\n");
    for (n, t, m) in rows {
        doc.push_str(&format!("<tr><td>{}</td><td>{}</td><td>{}</td></tr>\n", n, t, m));
    }
    doc.push_str("</table>\n");
    doc
}

fn terms(result: &ExtractResult) -> Vec<String> {
    result.words.iter().map(|w| w.word.clone()).collect()
}

fn cells(v: &[&str]) -> Vec<String> {
    v.iter().map(|s| s.to_string()).collect()
}

#[test]
fn test_extract_from_markdown() {
    let markdown = r#"
<table>
<tr><td>NO.</td><td>单词</td><td>释义</td></tr>
<tr><td>1</td><td>hello</td><td>你好</td></tr>
<tr><td>2</td><td>world</td><td>世界</td></tr>
</table>
"#;

    let extractor = WordExtractor::new(false, false);
    let result = extractor.extract_from_markdown(markdown).unwrap();

    assert_eq!(result.words.len(), 2);
    assert_eq!(result.words[0].word, "hello");
    assert_eq!(result.words[1].word, "world");
}

#[test]
fn document_without_tables_yields_nothing() {
    let extractor = WordExtractor::new(true, true);
    let result = extractor.extract_from_markdown("# Title\n\nhello world, no tables here.\n").unwrap();
    assert_eq!(result.total_words, 0);
    assert_eq!(result.total_phrases, 0);
    assert!(result.words.is_empty());
    assert!(result.phrases.is_empty());
    let empty = extractor.extract_from_markdown("").unwrap();
    assert_eq!(empty.total_words, 0);
    assert_eq!(empty.total_phrases, 0);
}

#[test]
fn dedup_keeps_first_occurrence() {
    let doc = table(&[("1", "hello", "你好"), ("2", "World", "世界"), ("3", "hello", "问候")]);
    let result = WordExtractor::new(true, false).extract_from_markdown(&doc).unwrap();
    assert_eq!(terms(&result), vec!["hello", "World"]);
    assert_eq!(result.words[0].meaning, "你好");
    assert_eq!(result.words[0].number, "1");
    assert_eq!(result.words[0].line_number, None);
    assert_eq!(result.total_words, 2);
    assert!(result.phrases.is_empty());
}

#[test]
fn no_dedup_keeps_duplicates() {
    let doc = table(&[("1", "hello", "你好"), ("2", "World", "世界"), ("3", "hello", "问候")]);
    let result = WordExtractor::new(false, false).extract_from_markdown(&doc).unwrap();
    assert_eq!(terms(&result), vec!["hello", "World", "hello"]);
    assert_eq!(result.total_words, 3);
    assert_eq!(result.words[2].meaning, "问候");
}

#[test]
fn dedup_ignores_case() {
    let doc = table(&[("1", "Apple", "苹果"), ("2", "APPLE", "苹果公司"), ("3", "apple", "x")]);
    let result = WordExtractor::new(true, false).extract_from_markdown(&doc).unwrap();
    assert_eq!(terms(&result), vec!["Apple"]);
    assert_eq!(result.words[0].meaning, "苹果");
}

#[test]
fn phrase_kept_only_when_included() {
    let doc = table(&[("1", "good at", "擅长"), ("2", "well-known", "著名的"), ("3", "apple", "苹果")]);
    let with = WordExtractor::new(true, true).extract_from_markdown(&doc).unwrap();
    assert_eq!(with.phrases.len(), 2);
    assert_eq!(with.phrases[0].phrase, "good at");
    assert_eq!(with.phrases[0].meaning, "擅长");
    assert_eq!(with.phrases[1].phrase, "well-known");
    assert_eq!(with.total_phrases, 2);
    assert_eq!(terms(&with), vec!["apple"]);
    let without = WordExtractor::new(true, false).extract_from_markdown(&doc).unwrap();
    assert!(without.phrases.is_empty());
    assert_eq!(without.total_phrases, 0);
    assert_eq!(terms(&without), vec!["apple"]);
}

#[test]
fn term_with_tab_is_a_phrase() {
    assert_eq!(classify_row(&cells(&["4", "look\tup", "查找"]), true), RowClass::Phrase);
    assert_eq!(classify_row(&cells(&["4", "look\tup", "查找"]), false), RowClass::Skip);
}

#[test]
fn order_follows_document() {
    let doc = table(&[
        ("1", "zebra", "斑马"),
        ("2", "apple", "苹果"),
        ("3", "Zebra", "斑马"),
        ("4", "mango", "芒果"),
    ]);
    let result = WordExtractor::new(true, false).extract_from_markdown(&doc).unwrap();
    assert_eq!(terms(&result), vec!["zebra", "apple", "mango"]);
}

#[test]
fn rows_across_tables_in_order() {
    let doc = "<table><tr><td>1</td><td>one</td><td>一</td></tr></table>\ntext\n<table><tr><td>2</td><td>two</td><td>二</td></tr></table>";
    let result = WordExtractor::new(false, false).extract_from_markdown(doc).unwrap();
    assert_eq!(terms(&result), vec!["one", "two"]);
}

#[test]
fn cells_are_trimmed() {
    let doc = "<table><tr><td> 7 </td><td>  river \n</td><td> 河 </td></tr></table>";
    let result = WordExtractor::new(false, false).extract_from_markdown(doc).unwrap();
    assert_eq!(result.words[0].number, "7");
    assert_eq!(result.words[0].word, "river");
    assert_eq!(result.words[0].meaning, "河");
}

#[test]
fn non_numeric_first_cell_is_skipped() {
    assert_eq!(classify_row(&cells(&["a1", "hello", "你好"]), true), RowClass::Skip);
    assert_eq!(classify_row(&cells(&["", "hello", "你好"]), true), RowClass::Skip);
    assert_eq!(classify_row(&cells(&["  ", "good at", "擅长"]), true), RowClass::Skip);
    assert_eq!(classify_row(&cells(&["1.", "hello", "你好"]), false), RowClass::Skip);
    assert_eq!(classify_row(&cells(&["12", "hello", "你好"]), false), RowClass::Word);
}

#[test]
fn header_and_noise_rows_are_skipped() {
    assert_eq!(classify_row(&cells(&["NO.", "单词", "释义"]), true), RowClass::Skip);
    assert_eq!(classify_row(&cells(&["1", "单词", "释义"]), true), RowClass::Skip);
    assert_eq!(classify_row(&cells(&["1", "短语", "释义"]), true), RowClass::Skip);
    assert_eq!(classify_row(&cells(&["补充区", "hello", "你好"]), true), RowClass::Skip);
    assert_eq!(classify_row(&cells(&["1", "", "你好"]), true), RowClass::Skip);
    assert_eq!(classify_row(&cells(&["1", "hello"]), true), RowClass::Skip);
    assert_eq!(classify_row(&cells(&["1", "hello", ""]), true), RowClass::Word);
}

#[test]
fn rows_with_too_few_cells_are_dropped() {
    let doc = "<table><tr><td>1</td><td>lonely</td></tr><tr><td>2</td><td>pair</td><td>对</td><td>extra</td></tr></table>";
    let result = WordExtractor::new(false, false).extract_from_markdown(doc).unwrap();
    assert_eq!(terms(&result), vec!["pair"]);
}

#[test]
fn extract_rows_directly() {
    let rows = vec![
        cells(&["1", "Cat", "猫"]),
        cells(&["2", "cat", "猫"]),
        cells(&["3", "get up", "起床"]),
    ];
    let result = WordExtractor::new(true, true).extract_rows(&rows);
    assert_eq!(terms(&result), vec!["Cat"]);
    assert_eq!(result.phrases[0].phrase, "get up");
    let all = WordExtractor::new(false, false).extract_rows(&rows);
    assert_eq!(terms(&all), vec!["Cat", "cat"]);
    assert_eq!(all.total_phrases, 0);
}

fn word(n: &str, w: &str, m: &str) -> Word {
    Word { number: n.to_string(), word: w.to_string(), meaning: m.to_string(), line_number: None }
}

#[test]
fn words_only_listing() {
    let e = WordExtractor::new(true, false);
    let words = vec![word("1", "hello", "你好"), word("2", "world", "世界")];
    assert_eq!(e.words_only_text(&words), "hello\nworld");
    assert_eq!(e.words_only_text(&vec![]), "");
}

#[test]
fn listing_with_meanings() {
    let rule = "=".repeat(50);
    let doc = table(&[("1", "hello", "你好"), ("2", "get up", "起床")]);
    let with = WordExtractor::new(true, true);
    let result = with.extract_from_markdown(&doc).unwrap();
    let expected = format!(
        "{r}\n单词列表\n{r}\n\n1. hello\t你好\n\n{r}\n短语列表\n{r}\n\n2. get up\t起床\n",
        r = rule
    );
    assert_eq!(with.with_meaning_text(&result), expected);
    let without = WordExtractor::new(true, false);
    let plain = without.extract_from_markdown(&doc).unwrap();
    assert_eq!(
        without.with_meaning_text(&plain),
        format!("{r}\n单词列表\n{r}\n\n1. hello\t你好\n", r = rule)
    );
}

#[test]
fn dedup_by_given_keys() {
    let words = vec![word("1", "hello", "你好"), word("2", "World", "世界"), word("3", "Hello", "问候"), word("4", "x", "y")];
    let keys: Vec<String> = ["hello", "world", "hello", "world"].iter().map(|s| s.to_string()).collect();
    let kept = dedup_words(&words, &keys);
    let texts: Vec<&str> = kept.iter().map(|w| w.word.as_str()).collect();
    assert_eq!(texts, vec!["hello", "World"]);
    assert_eq!(kept[0].meaning, "你好");
    assert!(dedup_words(&vec![], &vec![]).is_empty());
}
