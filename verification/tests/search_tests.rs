use markly_core::engine::{build_matcher, prepare_search, scan_line, Matcher, SearchPlan};
use markly_core::search::search_file;
use markly_core::SearchMatch;

fn run_search(query: &str, case_sensitive: bool, use_regex: bool, content: &str) -> Vec<SearchMatch> {
    let m = build_matcher(query, case_sensitive, use_regex).expect("matcher should build");
    let mut results: Vec<SearchMatch> = Vec::new();
    search_file(&mut results, &m, "/notes/a.md", "a.md", content);
    results
}

#[test]
fn plain_case_insensitive_hello_world() {
    let results = run_search("world", false, false, "Hello world");
    assert_eq!(results.len(), 1);
    assert_eq!(results[0].match_start, 6);
    assert_eq!(results[0].match_end, 11);
    assert_eq!(results[0].line_number, 1);
    assert_eq!(results[0].line_content, "Hello world");
    assert_eq!(results[0].file_path, "/notes/a.md");
    assert_eq!(results[0].file_name, "a.md");
}

#[test]
fn uppercase_query_folds_case() {
    let results = run_search("WORLD", false, false, "hello world");
    assert_eq!(results.len(), 1);
    assert_eq!(results[0].match_start, 6);
    assert_eq!(results[0].match_end, 11);
}

#[test]
fn case_sensitive_misses_other_case() {
    let results = run_search("World", true, false, "hello world");
    assert_eq!(results.len(), 0);
    let results = run_search("world", true, false, "hello world");
    assert_eq!(results.len(), 1);
}

#[test]
fn multibyte_prefix_shifts_char_offsets() {
    // 'é' is two bytes but one character: byte offsets and character
    // offsets diverge, and the reported offsets must be characters.
    let results = run_search("monde", true, false, "héllo monde");
    assert_eq!(results.len(), 1);
    assert_eq!(results[0].match_start, 6);
    assert_eq!(results[0].match_end, 11);
}

#[test]
fn non_overlapping_matches_advance_past_each_occurrence() {
    let results = run_search("aa", true, false, "aaaa");
    assert_eq!(results.len(), 2);
    assert_eq!((results[0].match_start, results[0].match_end), (0, 2));
    assert_eq!((results[1].match_start, results[1].match_end), (2, 4));
}

#[test]
fn line_numbers_are_one_based_in_order() {
    let results = run_search("foo", true, false, "foo\nbar\nfoo");
    assert_eq!(results.len(), 2);
    assert_eq!(results[0].line_number, 1);
    assert_eq!(results[1].line_number, 3);
}

#[test]
fn crlf_line_endings_are_stripped() {
    let results = run_search("foo", true, false, "foo\r\nbar\r\n");
    assert_eq!(results.len(), 1);
    assert_eq!(results[0].line_content, "foo");
}

#[test]
fn trailing_newline_adds_no_empty_line() {
    let results = run_search("b", true, false, "b\n");
    assert_eq!(results.len(), 1);
    assert_eq!(results[0].line_number, 1);
}

#[test]
fn long_lines_truncate_to_five_hundred_chars() {
    let line: String = std::iter::repeat('x').take(600).collect();
    let results = run_search("x", true, false, &line);
    assert_eq!(results.len(), 600);
    assert_eq!(results[0].line_content.chars().count(), 500);
}

#[test]
fn results_cap_at_one_thousand() {
    let mut content = String::new();
    for _ in 0..1500 {
        content.push_str("a\n");
    }
    let results = run_search("a", true, false, &content);
    assert_eq!(results.len(), 1000);
    assert_eq!(results[999].line_number, 1000);
}

#[test]
fn cap_carries_across_files() {
    let m = build_matcher("a", true, false).unwrap();
    let mut results = Vec::new();
    let mut content = String::new();
    for _ in 0..700 {
        content.push_str("a\n");
    }
    search_file(&mut results, &m, "/notes/a.md", "a.md", &content);
    search_file(&mut results, &m, "/notes/b.md", "b.md", &content);
    assert_eq!(results.len(), 1000);
    assert_eq!(results[699].file_name, "a.md");
    assert_eq!(results[700].file_name, "b.md");
}

#[test]
fn regex_finds_spans() {
    let results = run_search("wo.ld", false, true, "Hello world");
    assert_eq!(results.len(), 1);
    assert_eq!(results[0].match_start, 6);
    assert_eq!(results[0].match_end, 11);
}

#[test]
fn regex_case_insensitive_uses_modifier() {
    let results = run_search("HeL+o", false, true, "hello world");
    assert_eq!(results.len(), 1);
    assert_eq!(results[0].match_start, 0);
    assert_eq!(results[0].match_end, 5);
}

#[test]
fn regex_multibyte_offsets_are_characters() {
    let results = run_search("m.nde", true, true, "héllo mönde");
    assert_eq!(results.len(), 1);
    assert_eq!(results[0].match_start, 6);
    assert_eq!(results[0].match_end, 11);
}

#[test]
fn unparseable_regex_is_an_error_not_empty() {
    let err = build_matcher("[", false, true).err().expect("pattern must be rejected");
    assert!(!err.is_empty());
    match prepare_search("[", false, true, true) {
        Err(msg) => assert!(!msg.is_empty()),
        Ok(_) => panic!("an unmatched bracket must not compile"),
    }
}

#[test]
fn empty_query_short_circuits_before_any_matcher() {
    match prepare_search("", false, false, true) {
        Ok(SearchPlan::Empty) => {}
        _ => panic!("an empty query must short-circuit"),
    }
    match prepare_search("", true, true, true) {
        Ok(SearchPlan::Empty) => {}
        _ => panic!("an empty query must short-circuit even in regex mode"),
    }
}

#[test]
fn absent_root_short_circuits_before_the_pattern() {
    // the root check comes before the matcher is built, so even an
    // unparseable pattern yields an empty result, not an error
    match prepare_search("[", false, true, false) {
        Ok(SearchPlan::Empty) => {}
        _ => panic!("an absent root must yield an empty result"),
    }
}

#[test]
fn nonempty_query_builds_a_matcher() {
    match prepare_search("x", true, false, true) {
        Ok(SearchPlan::Run(Matcher::Plain { .. })) => {}
        _ => panic!("a plain query must build a plain matcher"),
    }
    match prepare_search("x", true, true, true) {
        Ok(SearchPlan::Run(Matcher::Pattern { .. })) => {}
        _ => panic!("a regex query must build a pattern matcher"),
    }
}

#[test]
fn scan_line_reports_each_occurrence() {
    let m = build_matcher("ab", true, false).unwrap();
    let spans = scan_line(&m, "ab ab xab");
    assert_eq!(spans, vec![(0, 2), (3, 5), (7, 9)]);
}

#[test]
fn case_folding_that_changes_length_shifts_offsets() {
    // Known edge case, kept as the engine behaves, not "fixed": the dotted
    // capital I lowercases to two characters (three bytes), so byte
    // positions found in the lowercased line are measured against the
    // original line's bytes and come out shifted. The span lands on "bc"
    // of the displayed line rather than on "abc".
    let results = run_search("abc", false, false, "\u{130}abc");
    assert_eq!(results.len(), 1);
    assert_eq!(results[0].match_start, 2);
    assert_eq!(results[0].match_end, 4);
}

#[test]
fn zero_width_regex_matches_report_no_record() {
    // A pattern that accepts the empty string matches with zero width at
    // every position; such matches carry no span worth highlighting and
    // are not reported, so every record keeps a strict span.
    let results = run_search("a*", true, true, "bb");
    assert_eq!(results.len(), 0);
    // where the same pattern really covers text, the record stays
    let results = run_search("a*", true, true, "baa");
    assert_eq!(results.len(), 1);
    assert_eq!(results[0].match_start, 1);
    assert_eq!(results[0].match_end, 3);
}

#[test]
fn final_line_without_newline_keeps_its_carriage_return() {
    // a carriage return is stripped only as part of a CRLF line ending;
    // on a last line with no newline it is ordinary content
    let results = run_search("foo", true, false, "foo\r");
    assert_eq!(results.len(), 1);
    assert_eq!(results[0].line_content, "foo\r");
}
