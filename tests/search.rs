use minigrep::{contains_text, search, search_case_insensitive, split_lines};

#[test]
fn one_result() {
    let query = "duct";
    let contents = "\
Rust:
safe, fast, productive.
Pick three.
Duct tape.";

    assert_eq!(vec!["safe, fast, productive."], search(query, contents));
}

#[test]
fn case_insensitive() {
    let query = "rUsT";
    let contents = "\
Rust:
safe, fast, productive.
Pick three.
Trust me.";

    assert_eq!(
        vec!["Rust:", "Trust me."],
        search_case_insensitive(query, contents)
    );
}

#[test]
fn results_are_lines_of_the_buffer_in_order() {
    let contents = "one cat\ntwo\nthree cats\nfour\ncat five";
    let found = search("cat", contents);
    assert_eq!(vec!["one cat", "three cats", "cat five"], found);
    let all = split_lines(contents);
    let mut last = 0;
    for line in &found {
        assert!(line.contains("cat"));
        let pos = all.iter().position(|l| l == line).unwrap();
        assert!(pos >= last);
        last = pos;
    }
}

#[test]
fn search_is_case_sensitive() {
    let contents = "Rust:\nrusty\nTRUST";
    assert_eq!(vec!["rusty"], search("rust", contents));
    assert_eq!(Vec::<&str>::new(), search("rUsT", contents));
}

#[test]
fn empty_query_matches_every_line() {
    let contents = "a\n\nb\n";
    assert_eq!(vec!["a", "", "b"], search("", contents));
}

#[test]
fn empty_contents_give_no_lines() {
    assert_eq!(Vec::<&str>::new(), search("", ""));
    assert_eq!(Vec::<&str>::new(), search("x", ""));
    assert_eq!(Vec::<&str>::new(), search_case_insensitive("x", ""));
}

#[test]
fn no_match_is_empty() {
    assert_eq!(Vec::<&str>::new(), search("zebra", "a\nb\nc"));
}

#[test]
fn final_line_without_terminator_is_kept() {
    assert_eq!(vec!["last one"], search("one", "first\nlast one"));
}

#[test]
fn split_lines_cuts_at_line_feeds() {
    assert_eq!(vec!["a", "", "b"], split_lines("a\n\nb\n"));
    assert_eq!(vec!["a", "b"], split_lines("a\r\nb"));
    assert_eq!(vec![""], split_lines("\n"));
    assert_eq!(vec!["x\r"], split_lines("x\r"));
    assert_eq!(Vec::<&str>::new(), split_lines(""));
}

#[test]
fn carriage_return_is_not_part_of_a_line() {
    assert_eq!(vec!["end"], search("end", "start\r\nend\r\n"));
    assert_eq!(Vec::<&str>::new(), search("t\r", "start\r\nend\r\n"));
}

#[test]
fn contains_text_values() {
    assert!(contains_text("productive", "duct"));
    assert!(contains_text("abc", ""));
    assert!(contains_text("", ""));
    assert!(!contains_text("", "a"));
    assert!(!contains_text("ab", "abc"));
    assert!(!contains_text("Duct", "duct"));
    assert!(contains_text("aaab", "aab"));
    assert!(contains_text("héllo", "él"));
}

#[test]
fn case_insensitive_includes_exact_results_for_lowercase_query() {
    let contents = "rust\nRust\nTRUST\nnone";
    let exact = search("rust", contents);
    let folded = search_case_insensitive("rust", contents);
    assert_eq!(vec!["rust"], exact);
    assert_eq!(vec!["rust", "Rust", "TRUST"], folded);
    for line in &exact {
        assert!(folded.contains(line));
    }
}

#[test]
fn case_insensitive_folds_beyond_ascii() {
    let contents = "ÉCOLE\nécole\nEcole";
    assert_eq!(vec!["ÉCOLE", "école"], search_case_insensitive("école", contents));
    assert_eq!(vec!["ÉCOLE", "école"], search_case_insensitive("ÉCOLE", contents));
}

#[test]
fn case_insensitive_returns_original_lines() {
    assert_eq!(vec!["HeLLo World"], search_case_insensitive("WORLD", "HeLLo World\nbye"));
}

#[test]
fn empty_query_matches_every_line_ignoring_case() {
    assert_eq!(vec!["A", "", "b"], search_case_insensitive("", "A\n\nb"));
}
