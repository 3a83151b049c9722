use minigrep::search::{search_hub, select_lines, SEPARATOR};
use minigrep::{search, search_ignore_case, Conf};

const POEM: &str = "\
Rust:
safe, fast, productive.
Pick three.";

fn conf(ignore_case: bool, pattern: &str) -> Conf {
    Conf { ignore_case, pattern: pattern.to_owned(), input_filepaths: vec![] }
}

#[test]
fn test_search() {
    let content = "\
Rust:
safe, fast, productive.
Pick three.";
    // good match
    assert_eq!(search("safe", content), vec!["safe, fast, productive."]);
    // bad match
    assert_eq!(search("Safe", content), vec![] as Vec<&str>);
    println!("test_search")
}

#[test]
fn test_search_ignore_case() {
    let content = "\
Rust:
safe, fast, productive.
Pick three.";
    // good match
    assert_eq!(search_ignore_case("safe", content), vec!["safe, fast, productive."]);
    assert_eq!(search_ignore_case("Safe", content), vec!["safe, fast, productive."]);
    // bad match
    assert_eq!(search_ignore_case("嗨害嗨", content), vec![] as Vec<&str>);
    println!("test_search")
}

#[test]
fn search_keeps_order_and_repeats() {
    let content = "b a\nx\na b\nb a\n";
    assert_eq!(search("a", content), vec!["b a", "a b", "b a"]);
    assert_eq!(search("b a", content), vec!["b a", "b a"]);
}

#[test]
fn search_twice_gives_the_same() {
    assert_eq!(search("t", POEM), search("t", POEM));
    assert_eq!(search("t", POEM), vec!["Rust:", "safe, fast, productive.", "Pick three."]);
    assert_eq!(search_ignore_case("R", POEM), search_ignore_case("R", POEM));
    assert_eq!(search_ignore_case("R", POEM), vec!["Rust:", "safe, fast, productive.", "Pick three."]);
}

#[test]
fn empty_content_has_no_matches() {
    assert_eq!(search("a", ""), vec![] as Vec<&str>);
    assert_eq!(search_ignore_case("a", ""), vec![] as Vec<&str>);
    assert_eq!(search("", ""), vec![] as Vec<&str>);
    assert_eq!(search_ignore_case("", ""), vec![] as Vec<&str>);
}

#[test]
fn empty_pattern_matches_every_line() {
    assert_eq!(search("", POEM), vec!["Rust:", "safe, fast, productive.", "Pick three."]);
    assert_eq!(search_ignore_case("", POEM), vec!["Rust:", "safe, fast, productive.", "Pick three."]);
    assert_eq!(search("", "\n\nx\n"), vec!["", "", "x"]);
}

#[test]
fn lines_end_at_line_feeds() {
    // a line ending at the very end adds no empty line
    assert_eq!(search("", "a\nb\n"), vec!["a", "b"]);
    assert_eq!(search("", "a\nb"), vec!["a", "b"]);
    // an empty line in the middle, or a second line ending at the end, is a line
    assert_eq!(search("", "a\n\nb"), vec!["a", "", "b"]);
    assert_eq!(search("", "a\n\n"), vec!["a", ""]);
    assert_eq!(search("", "\n"), vec![""]);
}

#[test]
fn carriage_return_before_line_feed_ends_the_line() {
    assert_eq!(search("", "a\r\nb\r\n"), vec!["a", "b"]);
    // only one carriage return is taken, and only before a line feed
    assert_eq!(search("", "a\r\r\nb\r"), vec!["a\r", "b\r"]);
    assert_eq!(search("", "a\rb\n"), vec!["a\rb"]);
    assert_eq!(search("\r", "a\r\nb\rc\n"), vec!["b\rc"]);
}

#[test]
fn pattern_must_be_contiguous_and_within_one_line() {
    assert_eq!(search("ab", "a b\nba\nxabx\n"), vec!["xabx"]);
    assert_eq!(search("a\nb", "a\nb"), vec![] as Vec<&str>);
    assert_eq!(search("abc", "ab\nabc\nabcd"), vec!["abc", "abcd"]);
    assert_eq!(search("longer than the line", "short"), vec![] as Vec<&str>);
}

#[test]
fn pattern_of_several_bytes_per_character() {
    assert_eq!(search("害", "嗨害嗨\nabc\n害"), vec!["嗨害嗨", "害"]);
    assert_eq!(search("é", "cafe\ncafé"), vec!["café"]);
}

#[test]
fn ignoring_case_lowers_both_sides() {
    assert_eq!(search_ignore_case("RUST", POEM), vec!["Rust:"]);
    assert_eq!(search_ignore_case("rust", "RUST\nrust\nRuSt\ntrust\nrus t"), vec!["RUST", "rust", "RuSt", "trust"]);
    assert_eq!(search_ignore_case("ÄB", "xäbx\nab"), vec!["xäbx"]);
    // the lines come back as they are, not lowered
    assert_eq!(search_ignore_case("pick", POEM), vec!["Pick three."]);
}

#[test]
fn ignoring_case_finds_what_the_exact_search_finds() {
    for pattern in ["safe", "Rust", "t", "P", ":", ""] {
        let exact = search(pattern, POEM);
        let folded = search_ignore_case(pattern, POEM);
        for line in exact {
            assert!(folded.contains(&line));
        }
    }
}

#[test]
fn final_sigma_is_lowered_by_its_place_in_the_word() {
    // at the end of a word the capital sigma lowers to the final form, so the
    // lowered pattern is no part of the lowered line
    assert_eq!(search("ΑΣ", "ΑΣΑ"), vec!["ΑΣΑ"]);
    assert_eq!(search_ignore_case("ΑΣ", "ΑΣΑ"), vec![] as Vec<&str>);
    assert_eq!(search_ignore_case("ΑΣ", "ΑΣ"), vec!["ΑΣ"]);
    assert_eq!(search_ignore_case("ας", "ΑΣ"), vec!["ΑΣ"]);
}

#[test]
fn report_starts_with_the_separator() {
    assert_eq!(SEPARATOR, "================================");
    assert_eq!(
        search_hub(&conf(false, "safe"), POEM),
        vec!["================================", "safe, fast, productive."]
    );
    assert_eq!(search_hub(&conf(false, "Safe"), POEM), vec!["================================"]);
    assert_eq!(
        search_hub(&conf(true, "Safe"), POEM),
        vec!["================================", "safe, fast, productive."]
    );
    assert_eq!(search_hub(&conf(true, "x"), ""), vec!["================================"]);
}

#[test]
fn lines_are_selected_by_their_keys() {
    let lines = vec!["First", "Second", "Third", "Fourth"];
    let keys = vec!["abc", "bcd", "cde", "abc"];
    assert_eq!(select_lines("bc", &lines, &keys), vec!["First", "Second", "Fourth"]);
    assert_eq!(select_lines("cde", &lines, &keys), vec!["Third"]);
    assert_eq!(select_lines("", &lines, &keys), vec!["First", "Second", "Third", "Fourth"]);
    assert_eq!(select_lines("x", &lines, &keys), vec![] as Vec<&str>);
    // the needle is looked for in the key, not in the line
    assert_eq!(select_lines("First", &lines, &keys), vec![] as Vec<&str>);
}

#[test]
fn line_without_a_key_is_not_selected() {
    let lines = vec!["one", "two", "three"];
    assert_eq!(select_lines("", &lines, &vec!["a", "b"]), vec!["one", "two"]);
    assert_eq!(select_lines("", &lines, &vec![]), vec![] as Vec<&str>);
    assert_eq!(select_lines("", &lines, &vec!["a", "b", "c", "d"]), vec!["one", "two", "three"]);
    assert_eq!(select_lines("", &vec![], &vec!["a"]), vec![] as Vec<&str>);
}
