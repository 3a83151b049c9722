use minigrep::run::{run, Source};
use minigrep::{Conf, Error};

const POEM: &str = "\
Rust:
safe, fast, productive.
Pick three.";

const SEP: &str = "================================";

fn conf(ignore_case: bool, pattern: &str, inputs: &[&str]) -> Conf {
    Conf {
        ignore_case,
        pattern: pattern.to_owned(),
        input_filepaths: inputs.iter().map(|s| (*s).to_owned()).collect(),
    }
}

#[test]
fn without_input_files_standard_input_is_read_once() {
    let mut r = run(conf(false, "safe", &[]));
    assert_eq!(r.pending(), Some(Source::Stdin));
    assert_eq!(r.feed(Some(POEM)), Ok(vec![SEP, "safe, fast, productive."]));
    assert_eq!(r.pending(), None);
}

#[test]
fn input_files_are_read_in_order() {
    let mut r = run(conf(true, "RUST", &["a.txt", "b.txt", "c.txt"]));
    assert_eq!(r.pending(), Some(Source::File("a.txt")));
    assert_eq!(r.feed(Some(POEM)), Ok(vec![SEP, "Rust:"]));
    assert_eq!(r.pending(), Some(Source::File("b.txt")));
    assert_eq!(r.feed(Some("nothing here\n")), Ok(vec![SEP]));
    assert_eq!(r.pending(), Some(Source::File("c.txt")));
    assert_eq!(r.feed(Some("trust\nrust\n")), Ok(vec![SEP, "trust", "rust"]));
    assert_eq!(r.pending(), None);
    assert_eq!(r.done, 3);
    assert!(!r.failed);
}

#[test]
fn unreadable_input_ends_the_run() {
    let mut r = run(conf(false, "a", &["a.txt", "b.txt", "c.txt"]));
    assert_eq!(r.feed(Some("a\n")), Ok(vec![SEP, "a"]));
    assert_eq!(r.pending(), Some(Source::File("b.txt")));
    assert_eq!(r.feed(None), Err(Error::InputRead));
    assert_eq!(r.pending(), None);
    assert!(r.failed);
    assert_eq!(r.done, 1);
}

#[test]
fn unreadable_standard_input_ends_the_run() {
    let mut r = run(conf(false, "a", &[]));
    assert_eq!(r.feed(None), Err(Error::InputRead));
    assert_eq!(r.pending(), None);
}

#[test]
fn nothing_is_printed_once_the_run_is_over() {
    let mut r = run(conf(false, "a", &[]));
    assert_eq!(r.feed(Some("a")), Ok(vec![SEP, "a"]));
    assert_eq!(r.feed(Some("a")), Ok(vec![]));
    assert_eq!(r.feed(None), Ok(vec![]));
    assert_eq!(r.done, 1);
    assert!(!r.failed);
    let mut r = run(conf(false, "a", &["f"]));
    assert_eq!(r.feed(None), Err(Error::InputRead));
    assert_eq!(r.feed(Some("a")), Ok(vec![]));
    assert_eq!(r.done, 0);
    assert!(r.failed);
}

#[test]
fn started_run_keeps_its_configuration() {
    let r = run(conf(true, "p", &["x"]));
    assert_eq!(r.conf, conf(true, "p", &["x"]));
    assert_eq!(r.done, 0);
    assert!(!r.failed);
}
