use ai_honeypot_builder::corpus::{load_corpus, make_chain, strip_cr};
use ai_honeypot_builder::error::BuildError;

fn strings(parts: &[&str]) -> Vec<String> {
    parts.iter().map(|part| part.to_string()).collect()
}

#[test]
fn empty_blob_is_refused() {
    assert_eq!(load_corpus(""), Err(BuildError::EmptyCorpus));
}

#[test]
fn blob_of_blank_lines_is_refused() {
    assert_eq!(load_corpus("\n\n\n"), Err(BuildError::EmptyCorpus));
    assert_eq!(load_corpus("\r\n\r\n"), Err(BuildError::EmptyCorpus));
}

#[test]
fn lines_come_out_in_order() {
    assert_eq!(
        load_corpus("The cat sat.\nThe dog ran.\n"),
        Ok(strings(&["The cat sat.", "The dog ran."]))
    );
}

#[test]
fn last_line_needs_no_line_feed() {
    assert_eq!(load_corpus("one\ntwo"), Ok(strings(&["one", "two"])));
}

#[test]
fn blank_lines_are_left_out() {
    assert_eq!(load_corpus("\none\n\n\ntwo\n\n"), Ok(strings(&["one", "two"])));
}

#[test]
fn carriage_return_before_line_feed_is_dropped() {
    assert_eq!(load_corpus("one\r\ntwo\r\n"), Ok(strings(&["one", "two"])));
}

#[test]
fn only_one_carriage_return_is_dropped() {
    assert_eq!(load_corpus("one\r\r\n"), Ok(strings(&["one\r"])));
}

#[test]
fn carriage_return_without_line_feed_stays() {
    assert_eq!(load_corpus("one\r"), Ok(strings(&["one\r"])));
    assert_eq!(load_corpus("a\rb\n"), Ok(strings(&["a\rb"])));
}

#[test]
fn lines_keep_their_spaces() {
    assert_eq!(load_corpus(" a  b \n"), Ok(strings(&[" a  b "])));
}

#[test]
fn loader_agrees_with_std_lines() {
    for blob in ["a\nb", "a\r\nb\r\n", "\n\na\n", "a\r", "x\n\r\ny", "one line", "\r\n"] {
        let expected: Vec<String> =
            blob.lines().filter(|line| !line.is_empty()).map(|line| line.to_string()).collect();
        match load_corpus(blob) {
            Ok(lines) => assert_eq!(lines, expected, "{:?}", blob),
            Err(e) => {
                assert_eq!(e, BuildError::EmptyCorpus);
                assert!(expected.is_empty(), "{:?}", blob);
            }
        }
    }
}

#[test]
fn strip_cr_takes_one_off_the_end() {
    assert_eq!(strip_cr("line\r"), "line");
    assert_eq!(strip_cr("line"), "line");
    assert_eq!(strip_cr("\r"), "");
    assert_eq!(strip_cr(""), "");
    assert_eq!(strip_cr("a\r\r"), "a\r");
    assert_eq!(strip_cr("\rline"), "\rline");
}

#[test]
fn make_chain_refuses_an_empty_corpus() {
    assert!(matches!(make_chain(""), Err(BuildError::EmptyCorpus)));
    assert!(matches!(make_chain("\n\r\n"), Err(BuildError::EmptyCorpus)));
}

#[test]
fn make_chain_trains_on_the_lines() {
    let model = make_chain("alpha beta gamma\n").unwrap();
    assert_eq!(model.generate_one(), "alpha beta gamma");
}
