use audiora::text::{is_blank, segment, split_into_sentences, trim};

#[test]
fn sentences_of_example_document() {
    let s = split_into_sentences("Hello world. This is Audiora!");
    assert_eq!(s, vec!["Hello world.".to_string(), "This is Audiora!".to_string()]);
}

#[test]
fn segmentation_round_trip() {
    let inputs = [
        "",
        "no punctuation at all",
        "ends exactly on a terminator.",
        "  A first one. Then another?  And a third!   trailing tail",
        "..!?",
        "h\u{00e9}llo. w\u{00f6}rld",
    ];
    for input in inputs {
        let sentences = segment(input);
        let mut rebuilt = String::new();
        for s in &sentences {
            rebuilt.push_str(&s.raw);
        }
        assert_eq!(rebuilt, input);
    }
}

#[test]
fn empty_document_has_no_sentences() {
    assert_eq!(segment("").len(), 0);
    assert_eq!(split_into_sentences("").len(), 0);
}

#[test]
fn trailing_whitespace_becomes_empty_sentence() {
    let s = split_into_sentences("a. ");
    assert_eq!(s, vec!["a.".to_string(), "".to_string()]);
}

#[test]
fn sentences_are_trimmed() {
    let s = split_into_sentences("  Hello world.   Second one!  ");
    assert_eq!(
        s,
        vec!["Hello world.".to_string(), "Second one!".to_string(), "".to_string()]
    );
}

#[test]
fn multibyte_sentences_split_correctly() {
    let s = split_into_sentences("h\u{00e9}llo. w\u{00f6}rld");
    assert_eq!(s, vec!["h\u{00e9}llo.".to_string(), "w\u{00f6}rld".to_string()]);
}

#[test]
fn trim_removes_surrounding_whitespace() {
    assert_eq!(trim("  abc  "), "abc");
    assert_eq!(trim("abc"), "abc");
    assert_eq!(trim(" \t\n"), "");
    assert_eq!(trim(""), "");
    assert_eq!(trim("\u{3000}wide\u{3000}"), "wide");
}

#[test]
fn blank_detection() {
    assert!(is_blank(""));
    assert!(is_blank(" \t\r\n\u{00a0}"));
    assert!(!is_blank(" x "));
}
