use audiora::chunk::{chunk_sentence, plan_chunks};
use audiora::errors::AudioraError;

#[test]
fn chunks_of_example_document() {
    let chunks = plan_chunks("Hello world. This is Audiora!", 100).unwrap();
    assert_eq!(chunks.len(), 2);
    assert_eq!(chunks[0].index, 0);
    assert_eq!(chunks[0].text, "Hello world.");
    assert_eq!(chunks[1].index, 1);
    assert_eq!(chunks[1].text, "This is Audiora!");
}

#[test]
fn chunk_round_trip() {
    let sentence = "abcdefghij\u{00e9}\u{00e8}x";
    for size in 1..6usize {
        let (chunks, next) = chunk_sentence(sentence, size, 5);
        let mut rebuilt = String::new();
        for (k, c) in chunks.iter().enumerate() {
            assert_eq!(c.index, 5 + k);
            let n = c.text.chars().count();
            assert!(n <= size);
            if k + 1 < chunks.len() {
                assert_eq!(n, size);
            }
            rebuilt.push_str(&c.text);
        }
        assert_eq!(rebuilt, sentence);
        assert_eq!(next, 5 + chunks.len());
    }
}

#[test]
fn chunk_sizes_and_boundaries() {
    let (chunks, next) = chunk_sentence("abcdef.", 4, 0);
    assert_eq!(next, 2);
    assert_eq!(chunks[0].text, "abcd");
    assert_eq!(chunks[1].text, "ef.");
}

#[test]
fn global_indices_are_contiguous_from_zero() {
    let chunks = plan_chunks("One two three. Four five! Six?", 4).unwrap();
    for (k, c) in chunks.iter().enumerate() {
        assert_eq!(c.index, k);
    }
    assert!(chunks.len() > 3);
}

#[test]
fn chunks_never_span_sentences() {
    let chunks = plan_chunks("abcdef. ghi!", 4).unwrap();
    let texts: Vec<&str> = chunks.iter().map(|c| c.text.as_str()).collect();
    assert_eq!(texts, vec!["abcd", "ef.", "ghi!"]);
    let indices: Vec<usize> = chunks.iter().map(|c| c.index).collect();
    assert_eq!(indices, vec![0, 1, 2]);
}

#[test]
fn empty_document_has_no_chunks() {
    let chunks = plan_chunks("", 100).unwrap();
    assert_eq!(chunks.len(), 0);
}

#[test]
fn whitespace_only_document_has_no_chunks() {
    let chunks = plan_chunks("   \t ", 10).unwrap();
    assert_eq!(chunks.len(), 0);
}

#[test]
fn zero_chunk_size_is_rejected() {
    let r = plan_chunks("Hello.", 0);
    assert!(matches!(r, Err(AudioraError::InvalidChunkSize)));
    let e = plan_chunks("Hello.", 0).unwrap_err();
    assert_eq!(e.message(), "Configuration error: chunk size must be at least 1");
}

#[test]
fn error_messages() {
    assert_eq!(AudioraError::IoError("boom".to_string()).message(), "IO Error: boom");
    assert_eq!(AudioraError::PdfError("bad xref".to_string()).message(), "PDF Error: bad xref");
}
