//! Sentence segmentation: splitting a document into sentence-like units on
//! terminal punctuation, and whitespace trimming.
//!
//! The model is [`spec_segments`]: the document is cut immediately after each
//! terminator character, and any trailing non-terminated text forms a final
//! sentence. Concatenating the untrimmed spans reconstructs the document
//! ([`lemma_segments_flatten`]).

use vstd::prelude::*;

verus! {

/// A character closes a sentence: `.`, `!` or `?`.
pub open spec fn is_terminator(c: char) -> bool {
    c == '.' || c == '!' || c == '?'
}

/// Whitespace as `str::trim` understands it: the Unicode `White_Space` set.
pub open spec fn is_space(c: char) -> bool {
    c == '\u{0009}' || c == '\u{000A}' || c == '\u{000B}' || c == '\u{000C}'
        || c == '\u{000D}' || c == ' ' || c == '\u{0085}' || c == '\u{00A0}'
        || c == '\u{1680}' || c == '\u{2000}' || c == '\u{2001}' || c == '\u{2002}'
        || c == '\u{2003}' || c == '\u{2004}' || c == '\u{2005}' || c == '\u{2006}'
        || c == '\u{2007}' || c == '\u{2008}' || c == '\u{2009}' || c == '\u{200A}'
        || c == '\u{2028}' || c == '\u{2029}' || c == '\u{202F}' || c == '\u{205F}'
        || c == '\u{3000}'
}

/// Runtime test for [`is_terminator`].
pub fn terminator_char(c: char) -> (b: bool)
    ensures
        b == is_terminator(c),
{
    c == '.' || c == '!' || c == '?'
}

/// Runtime test for [`is_space`].
pub fn space_char(c: char) -> (b: bool)
    ensures
        b == is_space(c),
{
    c == '\u{0009}' || c == '\u{000A}' || c == '\u{000B}' || c == '\u{000C}'
        || c == '\u{000D}' || c == ' ' || c == '\u{0085}' || c == '\u{00A0}'
        || c == '\u{1680}' || c == '\u{2000}' || c == '\u{2001}' || c == '\u{2002}'
        || c == '\u{2003}' || c == '\u{2004}' || c == '\u{2005}' || c == '\u{2006}'
        || c == '\u{2007}' || c == '\u{2008}' || c == '\u{2009}' || c == '\u{200A}'
        || c == '\u{2028}' || c == '\u{2029}' || c == '\u{202F}' || c == '\u{205F}'
        || c == '\u{3000}'
}

/// Position of the first terminator in `s`, or `s.len()` if there is none.
pub open spec fn first_term(s: Seq<char>) -> nat
    decreases s.len(),
{
    if s.len() == 0 {
        0
    } else if is_terminator(s[0]) {
        0
    } else {
        (1 + first_term(s.drop_first())) as nat
    }
}

/// The untrimmed sentence spans of a document: each span runs up to and
/// including the next terminator; trailing non-terminated text is a final
/// span; the empty document has no spans.
pub open spec fn spec_segments(s: Seq<char>) -> Seq<Seq<char>>
    decreases s.len(),
{
    if s.len() == 0 {
        seq![]
    } else if first_term(s) >= s.len() {
        seq![s]
    } else {
        let k = first_term(s) as int;
        seq![s.subrange(0, k + 1)] + spec_segments(s.subrange(k + 1, s.len() as int))
    }
}

/// `s` with leading whitespace removed.
pub open spec fn trim_start(s: Seq<char>) -> Seq<char>
    decreases s.len(),
{
    if s.len() > 0 && is_space(s[0]) {
        trim_start(s.drop_first())
    } else {
        s
    }
}

/// `s` with trailing whitespace removed.
pub open spec fn trim_end(s: Seq<char>) -> Seq<char>
    decreases s.len(),
{
    if s.len() > 0 && is_space(s.last()) {
        trim_end(s.drop_last())
    } else {
        s
    }
}

/// `s` with leading and trailing whitespace removed, as `str::trim` does.
pub open spec fn trim_spec(s: Seq<char>) -> Seq<char> {
    trim_end(trim_start(s))
}

/// `first_term` is the unique position that has no terminator before it and
/// a terminator (or the end of the text) at it.
pub proof fn lemma_first_term_is(s: Seq<char>, k: int)
    requires
        0 <= k <= s.len(),
        forall|j: int| 0 <= j < k ==> !is_terminator(s[j]),
        k < s.len() ==> is_terminator(s[k]),
    ensures
        first_term(s) == k,
    decreases k,
{
    if k == 0 {
    } else {
        assert(!is_terminator(s[0]));
        lemma_first_term_is(s.drop_first(), k - 1);
    }
}

/// `first_term` stays within the text, sees no terminator before itself,
/// and lands on one unless there is none.
pub proof fn lemma_first_term_props(s: Seq<char>)
    ensures
        first_term(s) <= s.len(),
        forall|j: int| 0 <= j < first_term(s) ==> !is_terminator(s[j]),
        first_term(s) < s.len() ==> is_terminator(s[first_term(s) as int]),
    decreases s.len(),
{
    if s.len() == 0 {
    } else if is_terminator(s[0]) {
    } else {
        lemma_first_term_props(s.drop_first());
        assert forall|j: int| 0 <= j < first_term(s) implies !is_terminator(s[j]) by {
            if j > 0 {
                assert(s.drop_first()[j - 1] == s[j]);
            }
        }
        if first_term(s) < s.len() {
            assert(s.drop_first()[first_term(s.drop_first()) as int]
                == s[first_term(s) as int]);
        }
    }
}

/// Every sentence span is nonempty; every span but the last ends in a
/// terminator; no span holds a terminator anywhere but its last position.
pub proof fn lemma_segments_shape(t: Seq<char>)
    ensures
        forall|j: int| 0 <= j < spec_segments(t).len() ==> #[trigger] spec_segments(t)[j].len() > 0,
        forall|j: int|
            0 <= j < spec_segments(t).len() - 1 ==> is_terminator(
                #[trigger] spec_segments(t)[j].last(),
            ),
        forall|j: int, p: int|
            0 <= j < spec_segments(t).len() && 0 <= p < spec_segments(t)[j].len() - 1
                ==> !is_terminator(#[trigger] spec_segments(t)[j][p]),
    decreases t.len(),
{
    lemma_first_term_props(t);
    if t.len() == 0 {
    } else if first_term(t) >= t.len() {
    } else {
        let k = first_term(t) as int;
        let head = t.subrange(0, k + 1);
        let tail = t.subrange(k + 1, t.len() as int);
        lemma_segments_shape(tail);
        let whole = spec_segments(t);
        assert(whole[0] == head);
        assert(is_terminator(head.last()));
        assert forall|j: int| 0 <= j < whole.len() implies #[trigger] whole[j].len() > 0 by {
            if j > 0 {
                assert(whole[j] == spec_segments(tail)[j - 1]);
            }
        }
        assert forall|j: int| 0 <= j < whole.len() - 1 implies is_terminator(
            #[trigger] whole[j].last(),
        ) by {
            if j > 0 {
                assert(whole[j] == spec_segments(tail)[j - 1]);
            }
        }
        assert forall|j: int, p: int|
            0 <= j < whole.len() && 0 <= p < whole[j].len() - 1 implies !is_terminator(
            #[trigger] whole[j][p],
        ) by {
            if j == 0 {
                assert(head[p] == t[p]);
            } else {
                assert(whole[j] == spec_segments(tail)[j - 1]);
            }
        }
    }
}

/// Concatenating all sentence spans reconstructs the document.
pub proof fn lemma_segments_flatten(s: Seq<char>)
    ensures
        spec_segments(s).flatten() == s,
    decreases s.len(),
{
    broadcast use Seq::lemma_flatten_singleton;

    if s.len() == 0 {
        assert(spec_segments(s).flatten() =~= s);
    } else if first_term(s) >= s.len() {
        assert(seq![s].flatten() =~= s);
    } else {
        let k = first_term(s) as int;
        let head = s.subrange(0, k + 1);
        let tail = s.subrange(k + 1, s.len() as int);
        lemma_segments_flatten(tail);
        let whole = seq![head] + spec_segments(tail);
        assert(whole.drop_first() =~= spec_segments(tail));
        assert(whole.flatten() == head + spec_segments(tail).flatten());
        assert(head + tail =~= s);
    }
}

/// `trim_start` keeps exactly the suffix from the first non-space character.
pub proof fn lemma_trim_start_at(s: Seq<char>, i: int)
    requires
        0 <= i <= s.len(),
        forall|k: int| 0 <= k < i ==> is_space(s[k]),
        i < s.len() ==> !is_space(s[i]),
    ensures
        trim_start(s) == s.subrange(i, s.len() as int),
    decreases i,
{
    if i == 0 {
        assert(s.subrange(0, s.len() as int) =~= s);
    } else {
        assert(is_space(s[0]));
        lemma_trim_start_at(s.drop_first(), i - 1);
        assert(s.drop_first().subrange(i - 1, s.drop_first().len() as int) =~= s.subrange(
            i,
            s.len() as int,
        ));
    }
}

/// `trim_end` keeps exactly the prefix up to the last non-space character.
pub proof fn lemma_trim_end_at(s: Seq<char>, j: int)
    requires
        0 <= j <= s.len(),
        forall|k: int| j <= k < s.len() ==> is_space(s[k]),
        j > 0 ==> !is_space(s[j - 1]),
    ensures
        trim_end(s) == s.subrange(0, j),
    decreases s.len() - j,
{
    if j == s.len() {
        if s.len() > 0 && is_space(s.last()) {
            lemma_trim_end_at(s.drop_last(), j - 1);
            assert(s.drop_last().subrange(0, j - 1) =~= s.subrange(0, j - 1));
            assert(s.subrange(0, j - 1) =~= s.subrange(0, j).drop_last());
            assert(trim_end(s) == trim_end(s.drop_last()));
            assert(s.subrange(0, j).drop_last() =~= s.subrange(0, j - 1));
            assert(s.subrange(0, j) =~= s);
            assert(s.drop_last() =~= s.subrange(0, j - 1));
        } else {
            assert(s.subrange(0, j) =~= s);
        }
    } else {
        assert(is_space(s.last()));
        lemma_trim_end_at(s.drop_last(), j);
        assert(s.drop_last().subrange(0, j) =~= s.subrange(0, j));
    }
}

/// Trimming never lengthens a text.
pub proof fn lemma_trim_le(s: Seq<char>)
    ensures
        trim_spec(s).len() <= s.len(),
{
    lemma_trim_start_le(s);
    lemma_trim_end_le(trim_start(s));
}

proof fn lemma_trim_start_le(s: Seq<char>)
    ensures
        trim_start(s).len() <= s.len(),
    decreases s.len(),
{
    if s.len() > 0 && is_space(s[0]) {
        lemma_trim_start_le(s.drop_first());
    }
}

proof fn lemma_trim_end_le(s: Seq<char>)
    ensures
        trim_end(s).len() <= s.len(),
    decreases s.len(),
{
    if s.len() > 0 && is_space(s.last()) {
        lemma_trim_end_le(s.drop_last());
    }
}

/// A text trims to nothing exactly when every character is whitespace.
pub proof fn lemma_trim_empty(s: Seq<char>)
    ensures
        trim_spec(s).len() == 0 <==> (forall|k: int| 0 <= k < s.len() ==> is_space(s[k])),
    decreases s.len(),
{
    if s.len() == 0 {
    } else if is_space(s[0]) {
        lemma_trim_empty(s.drop_first());
        let d = s.drop_first();
        assert(trim_spec(s) == trim_spec(d));
        if trim_spec(s).len() == 0 {
            assert forall|k: int| 0 <= k < s.len() implies is_space(s[k]) by {
                if k > 0 {
                    assert(d[k - 1] == s[k]);
                }
            }
        }
        if forall|k: int| 0 <= k < s.len() ==> is_space(s[k]) {
            assert forall|k: int| 0 <= k < d.len() implies is_space(d[k]) by {
                assert(d[k] == s[k + 1]);
            }
        }
    } else {
        assert(trim_start(s) == s);
        lemma_trim_end_le(s);
        if trim_end(s).len() == 0 {
            lemma_trim_end_keeps_first(s);
        }
    }
}

proof fn lemma_trim_end_keeps_first(s: Seq<char>)
    requires
        s.len() > 0,
        !is_space(s[0]),
    ensures
        trim_end(s).len() > 0,
    decreases s.len(),
{
    if s.len() > 0 && is_space(s.last()) {
        lemma_trim_end_keeps_first(s.drop_last());
    }
}

/// One sentence-like unit: the untrimmed span of the document it came from,
/// and the trimmed text handed to synthesis.
pub struct Sentence {
    /// The untrimmed contiguous span of the document.
    pub raw: String,
    /// The span with surrounding whitespace removed.
    pub text: String,
}

/// `str::trim`, verified: removes exactly the leading and trailing
/// whitespace characters.
pub fn trim(s: &str) -> (t: String)
    ensures
        t@ == trim_spec(s@),
{
    let n = s.unicode_len();
    let mut i: usize = 0;
    while i < n && space_char(s.get_char(i))
        invariant
            0 <= i <= n == s@.len(),
            forall|k: int| 0 <= k < i ==> is_space(s@[k]),
        decreases n - i,
    {
        i = i + 1;
    }
    proof {
        lemma_trim_start_at(s@, i as int);
    }
    let mut j: usize = n;
    while j > i && space_char(s.get_char(j - 1))
        invariant
            i <= j <= n == s@.len(),
            forall|k: int| j <= k < n ==> is_space(s@[k]),
        decreases j,
    {
        j = j - 1;
    }
    proof {
        let start = s@.subrange(i as int, n as int);
        lemma_trim_end_at(start, j - i);
        assert(start.subrange(0, j - i) =~= s@.subrange(i as int, j as int));
        assert forall|k: int| j - i <= k < start.len() implies is_space(start[k]) by {
            assert(start[k] == s@[k + i]);
        }
        if j > i {
            assert(start[j - i - 1] == s@[j - 1]);
        }
    }
    let piece = s.substring_char(i, j);
    piece.to_owned()
}

/// Splits a document into its ordered sentences: the text is cut immediately
/// after each `.`, `!` or `?`, and any trailing non-terminated text becomes
/// a final sentence. Each sentence carries its untrimmed span and its
/// trimmed text. Pure and total over all unicode strings.
pub fn segment(text: &str) -> (sentences: Vec<Sentence>)
    ensures
        sentences@.map_values(|s: Sentence| s.raw@) == spec_segments(text@),
        forall|k: int|
            0 <= k < sentences@.len() ==> sentences@[k].text@ == trim_spec(sentences@[k].raw@),
{
    let n = text.unicode_len();
    let mut sentences: Vec<Sentence> = Vec::new();
    let mut start: usize = 0;
    let mut i: usize = 0;
    proof {
        assert(text@.subrange(0, n as int) =~= text@);
        assert(sentences@.map_values(|s: Sentence| s.raw@) =~= Seq::<Seq<char>>::empty());
        assert(Seq::<Seq<char>>::empty() + spec_segments(text@) =~= spec_segments(text@));
    }
    while i < n
        invariant
            0 <= start <= i <= n == text@.len(),
            spec_segments(text@) =~= sentences@.map_values(|s: Sentence| s.raw@)
                + spec_segments(text@.subrange(start as int, n as int)),
            forall|k: int| start <= k < i ==> !is_terminator(text@[k]),
            forall|k: int|
                0 <= k < sentences@.len() ==> sentences@[k].text@ == trim_spec(
                    sentences@[k].raw@,
                ),
        decreases n - i,
    {
        let c = text.get_char(i);
        if terminator_char(c) {
            let raw_slice = text.substring_char(start, i + 1);
            let trimmed = trim(raw_slice);
            let raw = raw_slice.to_owned();
            proof {
                let rest = text@.subrange(start as int, n as int);
                assert forall|j: int| 0 <= j < i - start implies !is_terminator(rest[j]) by {
                    assert(rest[j] == text@[j + start]);
                }
                assert(rest[i - start] == text@[i as int]);
                lemma_first_term_is(rest, i - start);
                assert(rest.subrange(0, i - start + 1) =~= text@.subrange(
                    start as int,
                    i + 1 as int,
                ));
                assert(rest.subrange(i - start + 1, rest.len() as int) =~= text@.subrange(
                    i + 1 as int,
                    n as int,
                ));
                let old_map = sentences@.map_values(|s: Sentence| s.raw@);
                let new_map = sentences@.push(
                    Sentence { raw: raw, text: trimmed },
                ).map_values(|s: Sentence| s.raw@);
                assert(new_map =~= old_map.push(raw@));
                assert(old_map.push(raw@) + spec_segments(text@.subrange(i + 1 as int, n as int))
                    =~= old_map + (seq![raw@] + spec_segments(
                    text@.subrange(i + 1 as int, n as int),
                )));
            }
            sentences.push(Sentence { raw, text: trimmed });
            start = i + 1;
        }
        i = i + 1;
    }
    if start < n {
        let raw_slice = text.substring_char(start, n);
        let trimmed = trim(raw_slice);
        let raw = raw_slice.to_owned();
        proof {
            let rest = text@.subrange(start as int, n as int);
            assert forall|j: int| 0 <= j < rest.len() implies !is_terminator(rest[j]) by {
                assert(rest[j] == text@[j + start]);
            }
            lemma_first_term_is(rest, rest.len() as int);
            let old_map = sentences@.map_values(|s: Sentence| s.raw@);
            let new_map = sentences@.push(
                Sentence { raw: raw, text: trimmed },
            ).map_values(|s: Sentence| s.raw@);
            assert(new_map =~= old_map.push(raw@));
            assert(old_map.push(raw@) =~= old_map + seq![raw@]);
        }
        sentences.push(Sentence { raw, text: trimmed });
    } else {
        proof {
            assert(text@.subrange(start as int, n as int).len() == 0);
            assert(spec_segments(text@) =~= sentences@.map_values(|s: Sentence| s.raw@));
        }
    }
    sentences
}

/// The ordered trimmed sentences of a document, as plain strings.
pub fn split_into_sentences(text: &str) -> (sentences: Vec<String>)
    ensures
        sentences@.map_values(|t: String| t@) == spec_segments(text@).map_values(
            |r: Seq<char>| trim_spec(r),
        ),
{
    let segs = segment(text);
    let mut out: Vec<String> = Vec::new();
    let mut k: usize = 0;
    proof {
        let raws = segs@.map_values(|s: Sentence| s.raw@);
        assert(raws.len() == segs@.len());
    }
    while k < segs.len()
        invariant
            0 <= k <= segs@.len(),
            segs@.map_values(|s: Sentence| s.raw@) == spec_segments(text@),
            forall|j: int| 0 <= j < segs@.len() ==> segs@[j].text@ == trim_spec(segs@[j].raw@),
            out@.len() == k,
            forall|j: int| 0 <= j < k ==> out@[j]@ == trim_spec(segs@[j].raw@),
        decreases segs@.len() - k,
    {
        out.push(segs[k].text.clone());
        k = k + 1;
    }
    proof {
        let lhs = out@.map_values(|t: String| t@);
        let rhs = spec_segments(text@).map_values(|r: Seq<char>| trim_spec(r));
        assert forall|j: int| 0 <= j < lhs.len() implies lhs[j] == rhs[j] by {
            assert(spec_segments(text@)[j] == segs@.map_values(|s: Sentence| s.raw@)[j]);
        }
        assert(lhs =~= rhs);
    }
    out
}

/// A text is blank when it holds nothing but whitespace; a blank document
/// produces no audio and moves the pipeline straight to its final state.
pub fn is_blank(text: &str) -> (b: bool)
    ensures
        b == (trim_spec(text@).len() == 0),
{
    let n = text.unicode_len();
    let mut i: usize = 0;
    while i < n
        invariant
            0 <= i <= n == text@.len(),
            forall|k: int| 0 <= k < i ==> is_space(text@[k]),
        decreases n - i,
    {
        if !space_char(text.get_char(i)) {
            proof {
                lemma_trim_empty(text@);
            }
            return false;
        }
        i = i + 1;
    }
    proof {
        lemma_trim_empty(text@);
    }
    true
}

} // verus!
