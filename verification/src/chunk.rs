//! The chunker: subdivides each sentence into runs of at most `chunk_size`
//! characters and assigns every chunk a global, strictly increasing sequence
//! index, the sole ordering key downstream.

use vstd::prelude::*;
use crate::text::{Sentence, segment, spec_segments, trim_spec, lemma_trim_le,
    lemma_segments_flatten, lemma_first_term_is, lemma_trim_empty, is_space, is_terminator};
use crate::errors::AudioraError;

verus! {

/// A bounded-length slice of a single sentence: the unit of synthesis.
#[derive(Debug)]
pub struct Chunk {
    /// The global sequence index assigned at creation: 0-based, strictly
    /// increasing across the whole document.
    pub index: usize,
    /// At most `chunk_size` characters of one sentence.
    pub text: String,
}

/// The character runs of length at most `size` that one sentence splits
/// into; the final run may be shorter; the empty sentence yields no runs.
pub open spec fn spec_chunks(s: Seq<char>, size: nat) -> Seq<Seq<char>>
    recommends
        size >= 1,
    decreases s.len(),
{
    if size == 0 {
        seq![]
    } else if s.len() == 0 {
        seq![]
    } else if s.len() <= size {
        seq![s]
    } else {
        seq![s.subrange(0, size as int)] + spec_chunks(
            s.subrange(size as int, s.len() as int),
            size,
        )
    }
}

/// Concatenating one sentence's chunks in order reproduces the sentence.
pub proof fn lemma_chunks_flatten(s: Seq<char>, size: nat)
    requires
        size >= 1,
    ensures
        spec_chunks(s, size).flatten() == s,
    decreases s.len(),
{
    broadcast use Seq::lemma_flatten_singleton;

    if s.len() == 0 {
        assert(spec_chunks(s, size).flatten() =~= s);
    } else if s.len() <= size {
        assert(seq![s].flatten() =~= s);
    } else {
        let head = s.subrange(0, size as int);
        let tail = s.subrange(size as int, s.len() as int);
        lemma_chunks_flatten(tail, size);
        let whole = seq![head] + spec_chunks(tail, size);
        assert(whole.drop_first() =~= spec_chunks(tail, size));
        assert(whole.flatten() == head + spec_chunks(tail, size).flatten());
        assert(head + tail =~= s);
    }
}

/// Every chunk is nonempty and holds at most `size` characters; every chunk
/// but the last holds exactly `size`.
pub proof fn lemma_chunks_shape(s: Seq<char>, size: nat)
    requires
        size >= 1,
    ensures
        forall|i: int|
            0 <= i < spec_chunks(s, size).len() ==> 1 <= #[trigger] spec_chunks(s, size)[i].len()
                <= size,
        forall|i: int|
            0 <= i < spec_chunks(s, size).len() - 1 ==> #[trigger] spec_chunks(s, size)[i].len()
                == size,
    decreases s.len(),
{
    if s.len() == 0 {
    } else if s.len() <= size {
    } else {
        let tail = s.subrange(size as int, s.len() as int);
        lemma_chunks_shape(tail, size);
        let whole = spec_chunks(s, size);
        assert forall|i: int| 0 <= i < whole.len() implies 1 <= #[trigger] whole[i].len() <= size
        by {
            if i > 0 {
                assert(whole[i] == spec_chunks(tail, size)[i - 1]);
            }
        }
        assert forall|i: int| 0 <= i < whole.len() - 1 implies #[trigger] whole[i].len() == size
        by {
            if i > 0 {
                assert(whole[i] == spec_chunks(tail, size)[i - 1]);
            }
        }
    }
}

/// Splits one sentence's text into chunks of at most `chunk_size`
/// characters, assigning consecutive sequence indices from `next_index` on;
/// returns the chunks and the next free index.
pub fn chunk_sentence(text: &str, chunk_size: usize, next_index: usize) -> (r: (Vec<Chunk>, usize))
    requires
        chunk_size >= 1,
        next_index + text@.len() <= usize::MAX,
    ensures
        r.0@.map_values(|c: Chunk| c.text@) == spec_chunks(text@, chunk_size as nat),
        forall|i: int| 0 <= i < r.0@.len() ==> #[trigger] r.0@[i].index == next_index + i,
        r.1 == next_index + r.0@.len(),
        r.0@.len() <= text@.len(),
{
    let n = text.unicode_len();
    let mut out: Vec<Chunk> = Vec::new();
    let mut pos: usize = 0;
    let mut idx: usize = next_index;
    proof {
        assert(text@.subrange(0, n as int) =~= text@);
        assert(out@.map_values(|c: Chunk| c.text@) + spec_chunks(text@, chunk_size as nat)
            =~= spec_chunks(text@, chunk_size as nat));
    }
    while pos < n
        invariant
            chunk_size >= 1,
            out@.len() <= pos <= n == text@.len(),
            next_index + n <= usize::MAX,
            idx == next_index + out@.len(),
            spec_chunks(text@, chunk_size as nat) =~= out@.map_values(|c: Chunk| c.text@)
                + spec_chunks(text@.subrange(pos as int, n as int), chunk_size as nat),
            forall|i: int| 0 <= i < out@.len() ==> #[trigger] out@[i].index == next_index + i,
        decreases n - pos,
    {
        let end: usize = if n - pos <= chunk_size {
            n
        } else {
            pos + chunk_size
        };
        let piece = text.substring_char(pos, end).to_owned();
        proof {
            let size = chunk_size as nat;
            let rest = text@.subrange(pos as int, n as int);
            let new_map = out@.push(Chunk { index: idx, text: piece }).map_values(
                |c: Chunk| c.text@,
            );
            assert(new_map =~= out@.map_values(|c: Chunk| c.text@).push(piece@));
            if n - pos <= chunk_size {
                assert(rest.len() <= size);
                assert(spec_chunks(rest, size) == seq![rest]);
                assert(piece@ == rest);
                assert(text@.subrange(end as int, n as int).len() == 0);
                assert(new_map + spec_chunks(text@.subrange(end as int, n as int), size)
                    =~= out@.map_values(|c: Chunk| c.text@) + seq![rest]);
            } else {
                assert(rest.subrange(0, size as int) =~= text@.subrange(pos as int, end as int));
                assert(rest.subrange(size as int, rest.len() as int) =~= text@.subrange(
                    end as int,
                    n as int,
                ));
                assert(spec_chunks(rest, size) == seq![piece@] + spec_chunks(
                    text@.subrange(end as int, n as int),
                    size,
                ));
                assert(new_map + spec_chunks(text@.subrange(end as int, n as int), size)
                    =~= out@.map_values(|c: Chunk| c.text@) + spec_chunks(rest, size));
            }
        }
        out.push(Chunk { index: idx, text: piece });
        idx = idx + 1;
        pos = end;
    }
    proof {
        assert(text@.subrange(pos as int, n as int).len() == 0);
        assert(out@.map_values(|c: Chunk| c.text@) + spec_chunks(
            text@.subrange(pos as int, n as int),
            chunk_size as nat,
        ) =~= out@.map_values(|c: Chunk| c.text@));
    }
    (out, idx)
}

/// The chunks of a whole document: each sentence is trimmed and split into
/// runs of at most `size` characters, in reading order.
pub open spec fn spec_plan(t: Seq<char>, size: nat) -> Seq<Seq<char>>
    recommends
        size >= 1,
{
    spec_segments(t).map_values(|r: Seq<char>| spec_chunks(trim_spec(r), size)).flatten()
}

proof fn lemma_chunks_of_all_flatten(ss: Seq<Seq<char>>, size: nat)
    requires
        size >= 1,
    ensures
        ss.map_values(|r: Seq<char>| spec_chunks(trim_spec(r), size)).flatten().flatten()
            == ss.map_values(|r: Seq<char>| trim_spec(r)).flatten(),
    decreases ss.len(),
{
    let chunks_of = |r: Seq<char>| spec_chunks(trim_spec(r), size);
    let trim_of = |r: Seq<char>| trim_spec(r);
    if ss.len() == 0 {
        assert(ss.map_values(chunks_of) =~= Seq::<Seq<Seq<char>>>::empty());
        assert(ss.map_values(trim_of) =~= Seq::<Seq<char>>::empty());
        assert(ss.map_values(chunks_of).flatten() =~= Seq::<Seq<char>>::empty());
        assert(ss.map_values(chunks_of).flatten().flatten() =~= Seq::<char>::empty());
        assert(ss.map_values(trim_of).flatten() =~= Seq::<char>::empty());
    } else {
        let tail = ss.drop_first();
        lemma_chunks_of_all_flatten(tail, size);
        assert(ss.map_values(chunks_of).drop_first() =~= tail.map_values(chunks_of));
        assert(ss.map_values(trim_of).drop_first() =~= tail.map_values(trim_of));
        let inner = ss.map_values(chunks_of).flatten();
        assert(inner == chunks_of(ss[0]) + tail.map_values(chunks_of).flatten());
        vstd::seq_lib::lemma_flatten_concat(
            chunks_of(ss[0]),
            tail.map_values(chunks_of).flatten(),
        );
        lemma_chunks_flatten(trim_spec(ss[0]), size);
        assert(ss.map_values(trim_of).flatten() == trim_of(ss[0]) + tail.map_values(
            trim_of,
        ).flatten());
    }
}

/// The document-wide round trip: concatenating every planned chunk, in
/// sequence-index order, reproduces the trimmed sentences of the document in
/// reading order.
pub proof fn lemma_plan_flatten(t: Seq<char>, size: nat)
    requires
        size >= 1,
    ensures
        spec_plan(t, size).flatten() == spec_segments(t).map_values(
            |r: Seq<char>| trim_spec(r),
        ).flatten(),
{
    lemma_chunks_of_all_flatten(spec_segments(t), size);
}

/// A document holding nothing but whitespace produces nothing to
/// synthesize: it plans no chunks, so the run finishes without audio.
pub proof fn lemma_blank_document_has_no_chunks(t: Seq<char>, size: nat)
    requires
        size >= 1,
        forall|k: int| 0 <= k < t.len() ==> is_space(t[k]),
    ensures
        spec_plan(t, size).len() == 0,
{
    broadcast use Seq::lemma_flatten_singleton;

    let plan_of = |r: Seq<char>| spec_chunks(trim_spec(r), size);
    if t.len() == 0 {
        assert(spec_segments(t) =~= Seq::<Seq<char>>::empty());
        assert(spec_segments(t).map_values(plan_of) =~= Seq::<Seq<Seq<char>>>::empty());
        assert(spec_plan(t, size) =~= Seq::<Seq<char>>::empty());
    } else {
        assert forall|j: int| 0 <= j < t.len() implies !is_terminator(t[j]) by {
            assert(is_space(t[j]));
        }
        lemma_first_term_is(t, t.len() as int);
        assert(spec_segments(t) == seq![t]);
        lemma_trim_empty(t);
        assert(trim_spec(t).len() == 0);
        assert(spec_chunks(trim_spec(t), size) == Seq::<Seq<char>>::empty());
        assert(spec_segments(t).map_values(plan_of) =~= seq![Seq::<Seq<char>>::empty()]);
        assert(spec_plan(t, size) =~= Seq::<Seq<char>>::empty());
    }
}

/// Segments a document and chunks every sentence, assigning global sequence
/// indices `0, 1, 2, …` in reading order. A chunk size of zero is a fatal
/// configuration error and is rejected before any work is done.
pub fn plan_chunks(text: &str, chunk_size: usize) -> (r: Result<Vec<Chunk>, AudioraError>)
    ensures
        r is Err <==> chunk_size == 0,
        r is Err ==> r->Err_0 is InvalidChunkSize,
        r is Ok ==> r->Ok_0@.map_values(|c: Chunk| c.text@) == spec_plan(
            text@,
            chunk_size as nat,
        ),
        r is Ok ==> forall|i: int|
            0 <= i < r->Ok_0@.len() ==> #[trigger] r->Ok_0@[i].index == i,
{
    if chunk_size == 0 {
        return Err(AudioraError::InvalidChunkSize);
    }
    let n_doc = text.unicode_len();
    let sentences = segment(text);
    let ghost raws = spec_segments(text@);
    let ghost size = chunk_size as nat;
    let ghost plan_of = |r: Seq<char>| spec_chunks(trim_spec(r), size);
    let mut chunks: Vec<Chunk> = Vec::new();
    let mut idx: usize = 0;
    let mut k: usize = 0;
    proof {
        lemma_segments_flatten(text@);
        assert(raws.subrange(0, 0).map_values(plan_of).flatten() =~= Seq::<Seq<char>>::empty());
        assert(chunks@.map_values(|c: Chunk| c.text@) =~= Seq::<Seq<char>>::empty());
    }
    while k < sentences.len()
        invariant
            chunk_size >= 1,
            size == chunk_size as nat,
            plan_of == (|r: Seq<char>| spec_chunks(trim_spec(r), size)),
            0 <= k <= sentences@.len(),
            raws == spec_segments(text@),
            raws.flatten() == text@,
            text@.len() <= usize::MAX,
            sentences@.map_values(|s: Sentence| s.raw@) == raws,
            forall|j: int|
                0 <= j < sentences@.len() ==> sentences@[j].text@ == trim_spec(
                    sentences@[j].raw@,
                ),
            idx == chunks@.len(),
            idx <= raws.subrange(0, k as int).flatten().len() <= text@.len(),
            chunks@.map_values(|c: Chunk| c.text@) =~= raws.subrange(0, k as int).map_values(
                plan_of,
            ).flatten(),
            forall|i: int| 0 <= i < chunks@.len() ==> #[trigger] chunks@[i].index == i,
        decreases sentences@.len() - k,
    {
        proof {
            let done = raws.subrange(0, k as int);
            let done1 = raws.subrange(0, k + 1 as int);
            assert(done1 =~= done.push(raws[k as int]));
            assert(done1.flatten() =~= done.flatten() + raws[k as int]) by {
                broadcast use Seq::lemma_flatten_push;

            }
            assert(raws =~= done1 + raws.subrange(k + 1 as int, raws.len() as int));
            vstd::seq_lib::lemma_flatten_concat(
                done1,
                raws.subrange(k + 1 as int, raws.len() as int),
            );
            assert(done1.flatten().len() <= text@.len());
            lemma_trim_le(raws[k as int]);
            assert(sentences@[k as int].text@ == trim_spec(raws[k as int]));
            assert(idx + sentences@[k as int].text@.len() <= done.flatten().len()
                + raws[k as int].len() == done1.flatten().len());
        }
        let (mut cs, idx1) = chunk_sentence(sentences[k].text.as_str(), chunk_size, idx);
        proof {
            let done = raws.subrange(0, k as int);
            let done1 = raws.subrange(0, k + 1 as int);
            assert(done1.map_values(plan_of) =~= done.map_values(plan_of).push(
                plan_of(raws[k as int]),
            ));
            assert(done1.map_values(plan_of).flatten() =~= done.map_values(plan_of).flatten()
                + plan_of(raws[k as int])) by {
                broadcast use Seq::lemma_flatten_push;

            }
            assert((chunks@ + cs@).map_values(|c: Chunk| c.text@) =~= chunks@.map_values(
                |c: Chunk| c.text@,
            ) + cs@.map_values(|c: Chunk| c.text@));
        }
        chunks.append(&mut cs);
        idx = idx1;
        k = k + 1;
    }
    proof {
        assert(raws.subrange(0, raws.len() as int) =~= raws);
    }
    Ok(chunks)
}

} // verus!
