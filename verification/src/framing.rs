//! What the framer computes, said without reference to its state: which
//! stretches of a byte stream are sentences. The theorems here tie that
//! description to the step-by-step model in `framer`.

use crate::framer::{
    lemma_chunking, next_buffer, run_buffer, run_emitted, CARRIAGE_RETURN, MAX_SENTENCE_LEN,
    START_MARKER, TERMINATOR,
};
use vstd::prelude::*;

verus! {

/// A start marker or a terminator: the two bytes that delimit sentences.
pub open spec fn is_marker(byte: u8) -> bool {
    byte == START_MARKER || byte == TERMINATOR
}

/// `bytes` with every carriage return removed.
pub open spec fn without_cr(bytes: Seq<u8>) -> Seq<u8> {
    bytes.filter(|b: u8| b != CARRIAGE_RETURN)
}

/// No byte of `bytes` is a start marker or a terminator.
pub open spec fn marker_free(bytes: Seq<u8>) -> bool {
    forall|i: int| 0 <= i < bytes.len() ==> !is_marker(#[trigger] bytes[i])
}

/// The index of the last start marker or terminator in `bytes`, or -1 if
/// there is none.
pub open spec fn last_marker(bytes: Seq<u8>) -> int
    decreases bytes.len(),
{
    if bytes.len() == 0 {
        -1
    } else if is_marker(bytes.last()) {
        bytes.len() - 1
    } else {
        last_marker(bytes.drop_last())
    }
}

/// The sentence that `bytes` leaves unfinished: if the last delimiter in
/// `bytes` is a start marker, everything from it on with carriage returns
/// removed, provided that fits in `MAX_SENTENCE_LEN` bytes; otherwise nothing.
pub open spec fn pending_sentence(bytes: Seq<u8>) -> Seq<u8> {
    let m = last_marker(bytes);
    if m < 0 || bytes[m] == TERMINATOR {
        Seq::empty()
    } else {
        let body = without_cr(bytes.skip(m));
        if body.len() <= MAX_SENTENCE_LEN {
            body
        } else {
            Seq::empty()
        }
    }
}

/// The sentences of `bytes`, in stream order: one for each terminator that
/// closes an unfinished sentence, namely that sentence.
pub open spec fn sentences(bytes: Seq<u8>) -> Seq<Seq<u8>>
    decreases bytes.len(),
{
    if bytes.len() == 0 {
        Seq::empty()
    } else {
        let before = bytes.drop_last();
        if bytes.last() == TERMINATOR && pending_sentence(before).len() > 0 {
            sentences(before).push(pending_sentence(before))
        } else {
            sentences(before)
        }
    }
}

/// `sentence` is what lies between the start marker at `from` and the
/// terminator at `to`, with no other delimiter in between: the stretch
/// `bytes[from..to]` with its carriage returns removed.
pub open spec fn is_sentence_span(bytes: Seq<u8>, from: int, to: int, sentence: Seq<u8>) -> bool {
    &&& 0 <= from < to < bytes.len()
    &&& bytes[from] == START_MARKER
    &&& bytes[to] == TERMINATOR
    &&& marker_free(bytes.subrange(from + 1, to))
    &&& sentence == without_cr(bytes.subrange(from, to))
    &&& sentence.len() <= MAX_SENTENCE_LEN
}

/// All chunks of `chunks` one after the other.
pub open spec fn concat(chunks: Seq<Seq<u8>>) -> Seq<u8>
    decreases chunks.len(),
{
    if chunks.len() == 0 {
        Seq::empty()
    } else {
        concat(chunks.drop_last()) + chunks.last()
    }
}

/// The sentence in progress after feeding `chunks` one chunk at a time.
pub open spec fn run_chunks_buffer(buf: Seq<u8>, chunks: Seq<Seq<u8>>) -> Seq<u8>
    decreases chunks.len(),
{
    if chunks.len() == 0 {
        buf
    } else {
        run_buffer(run_chunks_buffer(buf, chunks.drop_last()), chunks.last())
    }
}

/// The sentences handed out while feeding `chunks` one chunk at a time.
pub open spec fn run_chunks_emitted(buf: Seq<u8>, chunks: Seq<Seq<u8>>) -> Seq<Seq<u8>>
    decreases chunks.len(),
{
    if chunks.len() == 0 {
        Seq::empty()
    } else {
        run_chunks_emitted(buf, chunks.drop_last()) + run_emitted(
            run_chunks_buffer(buf, chunks.drop_last()),
            chunks.last(),
        )
    }
}

/// `last_marker` is what its name says.
pub proof fn lemma_last_marker(bytes: Seq<u8>)
    ensures
        -1 <= last_marker(bytes) < bytes.len(),
        last_marker(bytes) >= 0 ==> is_marker(bytes[last_marker(bytes)]),
        forall|j: int| last_marker(bytes) < j < bytes.len() ==> !is_marker(#[trigger] bytes[j]),
    decreases bytes.len(),
{
    if bytes.len() > 0 && !is_marker(bytes.last()) {
        let before = bytes.drop_last();
        lemma_last_marker(before);
        assert forall|j: int| last_marker(bytes) < j < bytes.len() implies !is_marker(
            #[trigger] bytes[j],
        ) by {
            if j < before.len() {
                assert(bytes[j] == before[j]);
            }
        }
    }
}

proof fn lemma_without_cr_push(bytes: Seq<u8>, byte: u8)
    ensures
        without_cr(bytes.push(byte)) == if byte == CARRIAGE_RETURN {
            without_cr(bytes)
        } else {
            without_cr(bytes).push(byte)
        },
{
    reveal(Seq::filter);
    assert(bytes.push(byte).drop_last() == bytes);
}

proof fn lemma_without_cr_keeps_first(bytes: Seq<u8>)
    requires
        bytes.len() > 0,
        bytes[0] != CARRIAGE_RETURN,
    ensures
        without_cr(bytes).len() > 0,
        without_cr(bytes)[0] == bytes[0],
    decreases bytes.len(),
{
    reveal(Seq::filter);
    if bytes.len() > 1 {
        lemma_without_cr_keeps_first(bytes.drop_last());
    } else {
        assert(bytes.drop_last().len() == 0);
    }
}

/// The framer implements the description: started with nothing in progress
/// and fed `bytes`, it has handed out exactly `sentences(bytes)` and holds
/// exactly `pending_sentence(bytes)`.
pub proof fn lemma_framing(bytes: Seq<u8>)
    ensures
        run_buffer(Seq::empty(), bytes) == pending_sentence(bytes),
        run_emitted(Seq::empty(), bytes) == sentences(bytes),
    decreases bytes.len(),
{
    if bytes.len() > 0 {
        let before = bytes.drop_last();
        let byte = bytes.last();
        lemma_framing(before);
        lemma_last_marker(before);
        assert(bytes == before.push(byte));
        if byte == START_MARKER {
            assert(bytes.skip(bytes.len() - 1) == Seq::<u8>::empty().push(byte));
            lemma_without_cr_push(Seq::<u8>::empty(), byte);
            reveal(Seq::filter);
            assert(without_cr(Seq::<u8>::empty()) == Seq::<u8>::empty());
            assert(pending_sentence(bytes) == seq![START_MARKER]);
        } else if byte == TERMINATOR {
        } else {
            let m = last_marker(before);
            if m >= 0 && before[m] == START_MARKER {
                assert(bytes[m] == before[m]);
                assert(bytes.skip(m) == before.skip(m).push(byte));
                lemma_without_cr_push(before.skip(m), byte);
                lemma_without_cr_keeps_first(before.skip(m));
            } else if m >= 0 {
                assert(bytes[m] == before[m]);
            }
        }
    }
}

/// Only the last delimiter is the last delimiter.
pub proof fn lemma_last_marker_unique(bytes: Seq<u8>, at: int)
    requires
        0 <= at < bytes.len(),
        is_marker(bytes[at]),
        forall|j: int| at < j < bytes.len() ==> !is_marker(#[trigger] bytes[j]),
    ensures
        last_marker(bytes) == at,
{
    lemma_last_marker(bytes);
}

/// What was handed out stays handed out: the sentences of a prefix of a
/// stream open the sentences of the stream.
pub proof fn lemma_sentences_of_prefix(bytes: Seq<u8>, cut: int)
    requires
        0 <= cut <= bytes.len(),
    ensures
        sentences(bytes.take(cut)).len() <= sentences(bytes).len(),
        sentences(bytes.take(cut)) == sentences(bytes).take(sentences(bytes.take(cut)).len() as int),
    decreases bytes.len() - cut,
{
    if cut < bytes.len() {
        lemma_sentences_of_prefix(bytes, cut + 1);
        assert(bytes.take(cut + 1).drop_last() == bytes.take(cut));
        let shorter = sentences(bytes.take(cut));
        let longer = sentences(bytes.take(cut + 1));
        assert(shorter == longer.take(shorter.len() as int));
        assert(shorter == sentences(bytes).take(shorter.len() as int));
    } else {
        assert(bytes.take(cut) == bytes);
        assert(sentences(bytes) == sentences(bytes).take(sentences(bytes).len() as int));
    }
}

/// Every sentence of a stream is a stretch of that stream: it starts at a
/// start marker, ends before a terminator, and no other delimiter lies in
/// between.
pub proof fn lemma_sentences_are_spans(bytes: Seq<u8>, k: int)
    requires
        0 <= k < sentences(bytes).len(),
    ensures
        exists|from: int, to: int| #[trigger] is_sentence_span(bytes, from, to, sentences(bytes)[k]),
    decreases bytes.len(),
{
    let before = bytes.drop_last();
    let earlier = sentences(before);
    if k < earlier.len() {
        lemma_sentences_are_spans(before, k);
        let (from, to) = choose|from: int, to: int| #[trigger]
            is_sentence_span(before, from, to, earlier[k]);
        assert(before.subrange(from + 1, to) == bytes.subrange(from + 1, to));
        assert(before.subrange(from, to) == bytes.subrange(from, to));
        assert(sentences(bytes)[k] == earlier[k]);
        assert(is_sentence_span(bytes, from, to, sentences(bytes)[k]));
    } else {
        let from = last_marker(before);
        let to = bytes.len() - 1;
        lemma_last_marker(before);
        assert(before.skip(from) == bytes.subrange(from, to));
        assert forall|i: int| 0 <= i < bytes.subrange(from + 1, to).len() implies !is_marker(
            #[trigger] bytes.subrange(from + 1, to)[i],
        ) by {
            assert(bytes.subrange(from + 1, to)[i] == before[from + 1 + i]);
        }
        assert(is_sentence_span(bytes, from, to, sentences(bytes)[k]));
    }
}

/// Every stretch of a stream that runs from a start marker to the next
/// delimiter, which is a terminator, and that fits, is a sentence of the
/// stream.
pub proof fn lemma_spans_are_sentences(bytes: Seq<u8>, from: int, to: int, sentence: Seq<u8>)
    requires
        is_sentence_span(bytes, from, to, sentence),
    ensures
        sentences(bytes).contains(sentence),
{
    let upto = bytes.take(to + 1);
    let before = bytes.take(to);
    assert(upto.drop_last() == before);
    assert(upto.last() == TERMINATOR);
    assert forall|j: int| from < j < before.len() implies !is_marker(#[trigger] before[j]) by {
        assert(before[j] == bytes.subrange(from + 1, to)[j - from - 1]);
    }
    lemma_last_marker_unique(before, from);
    assert(before.skip(from) == bytes.subrange(from, to));
    lemma_without_cr_keeps_first(before.skip(from));
    assert(pending_sentence(before) == sentence);
    let found = sentences(upto);
    assert(found.last() == sentence);
    lemma_sentences_of_prefix(bytes, to + 1);
    assert(sentences(bytes)[found.len() - 1] == sentence);
}

/// However a stream is cut into chunks, feeding the chunks one after the
/// other hands out what feeding the whole stream at once hands out, and
/// leaves the same sentence in progress.
pub proof fn lemma_any_chunking(buf: Seq<u8>, chunks: Seq<Seq<u8>>)
    ensures
        run_chunks_buffer(buf, chunks) == run_buffer(buf, concat(chunks)),
        run_chunks_emitted(buf, chunks) == run_emitted(buf, concat(chunks)),
    decreases chunks.len(),
{
    if chunks.len() > 0 {
        lemma_any_chunking(buf, chunks.drop_last());
        lemma_chunking(buf, concat(chunks.drop_last()), chunks.last());
    }
}

/// Feeding a stream one byte at a time is one way of cutting it into
/// chunks: the chunks of length one, put together, are the stream.
pub proof fn lemma_concat_of_single_bytes(bytes: Seq<u8>)
    ensures
        concat(bytes.map_values(|b: u8| seq![b])) == bytes,
    decreases bytes.len(),
{
    let singles = bytes.map_values(|b: u8| seq![b]);
    if bytes.len() > 0 {
        lemma_concat_of_single_bytes(bytes.drop_last());
        assert(singles.drop_last() == bytes.drop_last().map_values(|b: u8| seq![b]));
        assert(singles.last() == seq![bytes.last()]);
        assert(bytes.drop_last() + seq![bytes.last()] == bytes);
    }
}

/// Carriage returns are invisible to the framer: with or without them a
/// stream yields the same sentences and leaves the same sentence unfinished.
pub proof fn lemma_carriage_returns_ignored(buf: Seq<u8>, bytes: Seq<u8>)
    ensures
        run_buffer(buf, bytes) == run_buffer(buf, without_cr(bytes)),
        run_emitted(buf, bytes) == run_emitted(buf, without_cr(bytes)),
    decreases bytes.len(),
{
    reveal(Seq::filter);
    if bytes.len() > 0 {
        let before = bytes.drop_last();
        let byte = bytes.last();
        lemma_carriage_returns_ignored(buf, before);
        assert(bytes == before.push(byte));
        lemma_without_cr_push(before, byte);
        if byte != CARRIAGE_RETURN {
            assert(without_cr(bytes).drop_last() == without_cr(before));
            assert(without_cr(bytes).last() == byte);
        }
    } else {
        assert(without_cr(bytes) == bytes);
    }
}

/// Two streams that differ only in their carriage returns yield the same
/// sentences: line endings may be LF or CRLF.
pub proof fn lemma_line_ending_tolerance(buf: Seq<u8>, first: Seq<u8>, second: Seq<u8>)
    requires
        without_cr(first) == without_cr(second),
    ensures
        run_buffer(buf, first) == run_buffer(buf, second),
        run_emitted(buf, first) == run_emitted(buf, second),
{
    lemma_carriage_returns_ignored(buf, first);
    lemma_carriage_returns_ignored(buf, second);
}

/// After a start marker and a delimiter-free `body`, whatever was in progress
/// before is forgotten: the buffer holds the marker and the body without its
/// carriage returns if that fits, and nothing if it does not. Nothing is
/// handed out on the way.
pub proof fn lemma_after_start_marker(buf: Seq<u8>, body: Seq<u8>)
    requires
        marker_free(body),
    ensures
        run_buffer(buf, seq![START_MARKER] + body) == if without_cr(body).len()
            < MAX_SENTENCE_LEN {
            seq![START_MARKER] + without_cr(body)
        } else {
            Seq::empty()
        },
        run_emitted(buf, seq![START_MARKER] + body) == Seq::<Seq<u8>>::empty(),
    decreases body.len(),
{
    reveal(Seq::filter);
    let opened = seq![START_MARKER];
    if body.len() == 0 {
        assert(opened + body == opened);
        assert(opened.drop_last() == Seq::<u8>::empty());
        assert(run_buffer(buf, opened) == next_buffer(run_buffer(buf, opened.drop_last()), opened.last()));
        assert(run_emitted(buf, opened.drop_last()) == Seq::<Seq<u8>>::empty());
        assert(opened + without_cr(body) == opened);
    } else {
        let before = body.drop_last();
        let byte = body.last();
        assert(!is_marker(body[body.len() - 1]));
        assert(marker_free(before)) by {
            assert forall|i: int| 0 <= i < before.len() implies !is_marker(#[trigger] before[i]) by {
                assert(before[i] == body[i]);
            }
        }
        lemma_after_start_marker(buf, before);
        assert(body == before.push(byte));
        lemma_without_cr_push(before, byte);
        assert((opened + body).drop_last() == opened + before);
        assert((opened + body).last() == byte);
        if byte != CARRIAGE_RETURN && without_cr(before).len() < MAX_SENTENCE_LEN {
            assert((opened + without_cr(before)).push(byte) == opened + without_cr(body));
        }
    }
}

/// Resynchronisation: a start marker always wins. A sentence that fits is
/// handed out whole when its terminator arrives, no matter what unfinished
/// or corrupt input preceded its start marker.
pub proof fn lemma_resync(buf: Seq<u8>, body: Seq<u8>)
    requires
        marker_free(body),
        without_cr(body).len() < MAX_SENTENCE_LEN,
    ensures
        run_emitted(buf, (seq![START_MARKER] + body).push(TERMINATOR)) == seq![
            seq![START_MARKER] + without_cr(body),
        ],
        run_buffer(buf, (seq![START_MARKER] + body).push(TERMINATOR)) == Seq::<u8>::empty(),
{
    lemma_after_start_marker(buf, body);
    let stream = (seq![START_MARKER] + body).push(TERMINATOR);
    assert(stream.drop_last() == seq![START_MARKER] + body);
    assert(stream.last() == TERMINATOR);
    assert(Seq::<Seq<u8>>::empty().push(seq![START_MARKER] + without_cr(body)) == seq![
        seq![START_MARKER] + without_cr(body),
    ]);
}

/// Recovery: whatever unfinished input precedes it, however long, a
/// sentence that fits comes out alone and whole. The unfinished input opens
/// with a start marker of its own and may overflow the buffer any number of
/// times over.
pub proof fn lemma_recovery(buf: Seq<u8>, unfinished: Seq<u8>, body: Seq<u8>)
    requires
        marker_free(unfinished),
        marker_free(body),
        without_cr(body).len() < MAX_SENTENCE_LEN,
    ensures
        run_emitted(
            buf,
            (seq![START_MARKER] + unfinished) + (seq![START_MARKER] + body).push(TERMINATOR),
        ) == seq![seq![START_MARKER] + without_cr(body)],
        run_buffer(
            buf,
            (seq![START_MARKER] + unfinished) + (seq![START_MARKER] + body).push(TERMINATOR),
        ) == Seq::<u8>::empty(),
{
    let first = seq![START_MARKER] + unfinished;
    let second = (seq![START_MARKER] + body).push(TERMINATOR);
    lemma_after_start_marker(buf, unfinished);
    lemma_resync(run_buffer(buf, first), body);
    lemma_chunking(buf, first, second);
    assert(Seq::<Seq<u8>>::empty() + run_emitted(run_buffer(buf, first), second) == run_emitted(
        run_buffer(buf, first),
        second,
    ));
}

/// Overflow: a sentence that does not fit is dropped whole. Its terminator
/// hands out nothing and the framer is left with nothing in progress, ready
/// for the next start marker.
pub proof fn lemma_overflow_dropped(buf: Seq<u8>, body: Seq<u8>)
    requires
        marker_free(body),
        without_cr(body).len() >= MAX_SENTENCE_LEN,
    ensures
        run_emitted(buf, (seq![START_MARKER] + body).push(TERMINATOR)) == Seq::<Seq<u8>>::empty(),
        run_buffer(buf, (seq![START_MARKER] + body).push(TERMINATOR)) == Seq::<u8>::empty(),
{
    lemma_after_start_marker(buf, body);
    let stream = (seq![START_MARKER] + body).push(TERMINATOR);
    assert(stream.drop_last() == seq![START_MARKER] + body);
    assert(stream.last() == TERMINATOR);
}

} // verus!
