//! The sentence framer: turns a byte stream into candidate sentences.
//!
//! The framer's whole state is the sentence in progress, held in a buffer of
//! fixed size; an empty buffer means that no sentence is in progress. `next_buffer` and `emission` give the
//! effect of one byte, `run_buffer` and `run_emitted` the effect of a byte
//! sequence, and `Framer::feed` / `Framer::feed_chunk` are proved to compute
//! exactly those.

use vstd::prelude::*;

verus! {

/// Largest number of bytes a sentence may hold, start marker included.
pub const MAX_SENTENCE_LEN: usize = 128;

/// `$`, which opens every sentence.
pub const START_MARKER: u8 = 0x24;

/// Line feed, which closes every sentence.
pub const TERMINATOR: u8 = 0x0A;

/// Carriage return, which is dropped wherever it occurs.
pub const CARRIAGE_RETURN: u8 = 0x0D;

/// The sentence in progress after `byte` arrives while `buf` is in progress.
pub open spec fn next_buffer(buf: Seq<u8>, byte: u8) -> Seq<u8> {
    if byte == START_MARKER {
        seq![START_MARKER]
    } else if byte == TERMINATOR {
        Seq::empty()
    } else if byte == CARRIAGE_RETURN {
        buf
    } else if buf.len() == 0 {
        buf
    } else if buf.len() < MAX_SENTENCE_LEN {
        buf.push(byte)
    } else {
        Seq::empty()
    }
}

/// The sentence handed out when `byte` arrives while `buf` is in progress.
pub open spec fn emission(buf: Seq<u8>, byte: u8) -> Option<Seq<u8>> {
    if byte == TERMINATOR && buf.len() > 0 {
        Some(buf)
    } else {
        None
    }
}

/// The sentence in progress after all of `bytes` arrived, one by one, while
/// `buf` was in progress.
pub open spec fn run_buffer(buf: Seq<u8>, bytes: Seq<u8>) -> Seq<u8>
    decreases bytes.len(),
{
    if bytes.len() == 0 {
        buf
    } else {
        next_buffer(run_buffer(buf, bytes.drop_last()), bytes.last())
    }
}

/// The sentences handed out, in order, while all of `bytes` arrived, one by
/// one, starting with `buf` in progress.
pub open spec fn run_emitted(buf: Seq<u8>, bytes: Seq<u8>) -> Seq<Seq<u8>>
    decreases bytes.len(),
{
    if bytes.len() == 0 {
        Seq::empty()
    } else {
        let earlier = run_emitted(buf, bytes.drop_last());
        match emission(run_buffer(buf, bytes.drop_last()), bytes.last()) {
            Some(sentence) => earlier.push(sentence),
            None => earlier,
        }
    }
}

/// What a buffer can hold: nothing, or a start marker followed by at most
/// `MAX_SENTENCE_LEN - 1` bytes none of which is a start marker, a terminator
/// or a carriage return.
pub open spec fn is_framed_prefix(buf: Seq<u8>) -> bool {
    &&& buf.len() <= MAX_SENTENCE_LEN
    &&& buf.len() > 0 ==> buf[0] == START_MARKER
    &&& forall|i: int|
        1 <= i < buf.len() ==> #[trigger] buf[i] != START_MARKER && buf[i] != TERMINATOR && buf[i]
            != CARRIAGE_RETURN
}

/// What the framer hands out: a non-empty framed prefix.
pub open spec fn is_framed(sentence: Seq<u8>) -> bool {
    sentence.len() > 0 && is_framed_prefix(sentence)
}

/// The views of a run of candidate sentences.
pub open spec fn sentence_views(sentences: Seq<CandidateSentence>) -> Seq<Seq<u8>> {
    sentences.map_values(|c: CandidateSentence| c@)
}

/// One byte keeps the buffer a framed prefix, and what it hands out is framed.
pub proof fn lemma_step_framed(buf: Seq<u8>, byte: u8)
    requires
        is_framed_prefix(buf),
    ensures
        is_framed_prefix(next_buffer(buf, byte)),
        emission(buf, byte) matches Some(sentence) ==> is_framed(sentence),
{
}

/// Any byte sequence keeps the buffer a framed prefix, so the buffer never
/// holds more than `MAX_SENTENCE_LEN` bytes, and every sentence handed out on
/// the way is framed.
pub proof fn lemma_run_framed(buf: Seq<u8>, bytes: Seq<u8>)
    requires
        is_framed_prefix(buf),
    ensures
        is_framed_prefix(run_buffer(buf, bytes)),
        run_buffer(buf, bytes).len() <= MAX_SENTENCE_LEN,
        forall|k: int|
            0 <= k < run_emitted(buf, bytes).len() ==> is_framed(
                #[trigger] run_emitted(buf, bytes)[k],
            ),
    decreases bytes.len(),
{
    if bytes.len() > 0 {
        lemma_run_framed(buf, bytes.drop_last());
        lemma_step_framed(run_buffer(buf, bytes.drop_last()), bytes.last());
        let earlier = run_emitted(buf, bytes.drop_last());
        assert forall|k: int| 0 <= k < run_emitted(buf, bytes).len() implies is_framed(
            #[trigger] run_emitted(buf, bytes)[k],
        ) by {
            if k < earlier.len() {
                assert(run_emitted(buf, bytes)[k] == earlier[k]);
            }
        }
    }
}

/// Feeding `first` and then `second` is feeding `first + second`: the same
/// sentences come out in the same order and the same sentence is left in
/// progress, however a stream is cut into chunks.
pub proof fn lemma_chunking(buf: Seq<u8>, first: Seq<u8>, second: Seq<u8>)
    ensures
        run_buffer(buf, first + second) == run_buffer(run_buffer(buf, first), second),
        run_emitted(buf, first + second) == run_emitted(buf, first) + run_emitted(
            run_buffer(buf, first),
            second,
        ),
    decreases second.len(),
{
    if second.len() == 0 {
        assert(first + second == first);
        assert(run_emitted(buf, first) + Seq::<Seq<u8>>::empty() == run_emitted(buf, first));
    } else {
        lemma_chunking(buf, first, second.drop_last());
        assert((first + second).drop_last() == first + second.drop_last());
        assert((first + second).last() == second.last());
        let mid = run_buffer(buf, first);
        let earlier = run_emitted(mid, second.drop_last());
        match emission(run_buffer(mid, second.drop_last()), second.last()) {
            Some(sentence) => {
                assert((run_emitted(buf, first) + earlier).push(sentence) == run_emitted(
                    buf,
                    first,
                ) + earlier.push(sentence));
            },
            None => {},
        }
    }
}

/// Feeding one byte more is one step more: the run over the first
/// `cut + 1` bytes is the run over the first `cut` followed by the effect of
/// byte number `cut`.
pub proof fn lemma_byte_by_byte(buf: Seq<u8>, bytes: Seq<u8>, cut: int)
    requires
        0 <= cut < bytes.len(),
    ensures
        run_buffer(buf, bytes.take(cut + 1)) == next_buffer(
            run_buffer(buf, bytes.take(cut)),
            bytes[cut],
        ),
        run_emitted(buf, bytes.take(cut + 1)) == match emission(
            run_buffer(buf, bytes.take(cut)),
            bytes[cut],
        ) {
            Some(sentence) => run_emitted(buf, bytes.take(cut)).push(sentence),
            None => run_emitted(buf, bytes.take(cut)),
        },
{
    assert(bytes.take(cut + 1).drop_last() == bytes.take(cut));
    assert(bytes.take(cut + 1).last() == bytes[cut]);
}

/// A complete unit cut out of the stream: everything from a start marker up to
/// the terminator, with the terminator and all carriage returns removed.
#[derive(Debug, Clone, PartialEq, Eq)]
pub struct CandidateSentence {
    bytes: Vec<u8>,
}

impl View for CandidateSentence {
    type V = Seq<u8>;

    closed spec fn view(&self) -> Seq<u8> {
        self.bytes@
    }
}

impl CandidateSentence {
    /// Wraps bytes that did not come from a `Framer`.
    pub fn from_bytes(bytes: Vec<u8>) -> (out: CandidateSentence)
        ensures
            out@ == bytes@,
    {
        CandidateSentence { bytes }
    }

    /// The sentence's bytes.
    pub fn as_bytes(&self) -> (out: &[u8])
        ensures
            out@ == self@,
    {
        self.bytes.as_slice()
    }

    /// The number of bytes in the sentence.
    pub fn len(&self) -> (out: usize)
        ensures
            out == self@.len(),
    {
        self.bytes.len()
    }

    /// Gives the bytes back.
    pub fn into_bytes(self) -> (out: Vec<u8>)
        ensures
            out@ == self@,
    {
        self.bytes
    }
}

/// Accumulates bytes into sentences. Its storage is one array of
/// `MAX_SENTENCE_LEN` bytes, allocated with the framer and never grown.
#[derive(Debug)]
pub struct Framer {
    buf: [u8; MAX_SENTENCE_LEN],
    len: usize,
}

impl View for Framer {
    type V = Seq<u8>;

    /// The sentence in progress; empty when there is none.
    closed spec fn view(&self) -> Seq<u8> {
        self.buf@.take(self.len as int)
    }
}

impl Framer {
    #[verifier::type_invariant]
    spec fn well_formed(&self) -> bool {
        &&& self.len <= MAX_SENTENCE_LEN
        &&& self.len > 0 ==> self.buf@[0] == START_MARKER
        &&& forall|i: int|
            1 <= i < self.len ==> #[trigger] self.buf@[i] != START_MARKER && self.buf@[i]
                != TERMINATOR && self.buf@[i] != CARRIAGE_RETURN
    }

    /// A framer with no sentence in progress.
    pub fn new() -> (out: Framer)
        ensures
            out@ == Seq::<u8>::empty(),
    {
        Framer { buf: [0u8; MAX_SENTENCE_LEN], len: 0 }
    }

    /// The number of bytes held for the sentence in progress. What is held
    /// is always a framed prefix, so never more than `MAX_SENTENCE_LEN`
    /// bytes.
    pub fn pending_len(&self) -> (out: usize)
        ensures
            out == self@.len(),
            out <= MAX_SENTENCE_LEN,
            is_framed_prefix(self@),
    {
        proof {
            use_type_invariant(self);
        }
        self.len
    }

    /// Whether a start marker has been seen and not yet closed or dropped.
    pub fn in_progress(&self) -> (out: bool)
        ensures
            out == (self@.len() > 0),
    {
        proof {
            use_type_invariant(self);
        }
        self.len > 0
    }

    /// Copies the sentence in progress out of the buffer.
    fn pending(&self) -> (out: Vec<u8>)
        ensures
            out@ == self@,
    {
        proof {
            use_type_invariant(self);
        }
        let mut out: Vec<u8> = Vec::with_capacity(self.len);
        let mut i: usize = 0;
        while i < self.len
            invariant
                i <= self.len <= MAX_SENTENCE_LEN,
                out@ == self.buf@.take(i as int),
            decreases self.len - i,
        {
            out.push(self.buf[i]);
            assert(self.buf@.take(i + 1) == self.buf@.take(i as int).push(self.buf@[i as int]));
            i += 1;
        }
        out
    }

    /// Consumes one byte, and hands out a sentence if the byte completes one.
    /// What is handed out is framed: it opens with the start marker, holds no
    /// other delimiter and no carriage return, and fits the bound.
    pub fn feed(&mut self, byte: u8) -> (out: Option<CandidateSentence>)
        ensures
            final(self)@ == next_buffer(old(self)@, byte),
            match out {
                Some(sentence) => emission(old(self)@, byte) == Some(sentence@) && is_framed(
                    sentence@,
                ),
                None => emission(old(self)@, byte) is None,
            },
    {
        proof {
            use_type_invariant(&*self);
        }
        if byte == START_MARKER {
            self.buf[0] = byte;
            self.len = 1;
            assert(self@ == seq![START_MARKER]);
            None
        } else if byte == TERMINATOR {
            if self.len > 0 {
                let bytes = self.pending();
                self.len = 0;
                Some(CandidateSentence { bytes })
            } else {
                None
            }
        } else if byte == CARRIAGE_RETURN {
            None
        } else if self.len == 0 {
            None
        } else if self.len < MAX_SENTENCE_LEN {
            self.buf[self.len] = byte;
            self.len = self.len + 1;
            assert(self@ == old(self)@.push(byte));
            None
        } else {
            self.len = 0;
            None
        }
    }

    /// Consumes a chunk, byte by byte and in order, and hands out the
    /// sentences that its bytes complete, each of them framed. An empty
    /// chunk changes nothing.
    pub fn feed_chunk(&mut self, chunk: &[u8]) -> (out: Vec<CandidateSentence>)
        ensures
            final(self)@ == run_buffer(old(self)@, chunk@),
            sentence_views(out@) == run_emitted(old(self)@, chunk@),
            forall|k: int| 0 <= k < out@.len() ==> is_framed(#[trigger] out@[k]@),
    {
        let mut out: Vec<CandidateSentence> = Vec::new();
        let mut i: usize = 0;
        assert(sentence_views(out@) == Seq::<Seq<u8>>::empty());
        while i < chunk.len()
            invariant
                i <= chunk.len(),
                self@ == run_buffer(old(self)@, chunk@.take(i as int)),
                sentence_views(out@) == run_emitted(old(self)@, chunk@.take(i as int)),
                forall|k: int| 0 <= k < out@.len() ==> is_framed(#[trigger] out@[k]@),
            decreases chunk.len() - i,
        {
            let ghost earlier = out@;
            proof {
                lemma_byte_by_byte(old(self)@, chunk@, i as int);
            }
            match self.feed(chunk[i]) {
                Some(sentence) => {
                    out.push(sentence);
                    assert(sentence_views(out@) == sentence_views(earlier).push(sentence@));
                },
                None => {},
            }
            i += 1;
        }
        assert(chunk@.take(i as int) == chunk@);
        out
    }
}

} // verus!
