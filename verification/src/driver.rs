//! The decisions of the pull-driven loop around the pipeline.
//!
//! Whoever owns the transport fetches a chunk, wraps what happened in a
//! `TransportStatus` and calls `step`; `step` says whether to go on and what
//! to hand to the sink. Fetching and handing over happen outside.

use crate::decoder::{decode, decoded};
use crate::framer::{lemma_byte_by_byte, run_buffer, run_emitted, CandidateSentence, Framer};
use crate::record::{DecodeError, DecodedRecord};
use crate::validator::{rejection, validate, RejectReason, ValidSentence};
use vstd::prelude::*;

verus! {

/// What one fetch from the transport yielded.
#[derive(Debug, Clone, PartialEq, Eq)]
pub enum TransportStatus {
    /// Bytes arrived. The chunk may be of any length.
    Data(Vec<u8>),
    /// Nothing arrived within the wait.
    NoDataAvailable,
    /// The transport failed for good; the value is its error code.
    Error(i32),
}

/// What became of one framed sentence.
#[derive(Debug, PartialEq, Eq)]
pub enum Outcome {
    /// The sentence was accepted and decoded.
    Decoded { sentence: ValidSentence, record: DecodedRecord },
    /// The sentence was accepted, but is truncated.
    Undecodable { sentence: ValidSentence, error: DecodeError },
    /// The sentence was not accepted.
    Rejected { reason: RejectReason },
}

/// An `Outcome` with the sentence as a sequence of bytes.
pub enum OutcomeView {
    Decoded { sentence: Seq<u8>, record: DecodedRecord },
    Undecodable { sentence: Seq<u8>, error: DecodeError },
    Rejected { reason: RejectReason },
}

impl View for Outcome {
    type V = OutcomeView;

    open spec fn view(&self) -> OutcomeView {
        match *self {
            Outcome::Decoded { sentence, record } => OutcomeView::Decoded {
                sentence: sentence@,
                record,
            },
            Outcome::Undecodable { sentence, error } => OutcomeView::Undecodable {
                sentence: sentence@,
                error,
            },
            Outcome::Rejected { reason } => OutcomeView::Rejected { reason },
        }
    }
}

/// What the loop is to do next.
#[derive(Debug, PartialEq, Eq)]
pub enum Step {
    /// Hand these outcomes to the sink, in this order, and fetch again.
    Continue(Vec<Outcome>),
    /// Stop, and surface this transport error code.
    Stop(i32),
}

/// What becomes of the candidate `bytes`: validation first, then decoding.
pub open spec fn processed(bytes: Seq<u8>) -> OutcomeView {
    match rejection(bytes) {
        Some(reason) => OutcomeView::Rejected { reason },
        None => match decoded(bytes) {
            Ok(record) => OutcomeView::Decoded { sentence: bytes, record },
            Err(error) => OutcomeView::Undecodable { sentence: bytes, error },
        },
    }
}

/// The views of a run of outcomes.
pub open spec fn outcome_views(outcomes: Seq<Outcome>) -> Seq<OutcomeView> {
    outcomes.map_values(|o: Outcome| o@)
}

/// What becomes of each of `sentences`, in order.
pub open spec fn processed_all(sentences: Seq<Seq<u8>>) -> Seq<OutcomeView> {
    sentences.map_values(|bytes: Seq<u8>| processed(bytes))
}

/// Validates a candidate and decodes it if it is accepted.
pub fn process(candidate: CandidateSentence) -> (out: Outcome)
    ensures
        out@ == processed(candidate@),
{
    match validate(candidate) {
        Err(reason) => Outcome::Rejected { reason },
        Ok(sentence) => match decode(&sentence) {
            Ok(record) => Outcome::Decoded { sentence, record },
            Err(error) => Outcome::Undecodable { sentence, error },
        },
    }
}

/// One turn of the loop. Data is fed to the framer byte by byte, to the end
/// of the chunk, and every sentence that comes out is validated and
/// decoded. No data changes nothing. A transport error changes nothing and
/// stops the loop.
pub fn step(framer: &mut Framer, status: TransportStatus) -> (out: Step)
    ensures
        match status {
            TransportStatus::Data(chunk) => {
                &&& final(framer)@ == run_buffer(old(framer)@, chunk@)
                &&& out matches Step::Continue(outcomes)
                &&& outcome_views(outcomes@) == processed_all(run_emitted(old(framer)@, chunk@))
            },
            TransportStatus::NoDataAvailable => {
                &&& final(framer)@ == old(framer)@
                &&& out matches Step::Continue(outcomes)
                &&& outcomes@.len() == 0
            },
            TransportStatus::Error(code) => {
                &&& final(framer)@ == old(framer)@
                &&& out == Step::Stop(code)
            },
        },
{
    match status {
        TransportStatus::Error(code) => Step::Stop(code),
        TransportStatus::NoDataAvailable => Step::Continue(Vec::new()),
        TransportStatus::Data(chunk) => {
            let mut outcomes: Vec<Outcome> = Vec::new();
            let mut i: usize = 0;
            assert(outcome_views(outcomes@) == processed_all(Seq::<Seq<u8>>::empty()));
            while i < chunk.len()
                invariant
                    i <= chunk.len(),
                    framer@ == run_buffer(old(framer)@, chunk@.take(i as int)),
                    outcome_views(outcomes@) == processed_all(
                        run_emitted(old(framer)@, chunk@.take(i as int)),
                    ),
                decreases chunk.len() - i,
            {
                let ghost earlier = outcomes@;
                let ghost emitted = run_emitted(old(framer)@, chunk@.take(i as int));
                proof {
                    lemma_byte_by_byte(old(framer)@, chunk@, i as int);
                }
                match framer.feed(chunk[i]) {
                    Some(candidate) => {
                        let ghost bytes = candidate@;
                        let outcome = process(candidate);
                        outcomes.push(outcome);
                        assert(outcome_views(outcomes@) == outcome_views(earlier).push(
                            processed(bytes),
                        ));
                        assert(processed_all(emitted.push(bytes)) == processed_all(emitted).push(
                            processed(bytes),
                        ));
                    },
                    None => {},
                }
                i += 1;
            }
            assert(chunk@.take(i as int) == chunk@);
            Step::Continue(outcomes)
        },
    }
}

} // verus!
