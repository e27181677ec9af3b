//! The sentence validator: what stands between framing and decoding.
//!
//! A candidate is accepted when it is non-empty, opens with the start marker
//! and holds printable ASCII only. A trailing checksum is neither required
//! nor verified.

use crate::framer::{is_framed, CandidateSentence, START_MARKER};
use vstd::prelude::*;

verus! {

/// Why a candidate was turned away.
#[derive(Debug, Clone, Copy, PartialEq, Eq)]
pub enum RejectReason {
    /// The candidate holds no bytes.
    Empty,
    /// The first byte is not the start marker.
    MissingStartMarker,
    /// Some byte lies outside printable ASCII.
    NonPrintable,
}

/// Printable ASCII: space up to and including tilde.
pub open spec fn is_printable(byte: u8) -> bool {
    0x20 <= byte <= 0x7E
}

/// Every byte of `bytes` is printable ASCII.
pub open spec fn all_printable(bytes: Seq<u8>) -> bool {
    forall|i: int| 0 <= i < bytes.len() ==> is_printable(#[trigger] bytes[i])
}

/// The reason for which `bytes` is rejected, if it is. The rules are tried in
/// the order of the variants of `RejectReason`, and the first that applies
/// gives the reason.
pub open spec fn rejection(bytes: Seq<u8>) -> Option<RejectReason> {
    if bytes.len() == 0 {
        Some(RejectReason::Empty)
    } else if bytes[0] != START_MARKER {
        Some(RejectReason::MissingStartMarker)
    } else if !all_printable(bytes) {
        Some(RejectReason::NonPrintable)
    } else {
        None
    }
}

/// What an accepted sentence is.
pub open spec fn is_valid(bytes: Seq<u8>) -> bool {
    bytes.len() > 0 && bytes[0] == START_MARKER && all_printable(bytes)
}

/// A sentence is accepted exactly when no rule rejects it.
pub proof fn lemma_valid_iff_not_rejected(bytes: Seq<u8>)
    ensures
        is_valid(bytes) <==> rejection(bytes) is None,
{
}

/// What the framer hands out is never empty and always opens with the start
/// marker, so the only reason to reject it is a non-printable byte.
pub proof fn lemma_framed_rejection(bytes: Seq<u8>)
    requires
        is_framed(bytes),
    ensures
        rejection(bytes) is None || rejection(bytes) == Some(RejectReason::NonPrintable),
{
}

/// A sentence that passed validation. It cannot be built in any other way.
#[derive(Debug, PartialEq, Eq)]
pub struct ValidSentence {
    bytes: Vec<u8>,
}

impl View for ValidSentence {
    type V = Seq<u8>;

    closed spec fn view(&self) -> Seq<u8> {
        self.bytes@
    }
}

impl ValidSentence {
    #[verifier::type_invariant]
    spec fn accepted(&self) -> bool {
        is_valid(self.bytes@)
    }

    /// The sentence's bytes: non-empty, printable, opening with `$`.
    pub fn as_bytes(&self) -> (out: &[u8])
        ensures
            out@ == self@,
            is_valid(out@),
    {
        proof {
            use_type_invariant(self);
        }
        self.bytes.as_slice()
    }

    /// The number of bytes in the sentence, which is at least one.
    pub fn len(&self) -> (out: usize)
        ensures
            out == self@.len(),
            out > 0,
    {
        proof {
            use_type_invariant(self);
        }
        self.bytes.len()
    }

    /// Gives the bytes back.
    pub fn into_bytes(self) -> (out: Vec<u8>)
        ensures
            out@ == self@,
            is_valid(out@),
    {
        proof {
            use_type_invariant(&self);
        }
        self.bytes
    }
}

/// Whether `byte` is printable ASCII.
pub fn is_printable_byte(byte: u8) -> (out: bool)
    ensures
        out == is_printable(byte),
{
    0x20 <= byte && byte <= 0x7E
}

/// Accepts or rejects a candidate. The accepted sentence holds the
/// candidate's bytes unchanged.
pub fn validate(candidate: CandidateSentence) -> (out: Result<ValidSentence, RejectReason>)
    ensures
        match out {
            Ok(sentence) => rejection(candidate@) is None && sentence@ == candidate@,
            Err(reason) => rejection(candidate@) == Some(reason),
        },
{
    let bytes = candidate.into_bytes();
    if bytes.len() == 0 {
        return Err(RejectReason::Empty);
    }
    if bytes[0] != START_MARKER {
        return Err(RejectReason::MissingStartMarker);
    }
    let mut i: usize = 0;
    while i < bytes.len()
        invariant
            i <= bytes.len(),
            bytes@ == candidate@,
            bytes@.len() > 0,
            bytes@[0] == START_MARKER,
            forall|k: int| 0 <= k < i ==> is_printable(#[trigger] bytes@[k]),
        decreases bytes.len() - i,
    {
        if !is_printable_byte(bytes[i]) {
            assert(!is_printable(bytes@[i as int]));
            return Err(RejectReason::NonPrintable);
        }
        i += 1;
    }
    Ok(ValidSentence { bytes })
}

} // verus!
