//! Cutting a sentence into its comma-delimited fields.
//!
//! The payload of a sentence is everything before the first `*`; what
//! follows is the optional checksum, which decoding ignores. The payload's
//! fields are the stretches between its commas, so a payload with `n` commas
//! has `n + 1` fields, some of which may be empty.

use vstd::prelude::*;
use vstd::slice::slice_subrange;

verus! {

/// `,`, which separates fields.
pub const FIELD_DELIMITER: u8 = 0x2C;

/// `*`, which introduces the checksum.
pub const CHECKSUM_MARKER: u8 = 0x2A;

/// The index of the first `byte` in `bytes`, or the length of `bytes` if it
/// holds none.
pub open spec fn position(bytes: Seq<u8>, byte: u8) -> int
    decreases bytes.len(),
{
    if bytes.len() == 0 || bytes[0] == byte {
        0
    } else {
        1 + position(bytes.skip(1), byte)
    }
}

/// The part of a sentence that carries fields: everything before the first
/// checksum marker, or all of it where there is none.
pub open spec fn payload(sentence: Seq<u8>) -> Seq<u8> {
    sentence.take(position(sentence, CHECKSUM_MARKER))
}

/// The fields of `bytes`: the stretches between its delimiters, in order.
pub open spec fn fields(bytes: Seq<u8>) -> Seq<Seq<u8>>
    decreases bytes.len(),
{
    if bytes.len() == 0 {
        seq![Seq::empty()]
    } else {
        let earlier = fields(bytes.drop_last());
        if bytes.last() == FIELD_DELIMITER {
            earlier.push(Seq::empty())
        } else {
            earlier.drop_last().push(earlier.last().push(bytes.last()))
        }
    }
}

/// The fields put back together, with a delimiter between neighbours.
pub open spec fn rejoin(parts: Seq<Seq<u8>>) -> Seq<u8>
    decreases parts.len(),
{
    if parts.len() == 0 {
        Seq::empty()
    } else if parts.len() == 1 {
        parts[0]
    } else {
        rejoin(parts.drop_last()).push(FIELD_DELIMITER) + parts.last()
    }
}

/// No byte of `bytes` is a field delimiter.
pub open spec fn delimiter_free(bytes: Seq<u8>) -> bool {
    forall|i: int| 0 <= i < bytes.len() ==> #[trigger] bytes[i] != FIELD_DELIMITER
}

/// `position` finds the first occurrence and nothing else does.
pub proof fn lemma_position(bytes: Seq<u8>, byte: u8, at: int)
    requires
        0 <= at <= bytes.len(),
        at < bytes.len() ==> bytes[at] == byte,
        forall|j: int| 0 <= j < at ==> #[trigger] bytes[j] != byte,
    ensures
        position(bytes, byte) == at,
    decreases at,
{
    if at > 0 {
        let rest = bytes.skip(1);
        assert(bytes[0] != byte);
        assert forall|j: int| 0 <= j < at - 1 implies #[trigger] rest[j] != byte by {
            assert(rest[j] == bytes[j + 1]);
        }
        lemma_position(rest, byte, at - 1);
    }
}

/// `position` stays within the sequence, points at `byte` unless it points
/// past the end, and skips no earlier `byte`.
pub proof fn lemma_position_is_first(bytes: Seq<u8>, byte: u8)
    ensures
        0 <= position(bytes, byte) <= bytes.len(),
        position(bytes, byte) < bytes.len() ==> bytes[position(bytes, byte)] == byte,
        forall|j: int| 0 <= j < position(bytes, byte) ==> #[trigger] bytes[j] != byte,
    decreases bytes.len(),
{
    if bytes.len() > 0 && bytes[0] != byte {
        let rest = bytes.skip(1);
        lemma_position_is_first(rest, byte);
        assert forall|j: int| 0 <= j < position(bytes, byte) implies #[trigger] bytes[j]
            != byte by {
            if j > 0 {
                assert(rest[j - 1] == bytes[j]);
            }
        }
    }
}

/// There is always a first field, and no field holds a delimiter.
pub proof fn lemma_fields_shape(bytes: Seq<u8>)
    ensures
        fields(bytes).len() >= 1,
        forall|k: int| 0 <= k < fields(bytes).len() ==> delimiter_free(#[trigger] fields(bytes)[k]),
    decreases bytes.len(),
{
    if bytes.len() > 0 {
        let earlier = fields(bytes.drop_last());
        lemma_fields_shape(bytes.drop_last());
        assert forall|k: int| 0 <= k < fields(bytes).len() implies delimiter_free(
            #[trigger] fields(bytes)[k],
        ) by {
            if k < earlier.len() - 1 {
                assert(fields(bytes)[k] == earlier[k]);
            } else if bytes.last() != FIELD_DELIMITER {
                assert(delimiter_free(earlier[earlier.len() - 1]));
            }
        }
    }
}

/// Splitting loses nothing: the fields joined by delimiters are the bytes
/// that were split. Together with `lemma_fields_shape` this pins `fields`
/// down.
pub proof fn lemma_fields_rejoin(bytes: Seq<u8>)
    ensures
        rejoin(fields(bytes)) == bytes,
    decreases bytes.len(),
{
    if bytes.len() > 0 {
        let before = bytes.drop_last();
        let earlier = fields(before);
        lemma_fields_rejoin(before);
        lemma_fields_shape(before);
        assert(bytes == before.push(bytes.last()));
        if bytes.last() == FIELD_DELIMITER {
            let all = earlier.push(Seq::empty());
            assert(all.drop_last() == earlier);
            assert(rejoin(all) == rejoin(earlier).push(FIELD_DELIMITER) + Seq::<u8>::empty());
        } else {
            let grown = earlier.last().push(bytes.last());
            let all = earlier.drop_last().push(grown);
            assert(all.drop_last() == earlier.drop_last());
            if earlier.len() > 1 {
                assert(rejoin(all) == rejoin(earlier.drop_last()).push(FIELD_DELIMITER) + grown);
                assert(rejoin(earlier.drop_last()).push(FIELD_DELIMITER) + grown == (rejoin(
                    earlier.drop_last(),
                ).push(FIELD_DELIMITER) + earlier.last()).push(bytes.last()));
            }
        }
    }
}

/// Finds the first `byte` in `bytes`.
pub fn find_byte(bytes: &[u8], byte: u8) -> (at: usize)
    ensures
        at == position(bytes@, byte),
        at <= bytes@.len(),
        at < bytes@.len() ==> bytes@[at as int] == byte,
        forall|j: int| 0 <= j < at ==> #[trigger] bytes@[j] != byte,
{
    let mut i: usize = 0;
    while i < bytes.len() && bytes[i] != byte
        invariant
            i <= bytes.len(),
            forall|j: int| 0 <= j < i ==> #[trigger] bytes@[j] != byte,
        decreases bytes.len() - i,
    {
        i += 1;
    }
    proof {
        lemma_position(bytes@, byte, i as int);
    }
    i
}

/// Cuts `bytes` at its delimiters. The fields borrow from `bytes`.
pub fn split_fields<'a>(bytes: &'a [u8]) -> (out: Vec<&'a [u8]>)
    ensures
        out@.len() == fields(bytes@).len(),
        out@.len() >= 1,
        forall|k: int| 0 <= k < out@.len() ==> (#[trigger] out@[k])@ == fields(bytes@)[k],
{
    let mut out: Vec<&'a [u8]> = Vec::new();
    let mut start: usize = 0;
    let mut i: usize = 0;
    assert(bytes@.take(0) == Seq::<u8>::empty());
    assert(bytes@.subrange(0, 0) == Seq::<u8>::empty());
    while i < bytes.len()
        invariant
            start <= i <= bytes.len(),
            fields(bytes@.take(i as int)).len() == out@.len() + 1,
            forall|k: int|
                0 <= k < out@.len() ==> (#[trigger] out@[k])@ == fields(bytes@.take(i as int))[k],
            fields(bytes@.take(i as int)).last() == bytes@.subrange(start as int, i as int),
        decreases bytes.len() - i,
    {
        let ghost before = fields(bytes@.take(i as int));
        proof {
            assert(bytes@.take(i + 1).drop_last() == bytes@.take(i as int));
            assert(bytes@.take(i + 1).last() == bytes@[i as int]);
        }
        if bytes[i] == FIELD_DELIMITER {
            out.push(slice_subrange(bytes, start, i));
            start = i + 1;
            proof {
                assert(bytes@.subrange(start as int, i + 1) == Seq::<u8>::empty());
            }
        } else {
            proof {
                assert(bytes@.subrange(start as int, i + 1) == bytes@.subrange(
                    start as int,
                    i as int,
                ).push(bytes@[i as int]));
            }
        }
        i += 1;
    }
    proof {
        assert(bytes@.take(i as int) == bytes@);
    }
    out.push(slice_subrange(bytes, start, i));
    out
}

} // verus!
