//! The chunk framer: splits a flat buffer into chunk records by their
//! self-describing length prefixes, with no knowledge of what a chunk means.

use crate::chunk::{
    chunk_of_record, declared_length, record_fields, Chunk, ChunkView, RECORD_OVERHEAD,
};
use crate::endian::{
    be_u32_bytes, lemma_be_u32_bytes_of_value, lemma_be_u32_of_bytes, read_be_u32,
};
use crate::error::FramingError;
use vstd::prelude::*;
use vstd::slice::slice_subrange;

verus! {

/// The chunks of a vector, as mathematical values and in the same order.
pub open spec fn chunk_views(chunks: Seq<Chunk>) -> Seq<ChunkView> {
    Seq::new(chunks.len(), |i: int| chunks[i]@)
}

/// `found` put in front of what the rest of the buffer framed to; a failure
/// in the rest is the failure of the whole.
pub open spec fn prepend(found: Seq<ChunkView>, rest: Result<Seq<ChunkView>, FramingError>)
    -> Result<Seq<ChunkView>, FramingError> {
    match rest {
        Ok(more) => Ok(found + more),
        Err(e) => Err(e),
    }
}

/// The chunk sequence that a buffer spells: the empty buffer spells no
/// chunk; otherwise the first record is sized by its own length field and the
/// rest of the buffer spells the rest of the sequence. The buffer is
/// malformed when fewer than twelve bytes remain where a record starts, or
/// when a declared length reaches past the end of the buffer.
pub open spec fn frame(buffer: Seq<u8>) -> Result<Seq<ChunkView>, FramingError>
    decreases buffer.len(),
{
    if buffer.len() == 0 {
        Ok(Seq::empty())
    } else if buffer.len() < 12 {
        Err(FramingError::PartialRecord)
    } else {
        let size = declared_length(buffer) + 12;
        if size > buffer.len() {
            Err(FramingError::LengthMismatch)
        } else {
            prepend(
                seq![record_fields(buffer.subrange(0, size as int))],
                frame(buffer.subrange(size as int, buffer.len() as int)),
            )
        }
    }
}

/// The buffer that spells a chunk sequence: the records one after another.
pub open spec fn records_of(chunks: Seq<ChunkView>) -> Seq<u8>
    decreases chunks.len(),
{
    if chunks.len() == 0 {
        Seq::empty()
    } else {
        chunks[0].record() + records_of(chunks.skip(1))
    }
}

/// Every chunk of the sequence is well formed.
pub open spec fn all_wf(chunks: Seq<ChunkView>) -> bool {
    forall|i: int| 0 <= i < chunks.len() ==> (#[trigger] chunks[i]).wf()
}

/// Reading the record of a well-formed chunk gives the chunk back.
pub proof fn lemma_record_round_trip(chunk: ChunkView)
    requires
        chunk.wf(),
    ensures
        chunk.record().len() == chunk.length + 12,
        chunk.record().subrange(4, 8) == chunk.type_code,
        chunk_of_record(chunk.record()) == Ok::<ChunkView, FramingError>(chunk),
{
    let bytes = chunk.record();
    lemma_be_u32_of_bytes(chunk.length);
    assert(bytes.subrange(0, 4) =~= be_u32_bytes(chunk.length));
    assert(bytes.subrange(4, 8) =~= chunk.type_code);
    assert(bytes.subrange(8, bytes.len() - 4) =~= chunk.payload);
    assert(bytes.subrange(bytes.len() - 4, bytes.len() as int) =~= chunk.checksum);
}

/// A byte sequence that reads as one record is the record of the chunk read
/// from it, and that chunk is well formed.
pub proof fn lemma_chunk_of_record_sound(bytes: Seq<u8>)
    requires
        chunk_of_record(bytes) is Ok,
    ensures
        chunk_of_record(bytes)->Ok_0.wf(),
        chunk_of_record(bytes)->Ok_0.record() == bytes,
{
    let chunk = chunk_of_record(bytes)->Ok_0;
    lemma_be_u32_bytes_of_value(bytes.subrange(0, 4));
    assert(chunk.record() =~= bytes);
}

/// A buffer that starts with the record of a well-formed chunk frames to
/// that chunk followed by whatever the rest of the buffer frames to.
pub proof fn lemma_frame_after_record(chunk: ChunkView, tail: Seq<u8>)
    requires
        chunk.wf(),
    ensures
        frame(chunk.record() + tail) == prepend(seq![chunk], frame(tail)),
{
    let buffer = chunk.record() + tail;
    let size = chunk.length + 12;
    lemma_record_round_trip(chunk);
    lemma_be_u32_of_bytes(chunk.length);
    assert(buffer.subrange(0, 4) =~= chunk.record().subrange(0, 4));
    assert(chunk.record().subrange(0, 4) =~= be_u32_bytes(chunk.length));
    assert(declared_length(buffer) == chunk.length);
    assert(buffer.subrange(0, size as int) =~= chunk.record());
    assert(buffer.subrange(size as int, buffer.len() as int) =~= tail);
}

/// A buffer that starts with the records of well-formed chunks frames to
/// those chunks followed by whatever the rest of the buffer frames to.
pub proof fn lemma_frame_after_records(chunks: Seq<ChunkView>, tail: Seq<u8>)
    requires
        all_wf(chunks),
    ensures
        frame(records_of(chunks) + tail) == prepend(chunks, frame(tail)),
    decreases chunks.len(),
{
    if chunks.len() == 0 {
        assert(records_of(chunks) + tail =~= tail);
        match frame(tail) {
            Ok(more) => {
                assert(chunks + more =~= more);
            },
            Err(_) => {},
        }
    } else {
        let first = chunks[0];
        let others = chunks.skip(1);
        assert(first.wf());
        assert(all_wf(others)) by {
            assert forall|i: int| 0 <= i < others.len() implies (#[trigger] others[i]).wf() by {
                assert(others[i] == chunks[i + 1]);
            }
        }
        lemma_frame_after_records(others, tail);
        lemma_frame_after_record(first, records_of(others) + tail);
        assert(records_of(chunks) + tail =~= first.record() + (records_of(others) + tail));
        match frame(tail) {
            Ok(more) => {
                assert(seq![first] + (others + more) =~= chunks + more);
            },
            Err(_) => {},
        }
    }
}

/// Framing law: the concatenation of the records of any well-formed chunks
/// frames to exactly those chunks, in their order.
pub proof fn lemma_frame_of_records(chunks: Seq<ChunkView>)
    requires
        all_wf(chunks),
    ensures
        frame(records_of(chunks)) == Ok::<Seq<ChunkView>, FramingError>(chunks),
{
    lemma_frame_after_records(chunks, Seq::empty());
    assert(records_of(chunks) + Seq::<u8>::empty() =~= records_of(chunks));
    assert(chunks + Seq::<ChunkView>::empty() =~= chunks);
}

/// Framing law, the other way round: a buffer that frames to a chunk
/// sequence is the concatenation of the records of those chunks, and each of
/// them is well formed.
pub proof fn lemma_frame_sound(buffer: Seq<u8>)
    requires
        frame(buffer) is Ok,
    ensures
        all_wf(frame(buffer)->Ok_0),
        records_of(frame(buffer)->Ok_0) == buffer,
    decreases buffer.len(),
{
    let chunks = frame(buffer)->Ok_0;
    if buffer.len() == 0 {
        assert(records_of(chunks) =~= buffer);
    } else {
        let size = declared_length(buffer) + 12;
        let head = buffer.subrange(0, size as int);
        let tail = buffer.subrange(size as int, buffer.len() as int);
        let first = record_fields(head);
        assert(frame(buffer) == prepend(seq![first], frame(tail)));
        lemma_frame_sound(tail);
        let others = frame(tail)->Ok_0;
        assert(chunks == seq![first] + others);
        assert(chunks[0] == first);
        assert(chunks.skip(1) =~= others);
        assert(first.wf() && first.record() == head) by {
            assert(head.subrange(0, 4) =~= buffer.subrange(0, 4));
            lemma_chunk_of_record_sound(head);
        }
        assert(records_of(chunks) == head + records_of(others));
        assert(head + tail =~= buffer);
        assert forall|i: int| 0 <= i < chunks.len() implies (#[trigger] chunks[i]).wf() by {
            if i > 0 {
                assert(chunks[i] == others[i - 1]);
            }
        }
    }
}

/// The record of `chunk` with the last `cut` bytes of its payload left out,
/// the length field still declaring the full payload.
pub open spec fn truncated_record(chunk: ChunkView, cut: nat) -> Seq<u8>
    recommends
        cut <= chunk.payload.len(),
{
    be_u32_bytes(chunk.length) + chunk.type_code + chunk.payload.take(chunk.payload.len() - cut)
        + chunk.checksum
}

/// Framing law: when the payload of the final record loses one byte or
/// more, the buffer does not frame at all, whatever well-formed records stand
/// before it.
pub proof fn lemma_truncated_final_record(chunks: Seq<ChunkView>, last: ChunkView, cut: nat)
    requires
        all_wf(chunks),
        last.wf(),
        1 <= cut <= last.payload.len(),
    ensures
        frame(records_of(chunks) + truncated_record(last, cut)) == Err::<
            Seq<ChunkView>,
            FramingError,
        >(FramingError::LengthMismatch),
{
    let tail = truncated_record(last, cut);
    lemma_be_u32_of_bytes(last.length);
    assert(tail.len() == last.length + 12 - cut);
    assert(tail.subrange(0, 4) =~= be_u32_bytes(last.length));
    assert(declared_length(tail) == last.length);
    lemma_frame_after_records(chunks, tail);
}

/// Framing law: a buffer that ends inside its final record does not frame,
/// whatever well-formed records stand before that one. With fewer than
/// twelve bytes of the final record left it is a partial record; with more,
/// its declared length reaches past the end.
pub proof fn lemma_cut_final_record(chunks: Seq<ChunkView>, last: ChunkView, keep: nat)
    requires
        all_wf(chunks),
        last.wf(),
        0 < keep < last.record().len(),
    ensures
        frame(records_of(chunks) + last.record().take(keep as int)) == Err::<
            Seq<ChunkView>,
            FramingError,
        >(if keep < 12 {
            FramingError::PartialRecord
        } else {
            FramingError::LengthMismatch
        }),
{
    let tail = last.record().take(keep as int);
    lemma_record_round_trip(last);
    lemma_be_u32_of_bytes(last.length);
    if keep >= 12 {
        assert(tail.subrange(0, 4) =~= be_u32_bytes(last.length));
        assert(declared_length(tail) == last.length);
    }
    lemma_frame_after_records(chunks, tail);
}

/// Splits `image_data`, the file body after the signature, into its chunks.
/// Succeeds exactly when the buffer is a concatenation of records, and then
/// returns the chunks in stream order; no partial sequence is returned.
pub fn parse_chunks(image_data: &[u8]) -> (r: Result<Vec<Chunk>, FramingError>)
    ensures
        match r {
            Ok(chunks) => frame(image_data@) == Ok::<Seq<ChunkView>, FramingError>(
                chunk_views(chunks@),
            ) && all_wf(chunk_views(chunks@)),
            Err(e) => frame(image_data@) == Err::<Seq<ChunkView>, FramingError>(e),
        },
{
    let total: usize = image_data.len();
    let mut chunks: Vec<Chunk> = Vec::new();
    let mut cursor: usize = 0;
    proof {
        assert(image_data@.subrange(0, total as int) =~= image_data@);
        match frame(image_data@) {
            Ok(more) => {
                assert(chunk_views(chunks@) + more =~= more);
            },
            Err(_) => {},
        }
    }
    while cursor < total
        invariant
            total == image_data@.len(),
            cursor <= total,
            all_wf(chunk_views(chunks@)),
            frame(image_data@) == prepend(
                chunk_views(chunks@),
                frame(image_data@.subrange(cursor as int, total as int)),
            ),
        decreases total - cursor,
    {
        let ghost rest = image_data@.subrange(cursor as int, total as int);
        let ghost found = chunk_views(chunks@);
        if total - cursor < RECORD_OVERHEAD {
            return Err(FramingError::PartialRecord);
        }
        let length: u32 = read_be_u32(image_data, cursor);
        proof {
            assert(rest.subrange(0, 4) =~= image_data@.subrange(cursor as int, cursor + 4));
        }
        if length as usize > total - cursor - RECORD_OVERHEAD {
            return Err(FramingError::LengthMismatch);
        }
        let end: usize = cursor + RECORD_OVERHEAD + length as usize;
        let record: &[u8] = slice_subrange(image_data, cursor, end);
        proof {
            assert(rest.subrange(0, length + 12) =~= record@);
            assert(rest.subrange(length + 12, rest.len() as int) =~= image_data@.subrange(
                end as int,
                total as int,
            ));
            assert(record@.subrange(0, 4) =~= rest.subrange(0, 4));
        }
        match Chunk::new(record) {
            Ok(chunk) => {
                chunks.push(chunk);
                proof {
                    assert(chunk_views(chunks@) =~= found.push(chunk@));
                    match frame(image_data@.subrange(end as int, total as int)) {
                        Ok(more) => {
                            assert(found + (seq![chunk@] + more) =~= found.push(chunk@) + more);
                        },
                        Err(_) => {},
                    }
                }
            },
            Err(e) => {
                return Err(e);
            },
        }
        cursor = end;
    }
    proof {
        assert(image_data@.subrange(cursor as int, total as int) =~= Seq::<u8>::empty());
        assert(chunk_views(chunks@) + Seq::<ChunkView>::empty() =~= chunk_views(chunks@));
    }
    Ok(chunks)
}

} // verus!
