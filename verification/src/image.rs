//! The structural decoder: folds a chunk sequence into an image descriptor.
//! Header chunks overwrite the header fields, palette chunks append colour
//! triplets, image-data chunks append to one compressed stream that is
//! inflated once the sequence is exhausted, and every other chunk is skipped.

use crate::chunk::{Chunk, ChunkKind, ChunkView};
use crate::endian::{be_u32, read_be_u32};
use crate::error::DecodeError;
use crate::framer::chunk_views;
use crate::inflate::{zlib_inflate, zlib_inflated};
use vstd::prelude::*;

verus! {

/// The bytes of a header payload that the decoder reads.
pub const HEADER_LENGTH: usize = 11;

/// One palette entry: a red, green and blue sample.
#[derive(Clone, Copy, Debug, PartialEq, Eq, Structural)]
pub struct PalleteItem {
    pub red: u8,
    pub green: u8,
    pub blue: u8,
}

/// An image descriptor as a mathematical value.
pub struct ImageView {
    /// Width in pixels.
    pub width: nat,
    /// Height in pixels.
    pub height: nat,
    /// Bits per sample.
    pub bit_depth: u8,
    /// The channel layout.
    pub colour_type: u8,
    /// The compression method that the header names.
    pub compression_method: u8,
    /// The palette entries, in stream order.
    pub palette: Seq<PalleteItem>,
    /// The inflated image data.
    pub decompressed_data: Seq<u8>,
}

/// The descriptor before any chunk is folded in: zero fields, no palette,
/// no data.
pub open spec fn blank_image() -> ImageView {
    ImageView {
        width: 0,
        height: 0,
        bit_depth: 0,
        colour_type: 0,
        compression_method: 0,
        palette: Seq::empty(),
        decompressed_data: Seq::empty(),
    }
}

/// `image` with its header fields read from a header payload: width and
/// height as big-endian integers, then bit depth, colour type and
/// compression method, one byte each.
pub open spec fn with_header(image: ImageView, payload: Seq<u8>) -> ImageView
    recommends
        payload.len() >= 11,
{
    ImageView {
        width: be_u32(payload.subrange(0, 4)),
        height: be_u32(payload.subrange(4, 8)),
        bit_depth: payload[8],
        colour_type: payload[9],
        compression_method: payload[10],
        ..image
    }
}

/// The colour triplets of a palette payload, one for each full stride of
/// three bytes; one or two bytes left over at the end are dropped.
pub open spec fn triplets(payload: Seq<u8>) -> Seq<PalleteItem> {
    Seq::new(
        payload.len() / 3,
        |i: int|
            PalleteItem { red: payload[3 * i], green: payload[3 * i + 1], blue: payload[3 * i + 2] },
    )
}

/// A header chunk whose payload is too short to be read.
pub open spec fn is_short_header(chunk: ChunkView) -> bool {
    chunk.kind() == ChunkKind::Header && chunk.payload.len() < 11
}

/// Some header chunk of the sequence is too short to be read.
pub open spec fn has_short_header(chunks: Seq<ChunkView>) -> bool {
    exists|i: int| 0 <= i < chunks.len() && is_short_header(#[trigger] chunks[i])
}

/// The sequence holds an image-data chunk.
pub open spec fn has_data(chunks: Seq<ChunkView>) -> bool {
    exists|i: int| 0 <= i < chunks.len() && (#[trigger] chunks[i]).kind() == ChunkKind::Data
}

/// The header fields after the sequence: those of its last header chunk, or
/// zeros where it has none. Palette and data of the result are empty.
pub open spec fn header_of(chunks: Seq<ChunkView>) -> ImageView
    decreases chunks.len(),
{
    if chunks.len() == 0 {
        blank_image()
    } else if chunks.last().kind() == ChunkKind::Header {
        with_header(blank_image(), chunks.last().payload)
    } else {
        header_of(chunks.drop_last())
    }
}

/// The palette after the sequence: the triplets of its palette chunks, in
/// stream order.
pub open spec fn palette_of(chunks: Seq<ChunkView>) -> Seq<PalleteItem>
    decreases chunks.len(),
{
    if chunks.len() == 0 {
        Seq::empty()
    } else if chunks.last().kind() == ChunkKind::Palette {
        palette_of(chunks.drop_last()) + triplets(chunks.last().payload)
    } else {
        palette_of(chunks.drop_last())
    }
}

/// The compressed stream of the sequence: the payloads of its image-data
/// chunks, one after another in stream order.
pub open spec fn data_stream(chunks: Seq<ChunkView>) -> Seq<u8>
    decreases chunks.len(),
{
    if chunks.len() == 0 {
        Seq::empty()
    } else if chunks.last().kind() == ChunkKind::Data {
        data_stream(chunks.drop_last()) + chunks.last().payload
    } else {
        data_stream(chunks.drop_last())
    }
}

/// The descriptor after the header and palette chunks of the sequence, its
/// data still empty.
pub open spec fn described(chunks: Seq<ChunkView>) -> ImageView {
    ImageView {
        palette: palette_of(chunks),
        decompressed_data: Seq::empty(),
        ..header_of(chunks)
    }
}

/// `image` completed with the outcome of inflating its compressed stream.
pub open spec fn completed(image: ImageView, inflated: Option<Seq<u8>>) -> Result<
    ImageView,
    DecodeError,
> {
    match inflated {
        Some(bytes) => Ok(ImageView { decompressed_data: bytes, ..image }),
        None => Err(DecodeError::CorruptData),
    }
}

/// What a chunk sequence decodes to, given what its compressed stream
/// inflates to. A short header chunk fails the decode; so does a compressed
/// stream that does not inflate, when the sequence holds image data at all.
pub open spec fn decoded(chunks: Seq<ChunkView>, inflated: Option<Seq<u8>>) -> Result<
    ImageView,
    DecodeError,
> {
    if has_short_header(chunks) {
        Err(DecodeError::ShortHeader)
    } else if has_data(chunks) {
        completed(described(chunks), inflated)
    } else {
        Ok(described(chunks))
    }
}

/// The outcome of a decode as a mathematical value.
pub open spec fn outcome_view(outcome: Result<PngImage, DecodeError>) -> Result<
    ImageView,
    DecodeError,
> {
    match outcome {
        Ok(image) => Ok(image@),
        Err(e) => Err(e),
    }
}

/// The outcome of inflating as a mathematical value.
pub open spec fn inflated_view(inflated: Option<Vec<u8>>) -> Option<Seq<u8>> {
    match inflated {
        Some(bytes) => Some(bytes@),
        None => None,
    }
}

/// Folding one more chunk in: what `has_short_header`, `has_data`,
/// `described` and `data_stream` say of a sequence with `chunk` at its end,
/// in terms of what they say of the sequence before.
pub proof fn lemma_fold_step(chunks: Seq<ChunkView>, chunk: ChunkView)
    ensures
        has_short_header(chunks.push(chunk)) <==> has_short_header(chunks) || is_short_header(
            chunk,
        ),
        has_data(chunks.push(chunk)) <==> has_data(chunks) || chunk.kind() == ChunkKind::Data,
        described(chunks.push(chunk)) == match chunk.kind() {
            ChunkKind::Header => with_header(described(chunks), chunk.payload),
            ChunkKind::Palette => ImageView {
                palette: described(chunks).palette + triplets(chunk.payload),
                ..described(chunks)
            },
            _ => described(chunks),
        },
        data_stream(chunks.push(chunk)) == match chunk.kind() {
            ChunkKind::Data => data_stream(chunks) + chunk.payload,
            _ => data_stream(chunks),
        },
{
    let longer = chunks.push(chunk);
    assert(longer.drop_last() =~= chunks);
    assert(longer.last() == chunk);
    if has_short_header(chunks) {
        let i = choose|i: int| 0 <= i < chunks.len() && is_short_header(#[trigger] chunks[i]);
        assert(is_short_header(longer[i]));
    }
    if is_short_header(chunk) {
        assert(is_short_header(longer[chunks.len() as int]));
    }
    if has_short_header(longer) {
        let i = choose|i: int| 0 <= i < longer.len() && is_short_header(#[trigger] longer[i]);
        if i < chunks.len() {
            assert(is_short_header(chunks[i]));
        }
    }
    if has_data(chunks) {
        let i = choose|i: int|
            0 <= i < chunks.len() && (#[trigger] chunks[i]).kind() == ChunkKind::Data;
        assert(longer[i].kind() == ChunkKind::Data);
    }
    if chunk.kind() == ChunkKind::Data {
        assert(longer[chunks.len() as int].kind() == ChunkKind::Data);
    }
    if has_data(longer) {
        let i = choose|i: int|
            0 <= i < longer.len() && (#[trigger] longer[i]).kind() == ChunkKind::Data;
        if i < chunks.len() {
            assert(chunks[i].kind() == ChunkKind::Data);
        }
    }
}

/// Decoding law: a chunk of an unrecognised type, put anywhere into a
/// sequence, changes nothing: neither the compressed stream, nor the
/// description, nor whether the decode fails, nor what it yields.
pub proof fn lemma_unknown_chunk_ignored(
    chunks: Seq<ChunkView>,
    at: int,
    extra: ChunkView,
    inflated: Option<Seq<u8>>,
)
    requires
        0 <= at <= chunks.len(),
        extra.kind() == ChunkKind::Other,
    ensures
        data_stream(chunks.insert(at, extra)) == data_stream(chunks),
        described(chunks.insert(at, extra)) == described(chunks),
        has_data(chunks.insert(at, extra)) == has_data(chunks),
        has_short_header(chunks.insert(at, extra)) == has_short_header(chunks),
        decoded(chunks.insert(at, extra), inflated) == decoded(chunks, inflated),
        decoded(chunks.insert(at, extra), zlib_inflated(data_stream(chunks.insert(at, extra))))
            == decoded(chunks, zlib_inflated(data_stream(chunks))),
    decreases chunks.len(),
{
    if at == chunks.len() {
        assert(chunks.insert(at, extra) =~= chunks.push(extra));
        lemma_fold_step(chunks, extra);
    } else {
        let front = chunks.drop_last();
        let last = chunks.last();
        assert(chunks =~= front.push(last));
        assert(chunks.insert(at, extra) =~= front.insert(at, extra).push(last));
        lemma_unknown_chunk_ignored(front, at, extra, inflated);
        lemma_fold_step(front.insert(at, extra), last);
        lemma_fold_step(front, last);
    }
}

/// Decoding law: the compressed stream of two sequences, one after the
/// other, is the stream of the first followed by the stream of the second.
/// Image data may therefore be split between chunks at any byte.
pub proof fn lemma_data_stream_concat(front: Seq<ChunkView>, back: Seq<ChunkView>)
    ensures
        data_stream(front + back) == data_stream(front) + data_stream(back),
    decreases back.len(),
{
    if back.len() == 0 {
        assert(front + back =~= front);
        assert(data_stream(front) + data_stream(back) =~= data_stream(front));
    } else {
        let whole = front + back;
        assert(whole.drop_last() =~= front + back.drop_last());
        assert(whole.last() == back.last());
        lemma_data_stream_concat(front, back.drop_last());
        if back.last().kind() == ChunkKind::Data {
            assert(data_stream(front) + (data_stream(back.drop_last()) + back.last().payload)
                =~= (data_stream(front) + data_stream(back.drop_last())) + back.last().payload);
        }
    }
}

/// Decoding law: two image-data chunks decode to what the concatenation of
/// their payloads inflates to, and fail when it does not inflate.
pub proof fn lemma_split_stream(first: ChunkView, second: ChunkView)
    requires
        first.kind() == ChunkKind::Data,
        second.kind() == ChunkKind::Data,
    ensures
        data_stream(seq![first, second]) == first.payload + second.payload,
        decoded(seq![first, second], zlib_inflated(data_stream(seq![first, second])))
            == completed(blank_image(), zlib_inflated(first.payload + second.payload)),
{
    let none = Seq::<ChunkView>::empty();
    let one = none.push(first);
    let both = one.push(second);
    assert(both =~= seq![first, second]);
    lemma_fold_step(none, first);
    lemma_fold_step(one, second);
    assert(data_stream(both) =~= first.payload + second.payload);
    assert(!has_short_header(none));
    assert(described(none) == blank_image());
}

/// The image descriptor that decoding accumulates.
#[derive(Debug, PartialEq, Eq)]
pub struct PngImage {
    width: u32,
    height: u32,
    bit_depth: u8,
    colour_type: u8,
    compression_method: u8,
    pallete: Vec<PalleteItem>,
    decompressed_data: Vec<u8>,
}

impl View for PngImage {
    type V = ImageView;

    closed spec fn view(&self) -> ImageView {
        ImageView {
            width: self.width as nat,
            height: self.height as nat,
            bit_depth: self.bit_depth,
            colour_type: self.colour_type,
            compression_method: self.compression_method,
            palette: self.pallete@,
            decompressed_data: self.decompressed_data@,
        }
    }
}

impl Clone for PngImage {
    fn clone(&self) -> (copy: PngImage)
        ensures
            copy@ == self@,
    {
        PngImage {
            width: self.width,
            height: self.height,
            bit_depth: self.bit_depth,
            colour_type: self.colour_type,
            compression_method: self.compression_method,
            pallete: self.pallete.clone(),
            decompressed_data: self.decompressed_data.clone(),
        }
    }
}

impl PngImage {
    /// Decodes a chunk sequence into an image descriptor. Chunks are folded
    /// in stream order: a header chunk overwrites the header fields, a
    /// palette chunk appends its triplets, an image-data chunk appends its
    /// payload to the compressed stream, and any other chunk is skipped.
    /// When the sequence holds image data, the compressed stream is inflated
    /// at the end and becomes the data of the descriptor.
    ///
    /// Fails on the first header chunk that is too short, and on a
    /// compressed stream that does not inflate.
    pub fn new(chunks: Vec<Chunk>) -> (r: Result<PngImage, DecodeError>)
        ensures
            outcome_view(r) == decoded(
                chunk_views(chunks@),
                zlib_inflated(data_stream(chunk_views(chunks@))),
            ),
    {
        let ghost all = chunk_views(chunks@);
        let mut image = PngImage::empty();
        let mut stream: Vec<u8> = Vec::new();
        let mut seen_data = false;
        proof {
            assert(all.take(0) =~= Seq::<ChunkView>::empty());
        }
        for chunk in it: chunks
            invariant
                chunk_views(it.seq()) == all,
                !has_short_header(all.take(it.index() as int)),
                image@ == described(all.take(it.index() as int)),
                stream@ == data_stream(all.take(it.index() as int)),
                seen_data == has_data(all.take(it.index() as int)),
        {
            let ghost at = it.index() as int;
            proof {
                assert(all[at] == chunk@);
                assert(all.take(at + 1) =~= all.take(at).push(chunk@));
                lemma_fold_step(all.take(at), chunk@);
            }
            match chunk.kind() {
                ChunkKind::Header => {
                    match Self::parse_ihdr(chunk, &mut image) {
                        Ok(()) => {},
                        Err(e) => {
                            proof {
                                assert(is_short_header(all[at]));
                            }
                            return Err(e);
                        },
                    }
                },
                ChunkKind::Palette => {
                    Self::parse_plte(chunk, &mut image);
                },
                ChunkKind::Data => {
                    Self::parse_idat(chunk, &mut stream);
                    seen_data = true;
                },
                ChunkKind::Other => {},
            }
        }
        proof {
            assert(all.take(all.len() as int) =~= all);
        }
        if seen_data {
            let inflated = zlib_inflate(stream.as_slice());
            Self::with_inflated(image, inflated)
        } else {
            Ok(image)
        }
    }

    /// Width in pixels.
    pub fn width(&self) -> (width: u32)
        ensures
            width == self@.width,
    {
        self.width
    }

    /// Height in pixels.
    pub fn height(&self) -> (height: u32)
        ensures
            height == self@.height,
    {
        self.height
    }

    /// Bits per sample.
    pub fn bit_depth(&self) -> (bit_depth: u8)
        ensures
            bit_depth == self@.bit_depth,
    {
        self.bit_depth
    }

    /// The channel layout: 0 grey, 2 truecolour, 3 indexed, 4 grey with
    /// alpha, 6 truecolour with alpha.
    pub fn colour_type(&self) -> (colour_type: u8)
        ensures
            colour_type == self@.colour_type,
    {
        self.colour_type
    }

    /// The compression method that the header names.
    pub fn compression_method(&self) -> (method: u8)
        ensures
            method == self@.compression_method,
    {
        self.compression_method
    }

    /// The palette entries, in stream order.
    pub fn pallete(&self) -> (entries: &Vec<PalleteItem>)
        ensures
            entries@ == self@.palette,
    {
        &self.pallete
    }

    /// The inflated image data.
    pub fn decompressed_data(&self) -> (bytes: &Vec<u8>)
        ensures
            bytes@ == self@.decompressed_data,
    {
        &self.decompressed_data
    }

    /// The descriptor before any chunk is folded in.
    pub fn empty() -> (image: PngImage)
        ensures
            image@ == blank_image(),
    {
        PngImage {
            width: 0,
            height: 0,
            bit_depth: 0,
            colour_type: 0,
            compression_method: 0,
            pallete: Vec::new(),
            decompressed_data: Vec::new(),
        }
    }

    /// Interprets a header chunk: reads the header fields from its payload
    /// into `image`, over whatever an earlier header chunk left there. A
    /// payload of fewer than eleven bytes is refused and leaves `image` as
    /// it was.
    pub fn parse_ihdr(chunk: Chunk, image: &mut PngImage) -> (r: Result<(), DecodeError>)
        ensures
            chunk@.payload.len() >= 11 ==> r is Ok && final(image)@ == with_header(
                old(image)@,
                chunk@.payload,
            ),
            chunk@.payload.len() < 11 ==> r == Err::<(), DecodeError>(DecodeError::ShortHeader)
                && final(image)@ == old(image)@,
    {
        let payload: &Vec<u8> = chunk.data();
        if payload.len() < HEADER_LENGTH {
            return Err(DecodeError::ShortHeader);
        }
        image.width = read_be_u32(payload.as_slice(), 0);
        image.height = read_be_u32(payload.as_slice(), 4);
        image.bit_depth = payload[8];
        image.colour_type = payload[9];
        image.compression_method = payload[10];
        Ok(())
    }

    /// Interprets a palette chunk: appends one entry to the palette of
    /// `image` for each full triplet of the payload, and drops the one or
    /// two bytes that may be left over.
    pub fn parse_plte(chunk: Chunk, image: &mut PngImage)
        ensures
            final(image)@ == (ImageView {
                palette: old(image)@.palette + triplets(chunk@.payload),
                ..old(image)@
            }),
    {
        let payload: &Vec<u8> = chunk.data();
        let total: usize = payload.len();
        let ghost before = image.pallete@;
        let mut offset: usize = 0;
        while total - offset >= 3
            invariant
                total == payload@.len(),
                offset <= total,
                offset % 3 == 0,
                image.pallete@ == before + triplets(payload@).take(offset as int / 3),
                image.width == old(image).width,
                image.height == old(image).height,
                image.bit_depth == old(image).bit_depth,
                image.colour_type == old(image).colour_type,
                image.compression_method == old(image).compression_method,
                image.decompressed_data == old(image).decompressed_data,
            decreases total - offset,
        {
            image.pallete.push(
                PalleteItem {
                    red: payload[offset],
                    green: payload[offset + 1],
                    blue: payload[offset + 2],
                },
            );
            proof {
                let k = offset as int / 3;
                assert(offset == 3 * k);
                assert(k < payload@.len() / 3);
                assert(triplets(payload@).take(k + 1) =~= triplets(payload@).take(k).push(
                    triplets(payload@)[k],
                ));
                assert(image.pallete@ =~= before + triplets(payload@).take(k + 1));
            }
            offset = offset + 3;
        }
        proof {
            assert(offset as int / 3 == payload@.len() / 3);
            assert(triplets(payload@).take(offset as int / 3) =~= triplets(payload@));
        }
    }

    /// Interprets an image-data chunk: appends its payload to the
    /// compressed stream gathered so far. The stream is inflated as a whole
    /// once the last chunk has been seen, because a zlib stream may be split
    /// between chunks at any byte.
    pub fn parse_idat(chunk: Chunk, stream: &mut Vec<u8>)
        ensures
            final(stream)@ == old(stream)@ + chunk@.payload,
    {
        let payload: &Vec<u8> = chunk.data();
        stream.extend_from_slice(payload.as_slice());
        proof {
            assert(stream@ =~= old(stream)@ + chunk@.payload);
        }
    }

    /// Completes `image` with the outcome of inflating its compressed
    /// stream: the inflated bytes become its data, and a stream that did not
    /// inflate fails the decode.
    pub fn with_inflated(image: PngImage, inflated: Option<Vec<u8>>) -> (r: Result<
        PngImage,
        DecodeError,
    >)
        ensures
            outcome_view(r) == completed(image@, inflated_view(inflated)),
    {
        match inflated {
            Some(bytes) => {
                let mut done = image;
                done.decompressed_data = bytes;
                Ok(done)
            },
            None => Err(DecodeError::CorruptData),
        }
    }
}

} // verus!
