//! One chunk record of the container and its wire layout:
//! a big-endian payload length, a four-byte type code, the payload, and a
//! four-byte checksum.

use crate::endian::{be_u32, be_u32_bytes, read_be_u32};
use crate::error::FramingError;
use vstd::prelude::*;
use vstd::slice::{slice_subrange, slice_to_vec};

verus! {

/// The bytes of a record besides its payload: length, type code and checksum.
pub const RECORD_OVERHEAD: usize = 12;

/// What the decoder does with a chunk, decided by its type code alone.
#[derive(Clone, Copy, Debug, PartialEq, Eq, Structural)]
pub enum ChunkKind {
    /// `IHDR`: image dimensions and pixel format.
    Header,
    /// `PLTE`: the palette of an indexed-colour image.
    Palette,
    /// `IDAT`: a piece of the compressed image data.
    Data,
    /// Any other type code; such a chunk has no structural effect.
    Other,
}

/// The type code `IHDR`.
pub open spec fn header_code() -> Seq<u8> {
    seq![0x49u8, 0x48u8, 0x44u8, 0x52u8]
}

/// The type code `PLTE`.
pub open spec fn palette_code() -> Seq<u8> {
    seq![0x50u8, 0x4cu8, 0x54u8, 0x45u8]
}

/// The type code `IDAT`.
pub open spec fn data_code() -> Seq<u8> {
    seq![0x49u8, 0x44u8, 0x41u8, 0x54u8]
}

/// The kind of a chunk with the given type code, by exact byte equality.
pub open spec fn kind_of(type_code: Seq<u8>) -> ChunkKind {
    if type_code == header_code() {
        ChunkKind::Header
    } else if type_code == palette_code() {
        ChunkKind::Palette
    } else if type_code == data_code() {
        ChunkKind::Data
    } else {
        ChunkKind::Other
    }
}

/// A chunk as a mathematical value.
pub struct ChunkView {
    /// The payload length that the record declares.
    pub length: nat,
    /// The four bytes of the type code.
    pub type_code: Seq<u8>,
    /// The payload.
    pub payload: Seq<u8>,
    /// The four trailing bytes, kept as they came.
    pub checksum: Seq<u8>,
}

impl ChunkView {
    /// The declared length is that of the payload and fits the length field;
    /// type code and checksum have four bytes each.
    pub open spec fn wf(self) -> bool {
        &&& self.length == self.payload.len()
        &&& self.length <= u32::MAX
        &&& self.type_code.len() == 4
        &&& self.checksum.len() == 4
    }

    /// The record that spells this chunk on the wire.
    pub open spec fn record(self) -> Seq<u8> {
        be_u32_bytes(self.length) + self.type_code + self.payload + self.checksum
    }

    /// The kind of this chunk.
    pub open spec fn kind(self) -> ChunkKind {
        kind_of(self.type_code)
    }
}

/// The payload length that the first four bytes of a record declare.
pub open spec fn declared_length(bytes: Seq<u8>) -> nat
    recommends
        bytes.len() >= 4,
{
    be_u32(bytes.subrange(0, 4))
}

/// The fields of a record: the declared length, bytes 4 to 8 as the type
/// code, the last four bytes as the checksum, and what lies between as the
/// payload.
pub open spec fn record_fields(bytes: Seq<u8>) -> ChunkView
    recommends
        bytes.len() >= 12,
{
    ChunkView {
        length: declared_length(bytes),
        type_code: bytes.subrange(4, 8),
        payload: bytes.subrange(8, bytes.len() - 4),
        checksum: bytes.subrange(bytes.len() - 4, bytes.len() as int),
    }
}

/// The chunk that a byte sequence spells when it is taken as exactly one
/// record: its fields, provided that the declared length accounts for every
/// byte.
pub open spec fn chunk_of_record(bytes: Seq<u8>) -> Result<ChunkView, FramingError> {
    if bytes.len() < 12 {
        Err(FramingError::PartialRecord)
    } else if declared_length(bytes) + 12 != bytes.len() {
        Err(FramingError::LengthMismatch)
    } else {
        Ok(record_fields(bytes))
    }
}

/// One record of the stream: declared length, type code, payload and checksum.
#[derive(Debug, PartialEq, Eq)]
pub struct Chunk {
    length: u32,
    chunk_type: [u8; 4],
    data: Vec<u8>,
    crc: [u8; 4],
}

impl View for Chunk {
    type V = ChunkView;

    closed spec fn view(&self) -> ChunkView {
        ChunkView {
            length: self.length as nat,
            type_code: self.chunk_type@,
            payload: self.data@,
            checksum: self.crc@,
        }
    }
}

impl Clone for Chunk {
    fn clone(&self) -> (copy: Chunk)
        ensures
            copy@ == self@,
    {
        proof {
            use_type_invariant(self);
        }
        Chunk {
            length: self.length,
            chunk_type: self.chunk_type,
            data: self.data.clone(),
            crc: self.crc,
        }
    }
}

impl Chunk {
    #[verifier::type_invariant]
    spec fn payload_has_declared_length(self) -> bool {
        self.data@.len() == self.length
    }

    /// The payload length that the record declared.
    pub fn length(&self) -> (length: u32)
        ensures
            length == self@.length,
            length == self@.payload.len(),
    {
        proof {
            use_type_invariant(self);
        }
        self.length
    }

    /// The four bytes of the type code.
    pub fn chunk_type(&self) -> (code: [u8; 4])
        ensures
            code@ == self@.type_code,
    {
        self.chunk_type
    }

    /// The payload.
    pub fn data(&self) -> (payload: &Vec<u8>)
        ensures
            payload@ == self@.payload,
            payload@.len() == self@.length,
    {
        proof {
            use_type_invariant(self);
        }
        &self.data
    }

    /// The four checksum bytes, as they came.
    pub fn crc(&self) -> (checksum: [u8; 4])
        ensures
            checksum@ == self@.checksum,
    {
        self.crc
    }

    /// What the decoder does with this chunk.
    pub fn kind(&self) -> (kind: ChunkKind)
        ensures
            kind == self@.kind(),
    {
        let code: &[u8; 4] = &self.chunk_type;
        let kind = if code[0] == 0x49 && code[1] == 0x48 && code[2] == 0x44 && code[3] == 0x52 {
            ChunkKind::Header
        } else if code[0] == 0x50 && code[1] == 0x4c && code[2] == 0x54 && code[3] == 0x45 {
            ChunkKind::Palette
        } else if code[0] == 0x49 && code[1] == 0x44 && code[2] == 0x41 && code[3] == 0x54 {
            ChunkKind::Data
        } else {
            ChunkKind::Other
        };
        proof {
            let t = self@.type_code;
            assert(t.len() == 4);
            assert(t == header_code() <==> (t[0] == 0x49 && t[1] == 0x48 && t[2] == 0x44 && t[3]
                == 0x52)) by {
                if t[0] == 0x49 && t[1] == 0x48 && t[2] == 0x44 && t[3] == 0x52 {
                    assert(t =~= header_code());
                }
            }
            assert(t == palette_code() <==> (t[0] == 0x50 && t[1] == 0x4c && t[2] == 0x54 && t[3]
                == 0x45)) by {
                if t[0] == 0x50 && t[1] == 0x4c && t[2] == 0x54 && t[3] == 0x45 {
                    assert(t =~= palette_code());
                }
            }
            assert(t == data_code() <==> (t[0] == 0x49 && t[1] == 0x44 && t[2] == 0x41 && t[3]
                == 0x54)) by {
                if t[0] == 0x49 && t[1] == 0x44 && t[2] == 0x41 && t[3] == 0x54 {
                    assert(t =~= data_code());
                }
            }
        }
        kind
    }

    /// Builds the chunk that `chunk_data` spells when it is exactly one
    /// record; fails when it is shorter than a record can be or when its
    /// declared length does not account for every byte.
    pub fn new(chunk_data: &[u8]) -> (r: Result<Chunk, FramingError>)
        ensures
            match r {
                Ok(chunk) => chunk_of_record(chunk_data@) == Ok::<ChunkView, FramingError>(chunk@)
                    && chunk@.wf(),
                Err(e) => chunk_of_record(chunk_data@) == Err::<ChunkView, FramingError>(e),
            },
    {
        let total: usize = chunk_data.len();
        if total < RECORD_OVERHEAD {
            return Err(FramingError::PartialRecord);
        }
        let length: u32 = read_be_u32(chunk_data, 0);
        if length as usize != total - RECORD_OVERHEAD {
            return Err(FramingError::LengthMismatch);
        }
        let chunk_type: [u8; 4] = [chunk_data[4], chunk_data[5], chunk_data[6], chunk_data[7]];
        let data: Vec<u8> = slice_to_vec(slice_subrange(chunk_data, 8, total - 4));
        let crc: [u8; 4] = [
            chunk_data[total - 4],
            chunk_data[total - 3],
            chunk_data[total - 2],
            chunk_data[total - 1],
        ];
        proof {
            assert(chunk_type@ =~= chunk_data@.subrange(4, 8));
            assert(crc@ =~= chunk_data@.subrange(total - 4, total as int));
        }
        Ok(Chunk { length, chunk_type, data, crc })
    }
}

} // verus!
