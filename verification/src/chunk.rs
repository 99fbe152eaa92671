//! A chunk: a length, a type, a payload and a checksum.

use crate::be::{
    be_bytes, be_value, lemma_be_bytes_of_value, lemma_be_value_of_bytes, u32_from_be_bytes,
    u32_to_be_bytes,
};
use crate::checksum::{checksum, crc32_iso_hdlc};
use crate::chunk_type::{codes_fault, is_upper, ChunkType, ChunkTypeError};
use crate::text::{bytes_as_text, text_of_bytes};
use vstd::prelude::*;
use vstd::slice::{slice_subrange, slice_to_vec};
use vstd::std_specs::convert::TryFromSpecImpl;

verus! {

/// Why bytes are no chunk, or a payload no text.
#[derive(Clone, Copy, Debug, PartialEq, Eq, Structural)]
pub enum ChunkError {
    /// The bytes end before a field does.
    Framing,
    /// The four type bytes are no valid chunk type.
    ChunkType(ChunkTypeError),
    /// The stored checksum is not the checksum of type and payload.
    Crc,
    /// A payload byte stands for no character. Every byte stands for one, so
    /// no function returns this.
    Encoding,
}

impl ChunkError {
    /// The text that describes the error.
    pub open spec fn message(self) -> Seq<char> {
        match self {
            ChunkError::Framing => "failed to fill whole buffer"@,
            ChunkError::ChunkType(_) => "Chunk type is wrong value."@,
            ChunkError::Crc => "CRC is wrong value."@,
            ChunkError::Encoding => "Chunk data is not text."@,
        }
    }

    /// Describes the error.
    pub fn to_string(&self) -> (s: String)
        ensures
            s@ == self.message(),
    {
        match self {
            ChunkError::Framing => "failed to fill whole buffer".to_owned(),
            ChunkError::ChunkType(_) => "Chunk type is wrong value.".to_owned(),
            ChunkError::Crc => "CRC is wrong value.".to_owned(),
            ChunkError::Encoding => "Chunk data is not text.".to_owned(),
        }
    }
}

/// What a chunk holds, as mathematical values.
pub struct ChunkView {
    pub length: u32,
    pub chunk_type: Seq<u8>,
    pub data: Seq<u8>,
    pub crc: u32,
}

impl ChunkView {
    /// The chunk of a type and a payload: its length is the payload's, its
    /// checksum that of type and payload.
    pub open spec fn make(chunk_type: Seq<u8>, data: Seq<u8>) -> ChunkView
        recommends
            data.len() <= u32::MAX,
    {
        ChunkView {
            length: data.len() as u32,
            chunk_type,
            data,
            crc: crc32_iso_hdlc(chunk_type + data),
        }
    }

    /// The fields agree: four type bytes, the payload's length, the checksum
    /// of type and payload.
    pub open spec fn wf(self) -> bool {
        &&& self.chunk_type.len() == 4
        &&& self.length == self.data.len()
        &&& self.crc == crc32_iso_hdlc(self.chunk_type + self.data)
    }

    /// The chunk on the wire: length, type, payload, checksum, the numbers
    /// big-endian.
    pub open spec fn encode(self) -> Seq<u8> {
        be_bytes(self.length) + self.chunk_type + self.data + be_bytes(self.crc)
    }
}

/// The chunk at the front of `bytes`, or why there is none. The fields are read
/// in order, each failing with `Framing` if the bytes end before it does; the
/// type is tested as soon as it is read, the checksum last. Bytes after the
/// checksum are not looked at.
pub open spec fn decode_chunk(bytes: Seq<u8>) -> Result<ChunkView, ChunkError> {
    if bytes.len() < 8 {
        Err(ChunkError::Framing)
    } else {
        let length = be_value(bytes.subrange(0, 4));
        let chunk_type = bytes.subrange(4, 8);
        match codes_fault(chunk_type) {
            Some(e) => Err(ChunkError::ChunkType(e)),
            None => if bytes.len() < 12 + length {
                Err(ChunkError::Framing)
            } else {
                let data = bytes.subrange(8, 8 + length);
                let crc = be_value(bytes.subrange(8 + length, 12 + length));
                if crc != crc32_iso_hdlc(chunk_type + data) {
                    Err(ChunkError::Crc)
                } else {
                    Ok(ChunkView { length, chunk_type, data, crc })
                }
            },
        }
    }
}

/// `b` with bit `k` inverted.
pub open spec fn flip_bit(b: u8, k: u8) -> u8
    recommends
        k < 8,
{
    b ^ (1u8 << k)
}

/// Inverting a bit changes the byte.
pub proof fn lemma_flip_bit_differs(b: u8, k: u8)
    requires
        k < 8,
    ensures
        flip_bit(b, k) != b,
{
    assert(b ^ (1u8 << k) != b) by (bit_vector)
        requires
            k < 8,
    ;
}

/// An encoded chunk is twelve bytes longer than its payload.
pub proof fn lemma_encode_len(c: ChunkView)
    requires
        c.wf(),
    ensures
        c.encode().len() == 12 + c.length,
{
    lemma_be_value_of_bytes(c.length);
    lemma_be_value_of_bytes(c.crc);
}

/// A well-formed chunk with a valid type is read back from its encoding,
/// whatever bytes follow it.
pub proof fn lemma_decode_of_encode(c: ChunkView, tail: Seq<u8>)
    requires
        c.wf(),
        codes_fault(c.chunk_type) is None,
    ensures
        decode_chunk(c.encode() + tail) == Ok::<ChunkView, ChunkError>(c),
{
    let bytes = c.encode() + tail;
    let n = c.length as int;
    lemma_be_value_of_bytes(c.length);
    lemma_be_value_of_bytes(c.crc);
    assert(bytes.subrange(0, 4) =~= be_bytes(c.length));
    assert(bytes.subrange(4, 8) =~= c.chunk_type);
    assert(bytes.subrange(8, 8 + n) =~= c.data);
    assert(bytes.subrange(8 + n, 12 + n) =~= be_bytes(c.crc));
}

/// Decoding the encoding of a fresh chunk gives the chunk back: the same
/// length, type, payload and checksum. The type must have a valid reserved
/// bit, for no other type is accepted on the wire.
pub proof fn lemma_chunk_round_trip(chunk_type: ChunkType, data: Seq<u8>)
    requires
        chunk_type.wf(),
        is_upper(chunk_type@[2]),
        data.len() <= u32::MAX,
    ensures
        decode_chunk(ChunkView::make(chunk_type@, data).encode()) == Ok::<ChunkView, ChunkError>(
            ChunkView::make(chunk_type@, data),
        ),
{
    let c = ChunkView::make(chunk_type@, data);
    lemma_decode_of_encode(c, Seq::empty());
    assert(c.encode() + Seq::<u8>::empty() =~= c.encode());
}

/// A chunk that was read from bytes encodes to the bytes it was read from:
/// the first `12 + length` of them.
pub proof fn lemma_encode_of_decode(bytes: Seq<u8>)
    requires
        decode_chunk(bytes) is Ok,
    ensures
        ({
            let c = decode_chunk(bytes)->Ok_0;
            &&& c.wf()
            &&& codes_fault(c.chunk_type) is None
            &&& 12 + c.length <= bytes.len()
            &&& c.encode() == bytes.take(12 + c.length)
        }),
{
    let c = decode_chunk(bytes)->Ok_0;
    let n = c.length as int;
    lemma_be_bytes_of_value(bytes.subrange(0, 4));
    lemma_be_bytes_of_value(bytes.subrange(8 + n, 12 + n));
    assert(c.encode() =~= bytes.take(12 + n));
}

/// Changing a byte of the checksum field of an encoded chunk makes decoding
/// fail with `Crc`.
pub proof fn lemma_checksum_damage_detected(c: ChunkView, i: int, b: u8)
    requires
        c.wf(),
        codes_fault(c.chunk_type) is None,
        8 + c.length <= i < 12 + c.length,
        b != c.encode()[i],
    ensures
        decode_chunk(c.encode().update(i, b)) == Err::<ChunkView, ChunkError>(ChunkError::Crc),
{
    let bytes = c.encode();
    let damaged = bytes.update(i, b);
    let n = c.length as int;
    lemma_be_value_of_bytes(c.length);
    lemma_be_value_of_bytes(c.crc);
    assert(damaged.subrange(0, 4) =~= be_bytes(c.length));
    assert(damaged.subrange(4, 8) =~= c.chunk_type);
    assert(damaged.subrange(8, 8 + n) =~= c.data);
    let field = damaged.subrange(8 + n, 12 + n);
    assert(bytes.subrange(8 + n, 12 + n) =~= be_bytes(c.crc));
    assert(field[i - 8 - n] == b);
    assert(be_bytes(c.crc)[i - 8 - n] == bytes[i]);
    lemma_be_bytes_of_value(field);
    if be_value(field) == c.crc {
        assert(be_bytes(be_value(field)) == be_bytes(c.crc));
        assert(false);
    }
}

/// Inverting one bit of the checksum field of an encoded chunk makes decoding
/// fail with `Crc`.
pub proof fn lemma_checksum_bit_flip_detected(c: ChunkView, i: int, k: u8)
    requires
        c.wf(),
        codes_fault(c.chunk_type) is None,
        8 + c.length <= i < 12 + c.length,
        k < 8,
    ensures
        decode_chunk(c.encode().update(i, flip_bit(c.encode()[i], k))) == Err::<
            ChunkView,
            ChunkError,
        >(ChunkError::Crc),
{
    lemma_flip_bit_differs(c.encode()[i], k);
    lemma_checksum_damage_detected(c, i, flip_bit(c.encode()[i], k));
}

/// Changing a byte of the payload of an encoded chunk, by inverting one of its
/// bits or otherwise, makes decoding fail with `Crc`, unless the damaged
/// payload has the checksum of the sound one: then the damaged payload is
/// read. No other error comes of it.
pub proof fn lemma_payload_damage(c: ChunkView, i: int, b: u8)
    requires
        c.wf(),
        codes_fault(c.chunk_type) is None,
        8 <= i < 8 + c.length,
    ensures
        ({
            let damaged = c.data.update(i - 8, b);
            decode_chunk(c.encode().update(i, b)) == if crc32_iso_hdlc(c.chunk_type + damaged)
                == c.crc {
                Ok::<ChunkView, ChunkError>(
                    ChunkView {
                        length: c.length,
                        chunk_type: c.chunk_type,
                        data: damaged,
                        crc: c.crc,
                    },
                )
            } else {
                Err::<ChunkView, ChunkError>(ChunkError::Crc)
            }
        }),
{
    let bytes = c.encode().update(i, b);
    let n = c.length as int;
    lemma_be_value_of_bytes(c.length);
    lemma_be_value_of_bytes(c.crc);
    assert(bytes.subrange(0, 4) =~= be_bytes(c.length));
    assert(bytes.subrange(4, 8) =~= c.chunk_type);
    assert(bytes.subrange(8, 8 + n) =~= c.data.update(i - 8, b));
    assert(bytes.subrange(8 + n, 12 + n) =~= be_bytes(c.crc));
}

/// Appends the bytes of `src` to `out`.
pub(crate) fn append_bytes(out: &mut Vec<u8>, src: &[u8])
    ensures
        final(out)@ == old(out)@ + src@,
{
    let mut i: usize = 0;
    while i < src.len()
        invariant
            0 <= i <= src@.len(),
            out@ == old(out)@ + src@.take(i as int),
        decreases src@.len() - i,
    {
        out.push(src[i]);
        assert(out@ =~= old(out)@ + src@.take(i + 1));
        i += 1;
    }
    assert(src@.take(i as int) =~= src@);
}

/// A chunk of the container.
#[derive(Debug)]
pub struct Chunk {
    length: u32,
    chunk_type: ChunkType,
    data: Vec<u8>,
    crc: u32,
}

impl View for Chunk {
    type V = ChunkView;

    closed spec fn view(&self) -> ChunkView {
        ChunkView {
            length: self.length,
            chunk_type: self.chunk_type@,
            data: self.data@,
            crc: self.crc,
        }
    }
}

impl Chunk {
    #[verifier::type_invariant]
    spec fn inv(self) -> bool {
        &&& self.chunk_type.wf()
        &&& self.length == self.data@.len()
        &&& self.crc == crc32_iso_hdlc(self.chunk_type@ + self.data@)
    }

    /// Makes the chunk of a type and a payload.
    pub fn new(chunk_type: ChunkType, data: Vec<u8>) -> (chunk: Chunk)
        requires
            data@.len() <= u32::MAX,
        ensures
            chunk@ == ChunkView::make(chunk_type@, data@),
            chunk@.wf(),
    {
        let length: u32 = data.len() as u32;
        let codes = chunk_type.bytes();
        let mut bytes: Vec<u8> = Vec::new();
        append_bytes(&mut bytes, codes.as_slice());
        append_bytes(&mut bytes, data.as_slice());
        let crc = checksum(bytes.as_slice());
        Chunk { length, chunk_type, data, crc }
    }

    /// The payload's length in bytes.
    pub fn length(&self) -> (length: u32)
        ensures
            length == self@.length,
            length == self@.data.len(),
    {
        proof {
            use_type_invariant(self);
        }
        self.length
    }

    /// The chunk's type.
    pub fn chunk_type(&self) -> (chunk_type: &ChunkType)
        ensures
            chunk_type@ == self@.chunk_type,
            chunk_type.wf(),
    {
        proof {
            use_type_invariant(self);
        }
        &self.chunk_type
    }

    /// The payload.
    pub fn data(&self) -> (data: &[u8])
        ensures
            data@ == self@.data,
    {
        self.data.as_slice()
    }

    /// The checksum of type and payload.
    pub fn crc(&self) -> (crc: u32)
        ensures
            crc == self@.crc,
            crc == crc32_iso_hdlc(self@.chunk_type + self@.data),
    {
        proof {
            use_type_invariant(self);
        }
        self.crc
    }

    /// The payload as text, one character per byte. Every byte is the number
    /// of a character, so this never fails.
    pub fn data_as_string(&self) -> (r: Result<String, ChunkError>)
        ensures
            r matches Ok(s) && s@ == bytes_as_text(self@.data),
    {
        Ok(text_of_bytes(self.data.as_slice()))
    }

    /// The chunk on the wire.
    pub fn as_bytes(&self) -> (bytes: Vec<u8>)
        ensures
            bytes@ == self@.encode(),
    {
        let length = u32_to_be_bytes(self.length);
        let chunk_type = self.chunk_type.bytes();
        let crc = u32_to_be_bytes(self.crc);
        let mut bytes: Vec<u8> = Vec::new();
        append_bytes(&mut bytes, length.as_slice());
        append_bytes(&mut bytes, chunk_type.as_slice());
        append_bytes(&mut bytes, self.data.as_slice());
        append_bytes(&mut bytes, crc.as_slice());
        bytes
    }
}

/// Two chunks with the same fields need not be the same value, for a `Vec` is
/// more than its elements. So `try_from` states its result over views, in its
/// own `ensures`, and promises nothing through `try_from_spec`.
impl<'a> TryFromSpecImpl<&'a [u8]> for Chunk {
    open spec fn obeys_try_from_spec() -> bool {
        false
    }

    open spec fn try_from_spec(value: &'a [u8]) -> Result<Self, ChunkError> {
        Err(ChunkError::Framing)
    }
}

impl<'a> TryFrom<&'a [u8]> for Chunk {
    type Error = ChunkError;

    /// Reads the chunk at the front of `value`.
    fn try_from(value: &'a [u8]) -> (r: Result<Chunk, ChunkError>)
        ensures
            match decode_chunk(value@) {
                Ok(c) => r matches Ok(chunk) && chunk@ == c && c.wf(),
                Err(e) => r == Err::<Chunk, ChunkError>(e),
            },
    {
        let n: usize = value.len();
        if n < 4 {
            return Err(ChunkError::Framing);
        }
        let length: u32 = u32_from_be_bytes(value);
        if n < 8 {
            return Err(ChunkError::Framing);
        }
        let codes: [u8; 4] = [value[4], value[5], value[6], value[7]];
        assert(codes@ =~= value@.subrange(4, 8));
        let chunk_type = match ChunkType::try_from(codes) {
            Ok(chunk_type) => chunk_type,
            Err(e) => {
                return Err(ChunkError::ChunkType(e));
            },
        };
        let len: usize = length as usize;
        if n - 8 < len {
            return Err(ChunkError::Framing);
        }
        let data: Vec<u8> = slice_to_vec(slice_subrange(value, 8, 8 + len));
        if n - 8 - len < 4 {
            return Err(ChunkError::Framing);
        }
        let crc: u32 = u32_from_be_bytes(slice_subrange(value, 8 + len, 12 + len));
        let sum: u32 = checksum(slice_subrange(value, 4, 8 + len));
        assert(value@.subrange(4, 8 + len) =~= value@.subrange(4, 8) + value@.subrange(8, 8 + len));
        assert(value@.subrange(8 + len, 12 + len).subrange(0, 4) =~= value@.subrange(
            8 + len,
            12 + len,
        ));
        if crc != sum {
            return Err(ChunkError::Crc);
        }
        Ok(Chunk { length, chunk_type, data, crc })
    }
}

} // verus!
