//! The container: a signature and a sequence of chunks.

use crate::chunk::{
    append_bytes, decode_chunk, lemma_decode_of_encode, lemma_encode_len, lemma_encode_of_decode,
    Chunk, ChunkError, ChunkView,
};
use crate::chunk_type::codes_fault;
use crate::text::bytes_as_text;
use vstd::prelude::*;
use vstd::slice::slice_subrange;
use vstd::std_specs::convert::TryFromSpecImpl;

verus! {

/// Why bytes are no container, or a container has no such chunk.
#[derive(Clone, Copy, Debug, PartialEq, Eq, Structural)]
pub enum PngError {
    /// The bytes do not start with the signature.
    Signature,
    /// A chunk could not be read.
    Chunk(ChunkError),
    /// No chunk has the type asked for.
    NotFound,
}

impl PngError {
    /// The text that describes the error: for a chunk's error, the chunk's
    /// own text.
    pub open spec fn message(self) -> Seq<char> {
        match self {
            PngError::Signature => "Signature is wrong value."@,
            PngError::Chunk(e) => e.message(),
            PngError::NotFound => "Chunk type is not found."@,
        }
    }

    /// Describes the error.
    pub fn to_string(&self) -> (s: String)
        ensures
            s@ == self.message(),
    {
        match self {
            PngError::Signature => "Signature is wrong value.".to_owned(),
            PngError::Chunk(e) => e.to_string(),
            PngError::NotFound => "Chunk type is not found.".to_owned(),
        }
    }
}

/// The eight bytes that every container starts with.
pub open spec fn signature() -> Seq<u8> {
    seq![137u8, 80u8, 78u8, 71u8, 13u8, 10u8, 26u8, 10u8]
}

/// The views of the chunks of a sequence, in order.
pub open spec fn chunk_views(chunks: Seq<Chunk>) -> Seq<ChunkView> {
    Seq::new(chunks.len(), |i: int| chunks[i]@)
}

/// The encodings of the chunks, one after the other.
pub open spec fn encode_chunks(chunks: Seq<ChunkView>) -> Seq<u8>
    decreases chunks.len(),
{
    if chunks.len() == 0 {
        Seq::empty()
    } else {
        chunks[0].encode() + encode_chunks(chunks.skip(1))
    }
}

/// The container on the wire: the signature, then the chunks.
pub open spec fn encode_png(chunks: Seq<ChunkView>) -> Seq<u8> {
    signature() + encode_chunks(chunks)
}

/// The chunks that `bytes` hold from their first byte to their last, or the
/// error of the first chunk that cannot be read.
pub open spec fn decode_chunks(bytes: Seq<u8>) -> Result<Seq<ChunkView>, ChunkError>
    decreases bytes.len(),
{
    if bytes.len() == 0 {
        Ok(Seq::empty())
    } else {
        match decode_chunk(bytes) {
            Err(e) => Err(e),
            Ok(c) => match decode_chunks(bytes.skip(12 + c.length)) {
                Err(e) => Err(e),
                Ok(rest) => Ok(seq![c] + rest),
            },
        }
    }
}

/// The chunks of the container that `bytes` hold, or why they hold none.
pub open spec fn decode_png(bytes: Seq<u8>) -> Result<Seq<ChunkView>, PngError> {
    if bytes.len() < 8 || bytes.take(8) != signature() {
        Err(PngError::Signature)
    } else {
        match decode_chunks(bytes.skip(8)) {
            Ok(chunks) => Ok(chunks),
            Err(e) => Err(PngError::Chunk(e)),
        }
    }
}

/// The chunk's type, read as text, is `name`.
pub open spec fn has_type(c: ChunkView, name: Seq<char>) -> bool {
    bytes_as_text(c.chunk_type) == name
}

/// `i` is the place of the first chunk of type `name`.
pub open spec fn first_of_type(chunks: Seq<ChunkView>, name: Seq<char>, i: int) -> bool {
    &&& 0 <= i < chunks.len()
    &&& has_type(chunks[i], name)
    &&& forall|j: int| 0 <= j < i ==> !has_type(#[trigger] chunks[j], name)
}

/// The place of the first chunk of type `name`, if there is one.
pub open spec fn find_type(chunks: Seq<ChunkView>, name: Seq<char>) -> Option<int> {
    if exists|i: int| first_of_type(chunks, name, i) {
        Some(choose|i: int| first_of_type(chunks, name, i))
    } else {
        None
    }
}

/// `find_type` gives the first chunk of the type, and gives none exactly when
/// no chunk has the type.
pub proof fn lemma_find_type(chunks: Seq<ChunkView>, name: Seq<char>)
    ensures
        match find_type(chunks, name) {
            Some(i) => first_of_type(chunks, name, i),
            None => forall|j: int| 0 <= j < chunks.len() ==> !has_type(#[trigger] chunks[j], name),
        },
        forall|i: int| first_of_type(chunks, name, i) ==> find_type(chunks, name) == Some(i),
{
    if find_type(chunks, name) is None {
        assert forall|j: int| 0 <= j < chunks.len() implies !has_type(
            #[trigger] chunks[j],
            name,
        ) by {
            if has_type(chunks[j], name) {
                lemma_first_exists(chunks, name, j);
            }
        }
    }
    assert forall|i: int| first_of_type(chunks, name, i) implies find_type(chunks, name) == Some(
        i,
    ) by {
        let k = choose|k: int| first_of_type(chunks, name, k);
        if k < i {
            assert(!has_type(chunks[k], name));
        }
        if i < k {
            assert(!has_type(chunks[i], name));
        }
    }
}

/// Where a chunk has the type, a first such chunk exists.
proof fn lemma_first_exists(chunks: Seq<ChunkView>, name: Seq<char>, j: int)
    requires
        0 <= j < chunks.len(),
        has_type(chunks[j], name),
    ensures
        exists|i: int| first_of_type(chunks, name, i),
    decreases j,
{
    if exists|k: int| 0 <= k < j && has_type(chunks[k], name) {
        let k = choose|k: int| 0 <= k < j && has_type(chunks[k], name);
        lemma_first_exists(chunks, name, k);
    } else {
        assert(first_of_type(chunks, name, j));
    }
}

/// Encoding one more chunk appends its encoding.
pub proof fn lemma_encode_chunks_push(chunks: Seq<ChunkView>, c: ChunkView)
    ensures
        encode_chunks(chunks.push(c)) == encode_chunks(chunks) + c.encode(),
    decreases chunks.len(),
{
    if chunks.len() == 0 {
        assert(chunks.push(c).skip(1) =~= Seq::<ChunkView>::empty());
        assert(encode_chunks(chunks) =~= Seq::<u8>::empty());
        assert(encode_chunks(chunks.push(c).skip(1)) =~= Seq::<u8>::empty());
        assert(encode_chunks(chunks.push(c)) =~= c.encode());
    } else {
        lemma_encode_chunks_push(chunks.skip(1), c);
        assert(chunks.push(c).skip(1) =~= chunks.skip(1).push(c));
        assert(encode_chunks(chunks.push(c)) =~= encode_chunks(chunks) + c.encode());
    }
}

/// Chunks that are well formed and of valid type are read back from their
/// encodings, in order.
pub proof fn lemma_decode_of_encode_chunks(chunks: Seq<ChunkView>)
    requires
        forall|i: int|
            0 <= i < chunks.len() ==> (#[trigger] chunks[i]).wf() && codes_fault(
                chunks[i].chunk_type,
            ) is None,
    ensures
        decode_chunks(encode_chunks(chunks)) == Ok::<Seq<ChunkView>, ChunkError>(chunks),
    decreases chunks.len(),
{
    if chunks.len() == 0 {
        assert(chunks =~= Seq::<ChunkView>::empty());
    } else {
        let c = chunks[0];
        let rest = chunks.skip(1);
        let tail = encode_chunks(rest);
        assert(c.wf());
        assert forall|i: int| 0 <= i < rest.len() implies (#[trigger] rest[i]).wf() && codes_fault(
            rest[i].chunk_type,
        ) is None by {
            assert(rest[i] == chunks[i + 1]);
        }
        lemma_decode_of_encode(c, tail);
        lemma_decode_of_encode_chunks(rest);
        let bytes = c.encode() + tail;
        lemma_encode_len(c);
        assert(bytes.skip(12 + c.length) =~= tail);
        assert(seq![c] + rest =~= chunks);
    }
}

/// Decoding the encoding of a container gives its chunks back, in order,
/// provided each is well formed and of valid type.
pub proof fn lemma_png_round_trip(chunks: Seq<ChunkView>)
    requires
        forall|i: int|
            0 <= i < chunks.len() ==> (#[trigger] chunks[i]).wf() && codes_fault(
                chunks[i].chunk_type,
            ) is None,
    ensures
        decode_png(encode_png(chunks)) == Ok::<Seq<ChunkView>, PngError>(chunks),
{
    let bytes = encode_png(chunks);
    lemma_decode_of_encode_chunks(chunks);
    assert(bytes.take(8) =~= signature());
    assert(bytes.skip(8) =~= encode_chunks(chunks));
}

/// Chunks that were read from bytes encode to those bytes.
pub proof fn lemma_encode_of_decode_chunks(bytes: Seq<u8>)
    requires
        decode_chunks(bytes) is Ok,
    ensures
        encode_chunks(decode_chunks(bytes)->Ok_0) == bytes,
    decreases bytes.len(),
{
    if bytes.len() > 0 {
        let c = decode_chunk(bytes)->Ok_0;
        let tail = bytes.skip(12 + c.length);
        lemma_encode_of_decode(bytes);
        lemma_encode_of_decode_chunks(tail);
        let rest = decode_chunks(tail)->Ok_0;
        assert((seq![c] + rest).skip(1) =~= rest);
        assert(bytes.take(12 + c.length) + tail =~= bytes);
    }
}

/// A container that was read from bytes encodes to those bytes.
pub proof fn lemma_png_encode_of_decode(bytes: Seq<u8>)
    requires
        decode_png(bytes) is Ok,
    ensures
        encode_png(decode_png(bytes)->Ok_0) == bytes,
{
    lemma_encode_of_decode_chunks(bytes.skip(8));
    assert(bytes.take(8) + bytes.skip(8) =~= bytes);
}

/// What decoding gives when `done` was read before and `rest` is what the
/// bytes that are left decode to.
spec fn after(done: Seq<ChunkView>, rest: Result<Seq<ChunkView>, ChunkError>) -> Result<
    Seq<ChunkView>,
    ChunkError,
> {
    match rest {
        Ok(more) => Ok(done + more),
        Err(e) => Err(e),
    }
}

/// A container: chunks in the order in which they were read or appended.
#[derive(Debug)]
pub struct Png {
    chunks: Vec<Chunk>,
}

impl View for Png {
    type V = Seq<ChunkView>;

    closed spec fn view(&self) -> Seq<ChunkView> {
        chunk_views(self.chunks@)
    }
}

impl Png {
    /// The signature.
    pub fn header() -> (bytes: [u8; 8])
        ensures
            bytes@ == signature(),
    {
        let bytes: [u8; 8] = [137, 80, 78, 71, 13, 10, 26, 10];
        assert(bytes@ =~= signature());
        bytes
    }

    /// The container that holds `chunks`, in their order.
    pub fn from_chunks(chunks: Vec<Chunk>) -> (png: Png)
        ensures
            png@ == chunk_views(chunks@),
    {
        Png { chunks }
    }

    /// Adds `chunk` after the chunks that are there.
    pub fn append_chunk(&mut self, chunk: Chunk)
        ensures
            final(self)@ == old(self)@.push(chunk@),
    {
        self.chunks.push(chunk);
        assert(self@ =~= old(self)@.push(chunk@));
    }

    /// The place of the first chunk whose type reads `chunk_type`.
    fn position(&self, chunk_type: &str) -> (r: Option<usize>)
        ensures
            match r {
                Some(i) => find_type(self@, chunk_type@) == Some(i as int) && i < self@.len(),
                None => find_type(self@, chunk_type@) is None,
            },
    {
        let wanted: String = chunk_type.to_owned();
        let mut i: usize = 0;
        while i < self.chunks.len()
            invariant
                0 <= i <= self.chunks@.len(),
                wanted@ == chunk_type@,
                forall|j: int| 0 <= j < i ==> !has_type(#[trigger] self@[j], chunk_type@),
            decreases self.chunks@.len() - i,
        {
            let name: String = self.chunks[i].chunk_type().to_string();
            if name == wanted {
                proof {
                    assert(has_type(self@[i as int], chunk_type@));
                    assert(first_of_type(self@, chunk_type@, i as int));
                    lemma_find_type(self@, chunk_type@);
                }
                return Some(i);
            }
            i += 1;
        }
        proof {
            lemma_find_type(self@, chunk_type@);
        }
        None
    }

    /// Takes out the first chunk whose type reads `chunk_type` and returns it;
    /// later chunks of that type stay. Where no chunk has the type, the call
    /// fails with `NotFound` and the container stays as it is.
    pub fn remove_chunk(&mut self, chunk_type: &str) -> (r: Result<Chunk, PngError>)
        ensures
            match find_type(old(self)@, chunk_type@) {
                Some(i) => r matches Ok(chunk) && chunk@ == old(self)@[i] && final(self)@ == old(
                    self,
                )@.remove(i),
                None => r == Err::<Chunk, PngError>(PngError::NotFound) && final(self)@ == old(
                    self,
                )@,
            },
            (forall|j: int|
                0 <= j < old(self)@.len() ==> !has_type(#[trigger] old(self)@[j], chunk_type@))
                ==> r == Err::<Chunk, PngError>(PngError::NotFound) && final(self)@ == old(self)@,
    {
        proof {
            lemma_find_type(self@, chunk_type@);
        }
        match self.position(chunk_type) {
            Some(i) => {
                let chunk = self.chunks.remove(i);
                assert(self@ =~= old(self)@.remove(i as int));
                Ok(chunk)
            },
            None => Err(PngError::NotFound),
        }
    }

    /// The first chunk whose type reads `chunk_type`.
    pub fn chunk_by_type(&self, chunk_type: &str) -> (r: Option<&Chunk>)
        ensures
            match find_type(self@, chunk_type@) {
                Some(i) => r matches Some(chunk) && chunk@ == self@[i],
                None => r is None,
            },
    {
        match self.position(chunk_type) {
            Some(i) => Some(&self.chunks[i]),
            None => None,
        }
    }

    /// The chunks, in order.
    pub fn chunks(&self) -> (chunks: &[Chunk])
        ensures
            chunk_views(chunks@) == self@,
    {
        self.chunks.as_slice()
    }

    /// The container on the wire.
    pub fn as_bytes(&self) -> (bytes: Vec<u8>)
        ensures
            bytes@ == encode_png(self@),
    {
        let header = Png::header();
        let mut bytes: Vec<u8> = Vec::new();
        append_bytes(&mut bytes, header.as_slice());
        let mut i: usize = 0;
        while i < self.chunks.len()
            invariant
                0 <= i <= self.chunks@.len(),
                bytes@ == signature() + encode_chunks(self@.take(i as int)),
            decreases self.chunks@.len() - i,
        {
            let encoded = self.chunks[i].as_bytes();
            append_bytes(&mut bytes, encoded.as_slice());
            proof {
                lemma_encode_chunks_push(self@.take(i as int), self@[i as int]);
                assert(self@.take(i as int).push(self@[i as int]) =~= self@.take(i + 1));
                assert(bytes@ =~= signature() + encode_chunks(self@.take(i + 1)));
            }
            i += 1;
        }
        assert(self@.take(i as int) =~= self@);
        bytes
    }
}

/// Two containers with the same chunks need not be the same value, so
/// `try_from` states its result over views, in its own `ensures`, and promises
/// nothing through `try_from_spec`.
impl<'a> TryFromSpecImpl<&'a [u8]> for Png {
    open spec fn obeys_try_from_spec() -> bool {
        false
    }

    open spec fn try_from_spec(value: &'a [u8]) -> Result<Self, PngError> {
        Err(PngError::Signature)
    }
}

impl<'a> TryFrom<&'a [u8]> for Png {
    type Error = PngError;

    /// Reads a container: the signature, then chunks up to the last byte. The
    /// first chunk that cannot be read fails the whole.
    fn try_from(value: &'a [u8]) -> (r: Result<Png, PngError>)
        ensures
            match decode_png(value@) {
                Ok(chunks) => r matches Ok(png) && png@ == chunks,
                Err(e) => r == Err::<Png, PngError>(e),
            },
    {
        let n: usize = value.len();
        if n < 8 {
            return Err(PngError::Signature);
        }
        let header = Png::header();
        let mut k: usize = 0;
        while k < 8
            invariant
                0 <= k <= 8 <= n == value@.len(),
                header@ == signature(),
                forall|j: int| 0 <= j < k ==> value@[j] == signature()[j],
            decreases 8 - k,
        {
            if value[k] != header[k] {
                assert(value@.take(8)[k as int] != signature()[k as int]);
                return Err(PngError::Signature);
            }
            k += 1;
        }
        assert(value@.take(8) =~= signature());
        let mut chunks: Vec<Chunk> = Vec::new();
        let mut pos: usize = 8;
        assert(after(chunk_views(chunks@), decode_chunks(value@.skip(8))) == decode_chunks(
            value@.skip(8),
        )) by {
            assert(chunk_views(chunks@) =~= Seq::<ChunkView>::empty());
            if decode_chunks(value@.skip(8)) is Ok {
                assert(chunk_views(chunks@) + decode_chunks(value@.skip(8))->Ok_0
                    =~= decode_chunks(value@.skip(8))->Ok_0);
            }
        }
        while pos < n
            invariant
                8 <= pos <= n == value@.len(),
                value@.take(8) == signature(),
                after(chunk_views(chunks@), decode_chunks(value@.skip(pos as int)))
                    == decode_chunks(value@.skip(8)),
            decreases n - pos,
        {
            let rest = slice_subrange(value, pos, n);
            assert(rest@ =~= value@.skip(pos as int));
            match Chunk::try_from(rest) {
                Err(e) => {
                    assert(decode_chunks(rest@) == Err::<Seq<ChunkView>, ChunkError>(e));
                    return Err(PngError::Chunk(e));
                },
                Ok(chunk) => {
                    let len: usize = chunk.length() as usize;
                    proof {
                        let c = chunk@;
                        let tail = decode_chunks(rest@.skip(12 + c.length));
                        lemma_encode_of_decode(rest@);
                        assert(rest@.skip(12 + c.length) =~= value@.skip(pos + 12 + len));
                        if tail is Ok {
                            assert(chunk_views(chunks@) + (seq![c] + tail->Ok_0) =~= chunk_views(
                                chunks@.push(chunk),
                            ) + tail->Ok_0);
                        }
                    }
                    pos = pos + 12 + len;
                    chunks.push(chunk);
                },
            }
        }
        assert(value@.skip(pos as int) =~= Seq::<u8>::empty());
        assert(chunk_views(chunks@) + Seq::<ChunkView>::empty() =~= chunk_views(chunks@));
        Ok(Png { chunks })
    }
}

} // verus!
