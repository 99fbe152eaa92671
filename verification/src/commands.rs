//! The four commands, from the bytes of a file to the bytes or texts that
//! come of it. Reading and writing the file is the caller's part.

use crate::chunk::{Chunk, ChunkView};
use crate::chunk_type::ChunkType;
use crate::png::{chunk_views, decode_png, encode_png, find_type, Png, PngError};
use crate::text::{bytes_as_text, text_of_bytes};
use vstd::prelude::*;
use vstd::string::*;

verus! {

/// The type names of `chunks`, in order.
pub open spec fn type_names(chunks: Seq<ChunkView>) -> Seq<Seq<char>> {
    Seq::new(chunks.len(), |i: int| bytes_as_text(chunks[i].chunk_type))
}

/// The texts of `names`, in order.
pub open spec fn texts(names: Seq<String>) -> Seq<Seq<char>> {
    Seq::new(names.len(), |i: int| names[i]@)
}

/// Hides `message` in the container `input`: the container with one more
/// chunk at its end, of type `chunk_type`, whose payload is the message in
/// UTF-8.
pub fn encode(input: &[u8], chunk_type: ChunkType, message: &str) -> (r: Result<Vec<u8>, PngError>)
    requires
        message.spec_bytes().len() <= u32::MAX,
    ensures
        match decode_png(input@) {
            Ok(chunks) => r matches Ok(output) && output@ == encode_png(
                chunks.push(ChunkView::make(chunk_type@, message.spec_bytes())),
            ),
            Err(e) => r == Err::<Vec<u8>, PngError>(e),
        },
{
    let mut png = match Png::try_from(input) {
        Ok(png) => png,
        Err(e) => {
            return Err(e);
        },
    };
    let chunk = Chunk::new(chunk_type, message.as_bytes_vec());
    png.append_chunk(chunk);
    Ok(png.as_bytes())
}

/// The message hidden in the container `input` under `chunk_type`: the payload
/// of the first chunk of that type, as text, or nothing where no chunk has the
/// type.
pub fn decode(input: &[u8], chunk_type: &ChunkType) -> (r: Result<Option<String>, PngError>)
    ensures
        match decode_png(input@) {
            Ok(chunks) => match find_type(chunks, bytes_as_text(chunk_type@)) {
                Some(i) => r matches Ok(Some(message)) && message@ == bytes_as_text(
                    chunks[i].data,
                ),
                None => r == Ok::<Option<String>, PngError>(None),
            },
            Err(e) => r == Err::<Option<String>, PngError>(e),
        },
{
    let png = match Png::try_from(input) {
        Ok(png) => png,
        Err(e) => {
            return Err(e);
        },
    };
    let name = chunk_type.to_string();
    match png.chunk_by_type(name.as_str()) {
        Some(chunk) => Ok(Some(text_of_bytes(chunk.data()))),
        None => Ok(None),
    }
}

/// The container `input` without its first chunk of type `chunk_type`.
pub fn remove(input: &[u8], chunk_type: &ChunkType) -> (r: Result<Vec<u8>, PngError>)
    ensures
        match decode_png(input@) {
            Ok(chunks) => match find_type(chunks, bytes_as_text(chunk_type@)) {
                Some(i) => r matches Ok(output) && output@ == encode_png(chunks.remove(i)),
                None => r == Err::<Vec<u8>, PngError>(PngError::NotFound),
            },
            Err(e) => r == Err::<Vec<u8>, PngError>(e),
        },
{
    let mut png = match Png::try_from(input) {
        Ok(png) => png,
        Err(e) => {
            return Err(e);
        },
    };
    let name = chunk_type.to_string();
    match png.remove_chunk(name.as_str()) {
        Ok(_) => Ok(png.as_bytes()),
        Err(e) => Err(e),
    }
}

/// The type names of the chunks of the container `input`, in order.
pub fn print(input: &[u8]) -> (r: Result<Vec<String>, PngError>)
    ensures
        match decode_png(input@) {
            Ok(chunks) => r matches Ok(names) && texts(names@) == type_names(chunks),
            Err(e) => r == Err::<Vec<String>, PngError>(e),
        },
{
    let png = match Png::try_from(input) {
        Ok(png) => png,
        Err(e) => {
            return Err(e);
        },
    };
    let chunks = png.chunks();
    let mut names: Vec<String> = Vec::new();
    let mut i: usize = 0;
    while i < chunks.len()
        invariant
            0 <= i <= chunks@.len(),
            names@.len() == i,
            forall|j: int|
                0 <= j < i ==> (#[trigger] names@[j])@ == bytes_as_text(chunks@[j]@.chunk_type),
        decreases chunks@.len() - i,
    {
        names.push(chunks[i].chunk_type().to_string());
        i += 1;
    }
    assert(texts(names@) =~= type_names(chunk_views(chunks@)));
    Ok(names)
}

} // verus!
