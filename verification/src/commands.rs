use crate::chunk::{Chunk, ChunkView};
use crate::chunk_type::{is_type_key, lemma_type_key_is_valid, type_text, ChunkType};
use crate::error::Error;
use crate::png::{
    all_decodable, has_match, is_first_match, lemma_all_decodable_push,
    lemma_all_decodable_remove, parse_png, Png,
};
use crate::text::text_of;
use std::str::FromStr;
use vstd::prelude::*;
use vstd::slice::slice_to_vec;
use vstd::string::StringSliceAdditionalSpecFns;

verus! {

/// What `encode` makes of a file: its chunks with one more at the end, which
/// carries `message` under the type `chunk_type`. A file that cannot be
/// decoded fails first, a type that is no textual key after that.
pub open spec fn encoded(file: Seq<u8>, chunk_type: Seq<u8>, message: Seq<u8>) -> Result<
    Seq<ChunkView>,
    Error,
> {
    match parse_png(file) {
        Ok(chunks) => if is_type_key(chunk_type) {
            Ok(chunks.push(ChunkView::of(chunk_type, message)))
        } else {
            Err(Error::InvalidChunkType)
        },
        Err(e) => Err(e),
    }
}

/// Hides `message` in the PNG file `file`, in a new last chunk of the type
/// `chunk_type`. The result is the container to write back.
pub fn encode(file: &[u8], chunk_type: &str, message: &str) -> (r: Result<Png, Error>)
    requires
        message.spec_bytes().len() <= u32::MAX,
    ensures
        match r {
            Ok(png) => encoded(file@, chunk_type.spec_bytes(), message.spec_bytes()) == Ok::<
                Seq<ChunkView>,
                Error,
            >(png@) && all_decodable(png@),
            Err(e) => encoded(file@, chunk_type.spec_bytes(), message.spec_bytes()) == Err::<
                Seq<ChunkView>,
                Error,
            >(e),
        },
{
    let mut png = match Png::try_from(file) {
        Ok(png) => png,
        Err(e) => {
            return Err(e);
        },
    };
    let chunk_type = match ChunkType::from_str(chunk_type) {
        Ok(chunk_type) => chunk_type,
        Err(e) => {
            return Err(e);
        },
    };
    let chunk = Chunk::new(chunk_type, slice_to_vec(message.as_bytes()));
    proof {
        lemma_type_key_is_valid(chunk@.chunk_type);
        lemma_all_decodable_push(png@, chunk@);
    }
    png.append_chunk(chunk);
    Ok(png)
}

/// The message that the PNG file `file` holds under `chunk_type`: the
/// payload, as text, of the first chunk whose type reads `chunk_type`.
/// There is none where the file cannot be decoded, where no chunk has that
/// type, and where the payload is not UTF-8.
pub fn decode(file: &[u8], chunk_type: &str) -> (message: Option<String>)
    ensures
        match message {
            Some(text) => parse_png(file@) is Ok && exists|i: int|
                is_first_match(parse_png(file@)->Ok_0, chunk_type@, i) && text_of(
                    parse_png(file@)->Ok_0[i].data,
                ) == Some(text@),
            None => parse_png(file@) is Err || !has_match(parse_png(file@)->Ok_0, chunk_type@)
                || exists|i: int|
                is_first_match(parse_png(file@)->Ok_0, chunk_type@, i) && text_of(
                    parse_png(file@)->Ok_0[i].data,
                ) is None,
        },
{
    let png = match Png::try_from(file) {
        Ok(png) => png,
        Err(_) => {
            return None;
        },
    };
    match png.chunk_by_type(chunk_type) {
        Some(chunk) => {
            let ghost at = choose|i: int|
                is_first_match(png@, chunk_type@, i) && chunk@ == png@[i];
            assert(is_first_match(parse_png(file@)->Ok_0, chunk_type@, at));
            match chunk.data_as_string() {
                Ok(text) => Some(text),
                Err(_) => None,
            }
        },
        None => None,
    }
}

/// Takes the first chunk whose type reads `chunk_type` out of the PNG file
/// `file`. The result is the container to write back; a file that cannot be
/// decoded fails with its error, a file without such a chunk with
/// `ChunkNotFound`.
pub fn remove(file: &[u8], chunk_type: &str) -> (r: Result<Png, Error>)
    ensures
        match r {
            Ok(png) => parse_png(file@) is Ok && all_decodable(png@) && exists|i: int|
                is_first_match(parse_png(file@)->Ok_0, chunk_type@, i) && png@ == parse_png(
                    file@,
                )->Ok_0.remove(i),
            Err(e) => parse_png(file@) == Err::<Seq<ChunkView>, Error>(e) || (parse_png(file@) is Ok
                && !has_match(parse_png(file@)->Ok_0, chunk_type@) && e == Error::ChunkNotFound),
        },
{
    let mut png = match Png::try_from(file) {
        Ok(png) => png,
        Err(e) => {
            return Err(e);
        },
    };
    let ghost before = png@;
    match png.remove_chunk(chunk_type) {
        Ok(_) => {
            let ghost at = choose|i: int|
                is_first_match(before, chunk_type@, i) && png@ == before.remove(i);
            assert(is_first_match(parse_png(file@)->Ok_0, chunk_type@, at));
            proof {
                lemma_all_decodable_remove(before, at);
            }
            Ok(png)
        },
        Err(e) => Err(e),
    }
}

/// The types of the chunks of the PNG file `file`, as text and in the order
/// of the file.
pub fn print(file: &[u8]) -> (r: Result<Vec<String>, Error>)
    ensures
        match r {
            Ok(names) => parse_png(file@) is Ok && names@.len() == parse_png(file@)->Ok_0.len()
                && forall|i: int|
                0 <= i < names@.len() ==> (#[trigger] names@[i])@ == type_text(
                    parse_png(file@)->Ok_0[i].chunk_type,
                ),
            Err(e) => parse_png(file@) == Err::<Seq<ChunkView>, Error>(e),
        },
{
    let png = match Png::try_from(file) {
        Ok(png) => png,
        Err(e) => {
            return Err(e);
        },
    };
    let chunks = png.chunks();
    let mut names: Vec<String> = Vec::new();
    let mut i: usize = 0;
    while i < chunks.len()
        invariant
            i <= chunks@.len(),
            names@.len() == i,
            forall|j: int|
                0 <= j < i ==> (#[trigger] names@[j])@ == type_text(chunks@[j]@.chunk_type),
        decreases chunks@.len() - i,
    {
        names.push(chunks[i].chunk_type().to_string());
        i += 1;
    }
    Ok(names)
}

} // verus!
