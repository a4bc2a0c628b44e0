use crate::chunk::{lemma_bytes_of_parse, lemma_parse_of_bytes, parse_chunk, Chunk, ChunkView};
use crate::chunk_type::{type_is_valid, type_text};
use crate::error::Error;
use crate::text::bytes_eq;
use vstd::prelude::*;
use vstd::slice::slice_subrange;
use vstd::std_specs::convert::TryFromSpecImpl;

verus! {

/// The eight bytes every PNG file starts with.
pub open spec fn signature() -> Seq<u8> {
    seq![137u8, 80u8, 78u8, 71u8, 13u8, 10u8, 26u8, 10u8]
}

/// The encodings of `chunks`, one after the other.
pub open spec fn stream_bytes(chunks: Seq<ChunkView>) -> Seq<u8>
    decreases chunks.len(),
{
    if chunks.len() == 0 {
        Seq::empty()
    } else {
        chunks.first().bytes() + stream_bytes(chunks.drop_first())
    }
}

/// The file that holds `chunks`: the signature, then the chunks in order.
pub open spec fn png_bytes(chunks: Seq<ChunkView>) -> Seq<u8> {
    signature() + stream_bytes(chunks)
}

/// `found` put in front of what `rest` holds, where `rest` is no error.
pub open spec fn prepend(found: Seq<ChunkView>, rest: Result<Seq<ChunkView>, Error>) -> Result<
    Seq<ChunkView>,
    Error,
> {
    match rest {
        Ok(chunks) => Ok(found + chunks),
        Err(e) => Err(e),
    }
}

/// What decoding `bytes` as a run of chunks gives: the chunks in order, or
/// the error of the first chunk that cannot be decoded. Decoding goes on
/// until no byte is left.
pub open spec fn parse_chunks(bytes: Seq<u8>) -> Result<Seq<ChunkView>, Error>
    decreases bytes.len(),
{
    if bytes.len() == 0 {
        Ok(Seq::empty())
    } else {
        match parse_chunk(bytes) {
            Ok(c) => prepend(seq![c], parse_chunks(bytes.skip(12 + c.length))),
            Err(e) => Err(e),
        }
    }
}

/// What decoding `bytes` as a PNG file gives: `SignatureMismatch` unless
/// they start with the signature, else the chunks behind it.
pub open spec fn parse_png(bytes: Seq<u8>) -> Result<Seq<ChunkView>, Error> {
    if bytes.len() >= 8 && bytes.subrange(0, 8) == signature() {
        parse_chunks(bytes.skip(8))
    } else {
        Err(Error::SignatureMismatch)
    }
}

/// Whether chunk `i` of `chunks` is the first whose type reads `key`.
pub open spec fn is_first_match(chunks: Seq<ChunkView>, key: Seq<char>, i: int) -> bool {
    &&& 0 <= i < chunks.len()
    &&& type_text(chunks[i].chunk_type) == key
    &&& forall|j: int| 0 <= j < i ==> type_text(#[trigger] chunks[j].chunk_type) != key
}

/// Whether some chunk of `chunks` has a type that reads `key`.
pub open spec fn has_match(chunks: Seq<ChunkView>, key: Seq<char>) -> bool {
    exists|i: int| 0 <= i < chunks.len() && type_text(#[trigger] chunks[i].chunk_type) == key
}

/// The views of `chunks`, in order.
pub open spec fn views(chunks: Seq<Chunk>) -> Seq<ChunkView> {
    Seq::new(chunks.len(), |i: int| chunks[i]@)
}

/// Adding a chunk at the end adds its encoding at the end.
pub proof fn lemma_stream_bytes_push(chunks: Seq<ChunkView>, c: ChunkView)
    ensures
        stream_bytes(chunks.push(c)) == stream_bytes(chunks) + c.bytes(),
    decreases chunks.len(),
{
    if chunks.len() == 0 {
        assert(chunks.push(c).drop_first() =~= chunks);
        assert(stream_bytes(chunks.push(c)) =~= stream_bytes(chunks) + c.bytes());
    } else {
        assert(chunks.push(c).drop_first() =~= chunks.drop_first().push(c));
        lemma_stream_bytes_push(chunks.drop_first(), c);
        assert(stream_bytes(chunks.push(c)) =~= stream_bytes(chunks) + c.bytes());
    }
}

/// The signature, for executable code.
pub const STANDARD_HEADER: [u8; 8] = [137, 80, 78, 71, 13, 10, 26, 10];

/// The chunks of one PNG file, in the order of the file.
#[derive(Debug)]
pub struct Png {
    chunks: Vec<Chunk>,
}

impl View for Png {
    type V = Seq<ChunkView>;

    closed spec fn view(&self) -> Seq<ChunkView> {
        views(self.chunks@)
    }
}

impl Png {
    /// The container that holds `chunks`.
    pub fn from_chunks(chunks: Vec<Chunk>) -> (png: Png)
        ensures
            png@ == views(chunks@),
    {
        Png { chunks }
    }

    /// The signature.
    pub fn header(&self) -> (header: [u8; 8])
        ensures
            header@ == signature(),
    {
        assert(STANDARD_HEADER@ =~= signature());
        STANDARD_HEADER
    }

    /// The chunks, in order.
    pub fn chunks(&self) -> (chunks: &[Chunk])
        ensures
            views(chunks@) == self@,
    {
        self.chunks.as_slice()
    }

    /// Puts `chunk` behind the chunks that are there. A chunk of the same
    /// type may be there already.
    pub fn append_chunk(&mut self, chunk: Chunk)
        ensures
            final(self)@ == old(self)@.push(chunk@),
    {
        self.chunks.push(chunk);
        assert(views(self.chunks@) =~= views(old(self).chunks@).push(chunk@));
    }

    fn position(&self, chunk_type: &str) -> (found: Option<usize>)
        ensures
            match found {
                Some(i) => is_first_match(self@, chunk_type@, i as int),
                None => !has_match(self@, chunk_type@),
            },
    {
        let mut i: usize = 0;
        while i < self.chunks.len()
            invariant
                i <= self.chunks@.len(),
                forall|j: int|
                    0 <= j < i ==> type_text(#[trigger] self@[j].chunk_type) != chunk_type@,
            decreases self.chunks@.len() - i,
        {
            if self.chunks[i].chunk_type().has_text(chunk_type) {
                return Some(i);
            }
            i += 1;
        }
        None
    }

    /// The first chunk whose type reads `chunk_type`, if there is one. Any
    /// text may be asked for.
    pub fn chunk_by_type(&self, chunk_type: &str) -> (found: Option<&Chunk>)
        ensures
            match found {
                Some(chunk) => exists|i: int|
                    is_first_match(self@, chunk_type@, i) && chunk@ == self@[i],
                None => !has_match(self@, chunk_type@),
            },
    {
        match self.position(chunk_type) {
            Some(i) => Some(&self.chunks[i]),
            None => None,
        }
    }

    /// Takes out the first chunk whose type reads `chunk_type` and hands it
    /// back; the others keep their order. Where no chunk has that type, the
    /// result is `ChunkNotFound` and nothing changes.
    pub fn remove_chunk(&mut self, chunk_type: &str) -> (removed: Result<Chunk, Error>)
        ensures
            match removed {
                Ok(chunk) => exists|i: int|
                    is_first_match(old(self)@, chunk_type@, i) && chunk@ == old(self)@[i]
                        && final(self)@ == old(self)@.remove(i),
                Err(e) => e == Error::ChunkNotFound && !has_match(old(self)@, chunk_type@)
                    && final(self)@ == old(self)@,
            },
    {
        match self.position(chunk_type) {
            Some(i) => {
                let chunk = self.chunks.remove(i);
                assert(views(self.chunks@) =~= views(old(self).chunks@).remove(i as int));
                Ok(chunk)
            },
            None => Err(Error::ChunkNotFound),
        }
    }

    /// The file that holds the chunks, see `png_bytes`. Where every chunk
    /// has a type that decoding accepts, the file decodes to this container
    /// again.
    pub fn as_bytes(&self) -> (bytes: Vec<u8>)
        ensures
            bytes@ == png_bytes(self@),
            all_decodable(self@) ==> parse_png(bytes@) == Ok::<Seq<ChunkView>, Error>(self@),
    {
        proof {
            if all_decodable(self@) {
                lemma_parse_of_png_bytes(self@);
            }
        }
        let mut bytes: Vec<u8> = Vec::new();
        bytes.extend_from_slice(STANDARD_HEADER.as_slice());
        assert(bytes@ =~= signature() + stream_bytes(self@.take(0)));
        let mut i: usize = 0;
        while i < self.chunks.len()
            invariant
                i <= self.chunks@.len(),
                self@.len() == self.chunks@.len(),
                bytes@ == signature() + stream_bytes(self@.take(i as int)),
            decreases self.chunks@.len() - i,
        {
            let mut part = self.chunks[i].as_bytes();
            proof {
                lemma_stream_bytes_push(self@.take(i as int), self@[i as int]);
                assert(self@.take(i as int).push(self@[i as int]) =~= self@.take(i + 1));
            }
            bytes.append(&mut part);
            assert(bytes@ =~= signature() + stream_bytes(self@.take(i + 1)));
            i += 1;
        }
        assert(self@.take(i as int) =~= self@);
        bytes
    }
}

impl TryFrom<&[u8]> for Png {
    type Error = Error;

    /// Decodes a whole PNG file, see `parse_png`. One chunk that cannot be
    /// decoded fails the file. The container that comes out encodes to
    /// `bytes` again.
    fn try_from(bytes: &[u8]) -> (r: Result<Png, Error>)
        ensures
            match r {
                Ok(png) => {
                    &&& parse_png(bytes@) == Ok::<Seq<ChunkView>, Error>(png@)
                    &&& all_decodable(png@)
                    &&& png_bytes(png@) == bytes@
                },
                Err(e) => parse_png(bytes@) == Err::<Seq<ChunkView>, Error>(e),
            },
    {
        proof {
            if parse_png(bytes@) is Ok {
                lemma_png_bytes_of_parse(bytes@);
            }
        }
        if bytes.len() < 8 {
            return Err(Error::SignatureMismatch);
        }
        assert(STANDARD_HEADER@ =~= signature());
        if !bytes_eq(slice_subrange(bytes, 0, 8), STANDARD_HEADER.as_slice()) {
            return Err(Error::SignatureMismatch);
        }
        let mut chunks: Vec<Chunk> = Vec::new();
        let mut cursor: usize = 8;
        proof {
            assert(views(chunks@) =~= Seq::empty());
            lemma_prepend_nothing(parse_chunks(bytes@.skip(8)));
        }
        while cursor < bytes.len()
            invariant
                8 <= cursor <= bytes@.len(),
                bytes@.subrange(0, 8) == signature(),
                parse_chunks(bytes@.skip(8)) == prepend(
                    views(chunks@),
                    parse_chunks(bytes@.skip(cursor as int)),
                ),
            decreases bytes@.len() - cursor,
        {
            let rest = slice_subrange(bytes, cursor, bytes.len());
            assert(rest@ =~= bytes@.skip(cursor as int));
            let chunk = match Chunk::try_from(rest) {
                Ok(chunk) => chunk,
                Err(e) => {
                    return Err(e);
                },
            };
            proof {
                lemma_bytes_of_parse(rest@);
                let step = 12 + chunk@.length;
                assert(rest@.skip(step) =~= bytes@.skip(cursor + step));
                lemma_prepend_twice(
                    views(chunks@),
                    chunk@,
                    parse_chunks(bytes@.skip(cursor + step)),
                );
                assert(views(chunks@.push(chunk)) =~= views(chunks@).push(chunk@));
            }
            cursor = cursor + 12 + chunk.length() as usize;
            chunks.push(chunk);
        }
        assert(views(chunks@) + Seq::<ChunkView>::empty() =~= views(chunks@));
        Ok(Png { chunks })
    }
}

impl TryFromSpecImpl<&[u8]> for Png {
    /// Containers are told apart by their views, so what `try_from` returns
    /// is stated in its own clauses and not here.
    open spec fn obeys_try_from_spec() -> bool {
        false
    }

    closed spec fn try_from_spec(v: &[u8]) -> Result<Self, Error> {
        match parse_png(v@) {
            Ok(view) => Ok(choose|png: Png| png@ == view),
            Err(e) => Err(e),
        }
    }
}

proof fn lemma_prepend_nothing(rest: Result<Seq<ChunkView>, Error>)
    ensures
        prepend(Seq::empty(), rest) == rest,
{
    if let Ok(chunks) = rest {
        assert(Seq::<ChunkView>::empty() + chunks =~= chunks);
    }
}

proof fn lemma_stream_bytes_cons(c: ChunkView, tail: Seq<ChunkView>)
    ensures
        stream_bytes(seq![c] + tail) == c.bytes() + stream_bytes(tail),
{
    let all = seq![c] + tail;
    assert(all.first() == c);
    assert(all.drop_first() =~= tail);
}

proof fn lemma_all_decodable_cons(c: ChunkView, tail: Seq<ChunkView>)
    ensures
        all_decodable(seq![c] + tail) <==> c.wf() && type_is_valid(c.chunk_type) && all_decodable(
            tail,
        ),
{
    let all = seq![c] + tail;
    if all_decodable(all) {
        assert(all[0] == c);
        assert forall|i: int| 0 <= i < tail.len() implies (#[trigger] tail[i]).wf()
            && type_is_valid(tail[i].chunk_type) by {
            assert(all[i + 1] == tail[i]);
        }
    }
    if c.wf() && type_is_valid(c.chunk_type) && all_decodable(tail) {
        assert forall|i: int| 0 <= i < all.len() implies (#[trigger] all[i]).wf() && type_is_valid(
            all[i].chunk_type,
        ) by {
            if i > 0 {
                assert(all[i] == tail[i - 1]);
            }
        }
    }
}

proof fn lemma_split_at(bytes: Seq<u8>, at: int)
    requires
        0 <= at <= bytes.len(),
    ensures
        bytes.subrange(0, at) + bytes.skip(at) == bytes,
{
    assert(bytes.subrange(0, at) + bytes.skip(at) =~= bytes);
}

proof fn lemma_prepend_twice(
    found: Seq<ChunkView>,
    c: ChunkView,
    rest: Result<Seq<ChunkView>, Error>,
)
    ensures
        prepend(found, prepend(seq![c], rest)) == prepend(found.push(c), rest),
{
    if let Ok(chunks) = rest {
        assert(found + (seq![c] + chunks) =~= found.push(c) + chunks);
    }
}

/// Whether every chunk of `chunks` is well formed and has a type that is
/// accepted when it is decoded.
pub open spec fn all_decodable(chunks: Seq<ChunkView>) -> bool {
    forall|i: int|
        0 <= i < chunks.len() ==> (#[trigger] chunks[i]).wf() && type_is_valid(
            chunks[i].chunk_type,
        )
}

/// Chunks that can each be decoded stay so when one more such chunk is put
/// behind them.
pub proof fn lemma_all_decodable_push(chunks: Seq<ChunkView>, c: ChunkView)
    requires
        all_decodable(chunks),
        c.wf(),
        type_is_valid(c.chunk_type),
    ensures
        all_decodable(chunks.push(c)),
{
    let all = chunks.push(c);
    assert forall|i: int| 0 <= i < all.len() implies (#[trigger] all[i]).wf() && type_is_valid(
        all[i].chunk_type,
    ) by {
        if i < chunks.len() {
            assert(all[i] == chunks[i]);
        }
    }
}

/// Chunks that can each be decoded stay so when one of them is taken out.
pub proof fn lemma_all_decodable_remove(chunks: Seq<ChunkView>, at: int)
    requires
        all_decodable(chunks),
        0 <= at < chunks.len(),
    ensures
        all_decodable(chunks.remove(at)),
{
    let left = chunks.remove(at);
    assert forall|i: int| 0 <= i < left.len() implies (#[trigger] left[i]).wf() && type_is_valid(
        left[i].chunk_type,
    ) by {
        if i < at {
            assert(left[i] == chunks[i]);
        } else {
            assert(left[i] == chunks[i + 1]);
        }
    }
}

/// Encoding undoes decoding, chunk run: the chunks that `bytes` decode to
/// encode to `bytes` again, and each of them can be decoded.
pub proof fn lemma_stream_bytes_of_parse(bytes: Seq<u8>)
    requires
        parse_chunks(bytes) is Ok,
    ensures
        stream_bytes(parse_chunks(bytes)->Ok_0) == bytes,
        all_decodable(parse_chunks(bytes)->Ok_0),
    decreases bytes.len(),
{
    if bytes.len() != 0 {
        let c = parse_chunk(bytes)->Ok_0;
        let step = 12 + c.length;
        lemma_bytes_of_parse(bytes);
        let tail = parse_chunks(bytes.skip(step))->Ok_0;
        lemma_stream_bytes_of_parse(bytes.skip(step));
        lemma_stream_bytes_cons(c, tail);
        lemma_all_decodable_cons(c, tail);
        lemma_split_at(bytes, step);
    }
}

/// Decoding undoes encoding, chunk run: chunks that can each be decoded are
/// what their encodings, one after the other, decode to.
pub proof fn lemma_parse_of_stream_bytes(chunks: Seq<ChunkView>)
    requires
        all_decodable(chunks),
    ensures
        parse_chunks(stream_bytes(chunks)) == Ok::<Seq<ChunkView>, Error>(chunks),
    decreases chunks.len(),
{
    if chunks.len() == 0 {
        assert(chunks =~= Seq::empty());
    } else {
        let c = chunks.first();
        let tail = chunks.drop_first();
        let bytes = stream_bytes(chunks);
        assert(seq![c] + tail =~= chunks);
        lemma_all_decodable_cons(c, tail);
        lemma_parse_of_bytes(c, stream_bytes(tail));
        lemma_parse_of_stream_bytes(tail);
        assert(bytes.skip(12 + c.length) =~= stream_bytes(tail));
    }
}

/// Container round trip, from bytes: a file that decodes is the encoding of
/// the chunks it decodes to.
pub proof fn lemma_png_bytes_of_parse(bytes: Seq<u8>)
    requires
        parse_png(bytes) is Ok,
    ensures
        png_bytes(parse_png(bytes)->Ok_0) == bytes,
        all_decodable(parse_png(bytes)->Ok_0),
{
    lemma_stream_bytes_of_parse(bytes.skip(8));
    assert(bytes.subrange(0, 8) + bytes.skip(8) =~= bytes);
}

/// Container round trip, from chunks: the file that holds chunks which can
/// each be decoded decodes to those chunks.
pub proof fn lemma_parse_of_png_bytes(chunks: Seq<ChunkView>)
    requires
        all_decodable(chunks),
    ensures
        parse_png(png_bytes(chunks)) == Ok::<Seq<ChunkView>, Error>(chunks),
{
    let bytes = png_bytes(chunks);
    lemma_parse_of_stream_bytes(chunks);
    assert(bytes.subrange(0, 8) =~= signature());
    assert(bytes.skip(8) =~= stream_bytes(chunks));
}

/// At most one chunk is the first whose type reads `key`.
pub proof fn lemma_first_match_is_unique(chunks: Seq<ChunkView>, key: Seq<char>, i: int, j: int)
    requires
        is_first_match(chunks, key, i),
        is_first_match(chunks, key, j),
    ensures
        i == j,
{
    if i < j {
        assert(type_text(chunks[i].chunk_type) != key);
    }
    if j < i {
        assert(type_text(chunks[j].chunk_type) != key);
    }
}

/// Appending a chunk and then removing by the text of its type gives the
/// chunks back, in order and unchanged, where none of them has a type that
/// reads the same: the chunk that is removed is the appended one.
pub proof fn lemma_remove_after_append(chunks: Seq<ChunkView>, c: ChunkView, i: int)
    requires
        !has_match(chunks, type_text(c.chunk_type)),
        is_first_match(chunks.push(c), type_text(c.chunk_type), i),
    ensures
        i == chunks.len(),
        chunks.push(c)[i] == c,
        chunks.push(c).remove(i) == chunks,
{
    let key = type_text(c.chunk_type);
    if i < chunks.len() {
        assert(chunks.push(c)[i] == chunks[i]);
        assert(type_text(chunks[i].chunk_type) == key);
    }
    assert(chunks.push(c).remove(i) =~= chunks);
}

} // verus!
