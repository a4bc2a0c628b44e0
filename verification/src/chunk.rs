use crate::checksum::{checksum, crc32_iso_hdlc};
use crate::chunk_type::{type_is_valid, type_text, ChunkType};
use crate::error::Error;
use crate::text::{bytes_to_str, text_of};
use vstd::prelude::*;
use vstd::slice::{slice_subrange, slice_to_vec};
use vstd::std_specs::convert::TryFromSpecImpl;

verus! {

/// The four bytes that stand for `x` in a PNG file, highest byte first.
pub open spec fn be_bytes(x: u32) -> Seq<u8> {
    seq![
        (x / 0x100_0000) as u8,
        (x / 0x1_0000 % 0x100) as u8,
        (x / 0x100 % 0x100) as u8,
        (x % 0x100) as u8,
    ]
}

/// The number that the first four bytes of `b` stand for, highest byte first.
pub open spec fn be_value(b: Seq<u8>) -> u32
    recommends
        b.len() >= 4,
{
    (b[0] * 0x100_0000 + b[1] * 0x1_0000 + b[2] * 0x100 + b[3]) as u32
}

/// Reading what was written gives the number back.
pub proof fn lemma_be_value_of_bytes(x: u32)
    ensures
        be_bytes(x).len() == 4,
        be_value(be_bytes(x)) == x,
{
}

/// Writing what was read gives the four bytes back.
pub proof fn lemma_be_bytes_of_value(b: Seq<u8>)
    requires
        b.len() == 4,
    ensures
        be_bytes(be_value(b)) == b,
{
    lemma_be_digits(b[0] as int, b[1] as int, b[2] as int, b[3] as int);
    assert(be_bytes(be_value(b)) =~= b);
}

proof fn lemma_be_digits(b0: int, b1: int, b2: int, b3: int)
    requires
        0 <= b0 < 0x100,
        0 <= b1 < 0x100,
        0 <= b2 < 0x100,
        0 <= b3 < 0x100,
    ensures
        ({
            let v = b0 * 0x100_0000 + b1 * 0x1_0000 + b2 * 0x100 + b3;
            &&& 0 <= v <= u32::MAX
            &&& v / 0x100_0000 == b0
            &&& v / 0x1_0000 % 0x100 == b1
            &&& v / 0x100 % 0x100 == b2
            &&& v % 0x100 == b3
        }),
{
    let v = b0 * 0x100_0000 + b1 * 0x1_0000 + b2 * 0x100 + b3;
    assert(v / 0x100_0000 == b0);
    assert(v / 0x1_0000 == b0 * 0x100 + b1);
    assert(v / 0x100 == b0 * 0x1_0000 + b1 * 0x100 + b2);
}

fn read_u32(bytes: &[u8], at: usize) -> (x: u32)
    requires
        at + 4 <= bytes@.len(),
    ensures
        x == be_value(bytes@.subrange(at as int, at + 4)),
{
    let b0 = bytes[at] as u32;
    let b1 = bytes[at + 1] as u32;
    let b2 = bytes[at + 2] as u32;
    let b3 = bytes[at + 3] as u32;
    b0 * 0x100_0000 + b1 * 0x1_0000 + b2 * 0x100 + b3
}

fn write_u32(out: &mut Vec<u8>, x: u32)
    ensures
        final(out)@ == old(out)@ + be_bytes(x),
{
    out.push((x / 0x100_0000) as u8);
    out.push((x / 0x1_0000 % 0x100) as u8);
    out.push((x / 0x100 % 0x100) as u8);
    out.push((x % 0x100) as u8);
    assert(out@ =~= old(out)@ + be_bytes(x));
}

/// What a chunk holds, as plain values: the four fields of its encoding.
pub struct ChunkView {
    /// The declared length of the payload.
    pub length: u32,
    /// The four bytes of the type.
    pub chunk_type: Seq<u8>,
    /// The payload.
    pub data: Seq<u8>,
    /// The stored checksum.
    pub crc: u32,
}

impl ChunkView {
    /// The fields belong together: the type has four bytes, the declared
    /// length is that of the payload, and the checksum is the one of the
    /// type followed by the payload.
    pub open spec fn wf(self) -> bool {
        &&& self.chunk_type.len() == 4
        &&& self.length == self.data.len()
        &&& self.crc == crc32_iso_hdlc(self.chunk_type + self.data)
    }

    /// The chunk that carries `data` under `chunk_type`.
    pub open spec fn of(chunk_type: Seq<u8>, data: Seq<u8>) -> ChunkView {
        ChunkView {
            length: data.len() as u32,
            chunk_type,
            data,
            crc: crc32_iso_hdlc(chunk_type + data),
        }
    }

    /// The encoding of the chunk: length, type, payload, checksum.
    pub open spec fn bytes(self) -> Seq<u8> {
        be_bytes(self.length) + self.chunk_type + self.data + be_bytes(self.crc)
    }
}

/// What decoding the chunk at the start of `bytes` gives. Bytes behind the
/// chunk are not looked at.
///
/// The type is judged as soon as it is read, so an unacceptable type is
/// reported even where the input is too short for the payload.
pub open spec fn parse_chunk(bytes: Seq<u8>) -> Result<ChunkView, Error> {
    if bytes.len() < 8 {
        Err(Error::Truncation)
    } else {
        let length = be_value(bytes.subrange(0, 4));
        let chunk_type = bytes.subrange(4, 8);
        if !type_is_valid(chunk_type) {
            Err(Error::InvalidChunk)
        } else if bytes.len() < 12 + length {
            Err(Error::Truncation)
        } else {
            let data = bytes.subrange(8, 8 + length);
            let crc = be_value(bytes.subrange(8 + length, 12 + length));
            if crc == crc32_iso_hdlc(chunk_type + data) {
                Ok(ChunkView { length, chunk_type, data, crc })
            } else {
                Err(Error::InvalidChunk)
            }
        }
    }
}

/// Decoding undoes encoding: the encoding of a well-formed chunk with an
/// acceptable type decodes to that chunk, whatever bytes follow it.
pub proof fn lemma_parse_of_bytes(c: ChunkView, rest: Seq<u8>)
    requires
        c.wf(),
        type_is_valid(c.chunk_type),
    ensures
        c.bytes().len() == 12 + c.data.len(),
        parse_chunk(c.bytes() + rest) == Ok::<ChunkView, Error>(c),
        parse_chunk(c.bytes()) == Ok::<ChunkView, Error>(c),
{
    lemma_parse_of_bytes_at(c, rest);
    assert(c.bytes() + Seq::<u8>::empty() =~= c.bytes());
    lemma_parse_of_bytes_at(c, Seq::empty());
}

proof fn lemma_parse_of_bytes_at(c: ChunkView, rest: Seq<u8>)
    requires
        c.wf(),
        type_is_valid(c.chunk_type),
    ensures
        c.bytes().len() == 12 + c.data.len(),
        parse_chunk(c.bytes() + rest) == Ok::<ChunkView, Error>(c),
{
    let n = c.length as int;
    let all = c.bytes() + rest;
    lemma_be_value_of_bytes(c.length);
    lemma_be_value_of_bytes(c.crc);
    assert(all.subrange(0, 4) =~= be_bytes(c.length));
    assert(all.subrange(4, 8) =~= c.chunk_type);
    assert(all.subrange(8, 8 + n) =~= c.data);
    assert(all.subrange(8 + n, 12 + n) =~= be_bytes(c.crc));
}

/// Encoding undoes decoding: where the start of `bytes` decodes to a chunk,
/// that chunk is well formed, has an acceptable type, and its encoding is
/// the part of `bytes` that was read.
pub proof fn lemma_bytes_of_parse(bytes: Seq<u8>)
    requires
        parse_chunk(bytes) is Ok,
    ensures
        ({
            let c = parse_chunk(bytes)->Ok_0;
            &&& c.wf()
            &&& type_is_valid(c.chunk_type)
            &&& 12 + c.data.len() <= bytes.len()
            &&& c.bytes() == bytes.subrange(0, 12 + c.data.len() as int)
        }),
{
    let c = parse_chunk(bytes)->Ok_0;
    let n = c.length as int;
    lemma_be_bytes_of_value(bytes.subrange(0, 4));
    lemma_be_bytes_of_value(bytes.subrange(8 + n, 12 + n));
    assert(c.bytes() =~= bytes.subrange(0, 12 + n));
}

/// A chunk whose checksum field holds anything but the checksum of its type
/// and payload is refused with `InvalidChunk`, whatever its type.
pub proof fn lemma_wrong_crc_is_rejected(c: ChunkView, field: Seq<u8>)
    requires
        c.wf(),
        field.len() == 4,
        field != be_bytes(c.crc),
    ensures
        parse_chunk(be_bytes(c.length) + c.chunk_type + c.data + field) == Err::<ChunkView, Error>(
            Error::InvalidChunk,
        ),
{
    let n = c.length as int;
    let all = be_bytes(c.length) + c.chunk_type + c.data + field;
    lemma_be_value_of_bytes(c.length);
    lemma_be_bytes_of_value(field);
    assert(all.subrange(0, 4) =~= be_bytes(c.length));
    assert(all.subrange(4, 8) =~= c.chunk_type);
    assert(all.subrange(8, 8 + n) =~= c.data);
    assert(all.subrange(8 + n, 12 + n) =~= field);
}

/// Flipping any one bit of the checksum field of an encoded chunk makes the
/// chunk undecodable: the result is `InvalidChunk`. `at` picks the byte of
/// the field and `bit` the bit in that byte.
pub proof fn lemma_flipped_crc_bit_is_rejected(c: ChunkView, at: int, bit: u8)
    requires
        c.wf(),
        0 <= at < 4,
        bit < 8,
    ensures
        ({
            let bytes = c.bytes();
            let place = 8 + c.data.len() + at;
            parse_chunk(bytes.update(place, bytes[place] ^ (1u8 << bit))) == Err::<
                ChunkView,
                Error,
            >(Error::InvalidChunk)
        }),
{
    let bytes = c.bytes();
    let place = 8 + c.data.len() + at;
    let old_byte = bytes[place];
    let new_byte = old_byte ^ (1u8 << bit);
    assert(old_byte ^ (1u8 << bit) != old_byte) by (bit_vector)
        requires
            bit < 8,
    ;
    let field = be_bytes(c.crc).update(at, new_byte);
    assert(be_bytes(c.crc)[at] == old_byte);
    assert(field[at] != be_bytes(c.crc)[at]);
    assert(bytes.update(place, new_byte) =~= be_bytes(c.length) + c.chunk_type + c.data + field);
    lemma_wrong_crc_is_rejected(c, field);
}

/// One record of a PNG file: a type, a payload, and the checksum of both.
/// Every chunk is well formed in the sense of `ChunkView::wf`.
#[derive(Debug)]
pub struct Chunk {
    length: u32,
    chunk_type: ChunkType,
    data: Vec<u8>,
    crc: u32,
}

impl View for Chunk {
    type V = ChunkView;

    closed spec fn view(&self) -> ChunkView {
        ChunkView {
            length: self.length,
            chunk_type: self.chunk_type@,
            data: self.data@,
            crc: self.crc,
        }
    }
}

impl Clone for Chunk {
    fn clone(&self) -> (copy: Chunk)
        ensures
            copy@ == self@,
    {
        proof {
            use_type_invariant(self);
        }
        let data = self.data.clone();
        assert(data@ =~= self.data@);
        Chunk { length: self.length, chunk_type: self.chunk_type, data, crc: self.crc }
    }
}

fn crc_of(chunk_type: &ChunkType, data: &[u8]) -> (sum: u32)
    ensures
        sum == crc32_iso_hdlc(chunk_type@ + data@),
{
    let t = chunk_type.bytes();
    let mut body: Vec<u8> = Vec::with_capacity(4);
    body.push(t[0]);
    body.push(t[1]);
    body.push(t[2]);
    body.push(t[3]);
    body.extend_from_slice(data);
    assert(body@ =~= chunk_type@ + data@);
    checksum(body.as_slice())
}

impl Chunk {
    #[verifier::type_invariant]
    pub closed spec fn inv(&self) -> bool {
        self@.wf()
    }

    /// Makes the chunk that carries `data` under `chunk_type`, and computes
    /// its checksum.
    pub fn new(chunk_type: ChunkType, data: Vec<u8>) -> (chunk: Chunk)
        requires
            data@.len() <= u32::MAX,
        ensures
            chunk@ == ChunkView::of(chunk_type@, data@),
            chunk@.wf(),
    {
        let crc = crc_of(&chunk_type, data.as_slice());
        Chunk { length: data.len() as u32, chunk_type, data, crc }
    }

    /// The length of the payload.
    pub fn length(&self) -> (length: u32)
        ensures
            length == self@.length,
            length == self@.data.len(),
    {
        proof {
            use_type_invariant(self);
        }
        self.length
    }

    /// The type.
    pub fn chunk_type(&self) -> (chunk_type: &ChunkType)
        ensures
            chunk_type@ == self@.chunk_type,
    {
        &self.chunk_type
    }

    /// The payload.
    pub fn data(&self) -> (data: &[u8])
        ensures
            data@ == self@.data,
    {
        self.data.as_slice()
    }

    /// The checksum of type and payload.
    pub fn crc(&self) -> (crc: u32)
        ensures
            crc == self@.crc,
            crc == crc32_iso_hdlc(self@.chunk_type + self@.data),
    {
        proof {
            use_type_invariant(self);
        }
        self.crc
    }

    /// The payload as text. Fails with `InvalidStringData` where the payload
    /// is not UTF-8.
    pub fn data_as_string(&self) -> (r: Result<String, Error>)
        ensures
            match r {
                Ok(s) => text_of(self@.data) == Some(s@),
                Err(e) => text_of(self@.data) is None && e == Error::InvalidStringData,
            },
    {
        match bytes_to_str(self.data.as_slice()) {
            Some(s) => Ok(s.to_owned()),
            None => Err(Error::InvalidStringData),
        }
    }

    /// The encoding of the chunk, see `ChunkView::bytes`. Where the type is
    /// one that decoding accepts, the encoding decodes to this chunk again.
    pub fn as_bytes(&self) -> (bytes: Vec<u8>)
        ensures
            bytes@ == self@.bytes(),
            type_is_valid(self@.chunk_type) ==> parse_chunk(bytes@) == Ok::<ChunkView, Error>(
                self@,
            ),
    {
        proof {
            use_type_invariant(self);
            if type_is_valid(self@.chunk_type) {
                lemma_parse_of_bytes(self@, Seq::empty());
            }
        }
        let t = self.chunk_type.bytes();
        let mut bytes: Vec<u8> = Vec::new();
        write_u32(&mut bytes, self.length);
        bytes.push(t[0]);
        bytes.push(t[1]);
        bytes.push(t[2]);
        bytes.push(t[3]);
        bytes.extend_from_slice(self.data.as_slice());
        write_u32(&mut bytes, self.crc);
        assert(bytes@ =~= self@.bytes());
        bytes
    }

    /// The chunk shown as text: the text of its type. Payload and checksum
    /// are not part of it.
    pub fn to_string(&self) -> (s: String)
        ensures
            s@ == type_text(self@.chunk_type),
    {
        self.chunk_type.to_string()
    }
}

impl TryFrom<&[u8]> for Chunk {
    type Error = Error;

    /// Decodes the chunk at the start of `value`, see `parse_chunk`. The
    /// chunk that comes out encodes to the bytes that were read.
    fn try_from(value: &[u8]) -> (r: Result<Chunk, Error>)
        ensures
            match r {
                Ok(chunk) => {
                    &&& parse_chunk(value@) == Ok::<ChunkView, Error>(chunk@)
                    &&& chunk@.wf()
                    &&& type_is_valid(chunk@.chunk_type)
                    &&& 12 + chunk@.length <= value@.len()
                    &&& chunk@.bytes() == value@.subrange(0, 12 + chunk@.length)
                },
                Err(e) => parse_chunk(value@) == Err::<ChunkView, Error>(e),
            },
    {
        proof {
            if parse_chunk(value@) is Ok {
                lemma_bytes_of_parse(value@);
            }
        }
        if value.len() < 8 {
            return Err(Error::Truncation);
        }
        let length = read_u32(value, 0);
        let bits = [value[4], value[5], value[6], value[7]];
        assert(bits@ =~= value@.subrange(4, 8));
        let chunk_type = match ChunkType::try_from(bits) {
            Ok(t) => t,
            Err(e) => {
                return Err(e);
            },
        };
        if !chunk_type.is_valid() {
            return Err(Error::InvalidChunk);
        }
        let n = length as usize;
        if value.len() - 8 < n || value.len() - 8 - n < 4 {
            return Err(Error::Truncation);
        }
        let data = slice_to_vec(slice_subrange(value, 8, 8 + n));
        let crc = read_u32(value, 8 + n);
        assert(value@.subrange(4, 8 + n) =~= chunk_type@ + data@);
        if checksum(slice_subrange(value, 4, 8 + n)) == crc {
            Ok(Chunk { length, chunk_type, data, crc })
        } else {
            Err(Error::InvalidChunk)
        }
    }
}

impl TryFromSpecImpl<&[u8]> for Chunk {
    /// Chunks are told apart by their views, so what `try_from` returns is
    /// stated in its own clauses and not here.
    open spec fn obeys_try_from_spec() -> bool {
        false
    }

    closed spec fn try_from_spec(v: &[u8]) -> Result<Self, Error> {
        match parse_chunk(v@) {
            Ok(view) => Ok(choose|chunk: Chunk| chunk@ == view),
            Err(e) => Err(e),
        }
    }
}

} // verus!
