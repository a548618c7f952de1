//! One chunk record: a type code and a payload, with their exact byte form.
//!
//! A record is, in this order: the payload's length in four bytes, most
//! significant first; the four bytes of the type code; the payload; and the
//! CRC-32 over type code and payload, again in four bytes, most significant
//! first. The length field is not part of what the checksum covers.

use crate::byte_order::{
    be_bytes, be_value, lemma_be_bytes_of_value, lemma_be_value_of_bytes, push_u32_be, read_u32_be,
};
use crate::checksum::{crc32, crc32_iso_hdlc};
use crate::chunk_type::{is_valid_code, ChunkType, InvalidChunkType};
use crate::text::{ascii_text, decimal_string, decimal_text};
use vstd::prelude::*;
use vstd::slice::{slice_subrange, slice_to_vec};
use vstd::std_specs::cmp::PartialEqSpecImpl;
use vstd::std_specs::convert::TryFromSpecImpl;
use vstd::string::StringExecFns;
use vstd::utf8::{decode_utf8, valid_utf8};

verus! {

/// Why bytes were refused as a chunk record.
#[derive(Debug, Clone, Copy, PartialEq, Eq)]
pub enum ChunkError {
    /// The bytes end before the record does.
    IO,
    /// The checksum stored in the record is not that of its type code and payload.
    CrcMismatch,
    /// The four bytes of the type code are not a valid code.
    InvalidChunkType(InvalidChunkType),
}

/// What a chunk is: the four bytes of its type code, and its payload.
pub struct ChunkView {
    pub chunk_type: Seq<u8>,
    pub data: Seq<u8>,
}

/// The checksum of a chunk: the CRC-32 over type code, then payload.
pub open spec fn checksum_of(c: ChunkView) -> u32 {
    crc32_iso_hdlc(c.chunk_type + c.data)
}

/// The length field of a record with this payload: the payload's length,
/// cut to 32 bits.
pub open spec fn length_field(data: Seq<u8>) -> u32 {
    (data.len() % 0x1_0000_0000) as u32
}

/// The record that holds a type code, a payload and a checksum: length, type
/// code, payload, checksum.
pub open spec fn record_bytes(chunk_type: Seq<u8>, data: Seq<u8>, crc: u32) -> Seq<u8> {
    be_bytes(length_field(data)) + chunk_type + data + be_bytes(crc)
}

/// The byte form of a chunk: its record, with its own checksum.
pub open spec fn chunk_bytes(c: ChunkView) -> Seq<u8> {
    record_bytes(c.chunk_type, c.data, checksum_of(c))
}

/// The number of bytes that the record of a chunk takes.
pub open spec fn record_len(c: ChunkView) -> nat {
    12 + c.data.len()
}

/// Splits the record at the start of `bytes` into the chunk it frames and the
/// checksum it stores. Bytes behind the record are not looked at.
///
/// The header of eight bytes is read first, then the type code is judged, and
/// only then are payload and checksum asked for.
pub open spec fn split_record(bytes: Seq<u8>) -> Result<(ChunkView, u32), ChunkError> {
    if bytes.len() < 8 {
        Err(ChunkError::IO)
    } else if !is_valid_code(bytes.subrange(4, 8)) {
        Err(ChunkError::InvalidChunkType(InvalidChunkType))
    } else if bytes.len() < 12 + be_value(bytes.subrange(0, 4)) {
        Err(ChunkError::IO)
    } else {
        let end = 8 + be_value(bytes.subrange(0, 4));
        Ok(
            (
                ChunkView { chunk_type: bytes.subrange(4, 8), data: bytes.subrange(8, end) },
                be_value(bytes.subrange(end, end + 4)),
            ),
        )
    }
}

/// Accepts a framed chunk if the stored checksum is its own.
pub open spec fn checked(c: ChunkView, stored: u32) -> Result<ChunkView, ChunkError> {
    if checksum_of(c) == stored {
        Ok(c)
    } else {
        Err(ChunkError::CrcMismatch)
    }
}

/// Parses the record at the start of `bytes`: splits it, then judges the
/// checksum. A chunk whose checksum is wrong is not given out.
pub open spec fn parse_chunk(bytes: Seq<u8>) -> Result<ChunkView, ChunkError> {
    match split_record(bytes) {
        Ok((c, stored)) => checked(c, stored),
        Err(e) => Err(e),
    }
}

/// The lines that describe a chunk of this type code, payload length and
/// checksum: the length field, the type code as text, the payload's length,
/// and the checksum, each number in decimal.
pub open spec fn summary_text(chunk_type: Seq<u8>, data_len: nat, crc: u32) -> Seq<char> {
    "Chunk {\n  Length: "@ + decimal_text(data_len % 0x1_0000_0000) + "\n  Type: "@ + ascii_text(
        chunk_type,
    ) + "\n  Data: "@ + decimal_text(data_len) + " bytes\n  Crc: "@ + decimal_text(crc as nat)
        + "\n}\n"@
}

/// The lines that describe a chunk.
pub open spec fn chunk_text(c: ChunkView) -> Seq<char> {
    summary_text(c.chunk_type, c.data.len(), checksum_of(c))
}

/// The low 32 bits of a length.
fn low_32_bits(len: usize) -> (n: u32)
    ensures
        n == len as nat % 0x1_0000_0000,
{
    (len as u64 % 0x1_0000_0000) as u32
}

/// A chunk: a type code and a payload. Any payload goes with any type code.
#[derive(Debug)]
pub struct Chunk {
    chunk_type: ChunkType,
    data: Vec<u8>,
}

impl View for Chunk {
    type V = ChunkView;

    closed spec fn view(&self) -> ChunkView {
        ChunkView { chunk_type: self.chunk_type@, data: self.data@ }
    }
}

impl Chunk {
    /// A chunk of this type and payload. The payload is not looked at.
    pub fn new(chunk_type: ChunkType, data: Vec<u8>) -> (chunk: Chunk)
        ensures
            chunk@ == (ChunkView { chunk_type: chunk_type@, data: data@ }),
    {
        Chunk { chunk_type, data }
    }

    /// The length field of the chunk's record: the payload's length, cut to
    /// 32 bits.
    pub fn length(&self) -> (n: u32)
        ensures
            n == length_field(self@.data),
    {
        low_32_bits(self.data.len())
    }

    /// The type code.
    pub fn chunk_type(&self) -> (chunk_type: &ChunkType)
        ensures
            chunk_type@ == self@.chunk_type,
    {
        &self.chunk_type
    }

    /// The payload.
    pub fn data(&self) -> (data: &[u8])
        ensures
            data@ == self@.data,
    {
        self.data.as_slice()
    }

    /// The checksum of the chunk.
    pub fn crc(&self) -> (sum: u32)
        ensures
            sum == checksum_of(self@),
    {
        let code = self.chunk_type.bytes();
        let mut bytes: Vec<u8> = Vec::new();
        bytes.push(code[0]);
        bytes.push(code[1]);
        bytes.push(code[2]);
        bytes.push(code[3]);
        bytes.extend_from_slice(self.data.as_slice());
        assert(bytes@ =~= self@.chunk_type + self@.data);
        crc32(bytes.as_slice())
    }

    /// The payload as text. It is text exactly if it is valid UTF-8, and the
    /// text is then what the payload encodes.
    pub fn data_as_string(&self) -> (r: Result<String, std::string::FromUtf8Error>)
        ensures
            r is Ok <==> valid_utf8(self@.data),
            r matches Ok(text) ==> text@ == decode_utf8(self@.data),
    {
        String::from_utf8(self.data.clone())
    }

    /// The record of a chunk whose checksum is `crc`.
    pub fn encode_record(chunk_type: &ChunkType, data: &[u8], crc: u32) -> (bytes: Vec<u8>)
        ensures
            bytes@ == record_bytes(chunk_type@, data@, crc),
    {
        let code = chunk_type.bytes();
        let mut bytes: Vec<u8> = Vec::new();
        push_u32_be(&mut bytes, low_32_bits(data.len()));
        bytes.push(code[0]);
        bytes.push(code[1]);
        bytes.push(code[2]);
        bytes.push(code[3]);
        bytes.extend_from_slice(data);
        assert(bytes@ =~= be_bytes(length_field(data@)) + chunk_type@ + data@);
        push_u32_be(&mut bytes, crc);
        bytes
    }

    /// The byte form of the chunk: length, type code, payload, checksum.
    pub fn as_bytes(&self) -> (bytes: Vec<u8>)
        ensures
            bytes@ == chunk_bytes(self@),
    {
        Chunk::encode_record(&self.chunk_type, self.data.as_slice(), self.crc())
    }

    /// Reads the record at the start of `bytes` without judging its checksum:
    /// gives the chunk that it frames and the checksum that it stores.
    ///
    /// The payload is copied only once the bytes are known to hold it, so a
    /// length field that promises more than there is costs nothing.
    pub fn split_record(bytes: &[u8]) -> (r: Result<(Chunk, u32), ChunkError>)
        ensures
            match r {
                Ok((chunk, stored)) => split_record(bytes@) == Ok::<(ChunkView, u32), ChunkError>(
                    (chunk@, stored),
                ),
                Err(e) => split_record(bytes@) == Err::<(ChunkView, u32), ChunkError>(e),
            },
    {
        let n = bytes.len();
        if n < 8 {
            return Err(ChunkError::IO);
        }
        let length = read_u32_be(bytes, 0) as usize;
        let code = [bytes[4], bytes[5], bytes[6], bytes[7]];
        assert(code@ =~= bytes@.subrange(4, 8));
        let chunk_type = match ChunkType::try_from(code) {
            Ok(chunk_type) => chunk_type,
            Err(e) => {
                return Err(ChunkError::InvalidChunkType(e));
            },
        };
        if n - 8 < length || n - 8 - length < 4 {
            return Err(ChunkError::IO);
        }
        let data = slice_to_vec(slice_subrange(bytes, 8, 8 + length));
        let stored = read_u32_be(bytes, 8 + length);
        Ok((Chunk { chunk_type, data }, stored))
    }

    /// Accepts `chunk` if `computed`, its checksum, is the one that its
    /// record stored.
    pub fn accept(chunk: Chunk, stored: u32, computed: u32) -> (r: Result<Chunk, ChunkError>)
        ensures
            stored == computed ==> r == Ok::<Chunk, ChunkError>(chunk),
            stored != computed ==> r == Err::<Chunk, ChunkError>(ChunkError::CrcMismatch),
    {
        if stored == computed {
            Ok(chunk)
        } else {
            Err(ChunkError::CrcMismatch)
        }
    }

    /// Describes a chunk of this type code, payload length and checksum.
    pub fn describe(chunk_type: &ChunkType, data_len: usize, crc: u32) -> (text: String)
        ensures
            text@ == summary_text(chunk_type@, data_len as nat, crc),
    {
        let mut text = String::from_str("Chunk {\n  Length: ");
        text.append(decimal_string(low_32_bits(data_len) as u64).as_str());
        text.append("\n  Type: ");
        text.append(chunk_type.to_string().as_str());
        text.append("\n  Data: ");
        text.append(decimal_string(data_len as u64).as_str());
        text.append(" bytes\n  Crc: ");
        text.append(decimal_string(crc as u64).as_str());
        text.append("\n}\n");
        text
    }

    /// Describes the chunk for a reader.
    pub fn to_string(&self) -> (text: String)
        ensures
            text@ == chunk_text(self@),
    {
        Chunk::describe(&self.chunk_type, self.data.len(), self.crc())
    }
}

impl Clone for Chunk {
    fn clone(&self) -> (chunk: Chunk)
        ensures
            chunk@ == self@,
    {
        Chunk { chunk_type: self.chunk_type.clone(), data: self.data.clone() }
    }
}

impl PartialEq for Chunk {
    /// Two chunks are equal if type code and payload are.
    fn eq(&self, other: &Chunk) -> (r: bool) {
        let r = self.chunk_type == other.chunk_type && self.data == other.data;
        proof {
            if r {
                assert(self.data@ =~= other.data@);
            }
        }
        r
    }
}

impl Eq for Chunk {

}

impl PartialEqSpecImpl for Chunk {
    open spec fn obeys_eq_spec() -> bool {
        true
    }

    open spec fn eq_spec(&self, other: &Chunk) -> bool {
        self@ == other@
    }
}

impl<'a> TryFrom<&'a [u8]> for Chunk {
    type Error = ChunkError;

    /// Parses the record at the start of `bytes`. Bytes behind the record are
    /// not looked at.
    fn try_from(bytes: &'a [u8]) -> (r: Result<Chunk, ChunkError>)
        ensures
            match r {
                Ok(chunk) => parse_chunk(bytes@) == Ok::<ChunkView, ChunkError>(chunk@),
                Err(e) => parse_chunk(bytes@) == Err::<ChunkView, ChunkError>(e),
            },
    {
        match Chunk::split_record(bytes) {
            Ok((chunk, stored)) => {
                let computed = chunk.crc();
                Chunk::accept(chunk, stored, computed)
            },
            Err(e) => Err(e),
        }
    }
}

/// A chunk is known by its view alone, so the conversion is stated in the
/// `ensures` of `try_from`, over views, and not as a function on chunks.
impl<'a> TryFromSpecImpl<&'a [u8]> for Chunk {
    open spec fn obeys_try_from_spec() -> bool {
        false
    }

    open spec fn try_from_spec(bytes: &'a [u8]) -> Result<Chunk, ChunkError> {
        match parse_chunk(bytes@) {
            Ok(c) => Ok(choose|chunk: Chunk| chunk@ == c),
            Err(e) => Err(e),
        }
    }
}

/// What parsing makes of any well-formed record, whatever follows it: a
/// record with a bad type code is refused for that, and any other is accepted
/// exactly if the checksum that it stores is that of its type code and payload.
pub proof fn lemma_parse_record(chunk_type: Seq<u8>, data: Seq<u8>, crc: u32, rest: Seq<u8>)
    requires
        chunk_type.len() == 4,
        data.len() <= u32::MAX,
    ensures
        record_bytes(chunk_type, data, crc).len() == 12 + data.len(),
        split_record(record_bytes(chunk_type, data, crc) + rest) == (if is_valid_code(chunk_type) {
            Ok::<(ChunkView, u32), ChunkError>((ChunkView { chunk_type, data }, crc))
        } else {
            Err::<(ChunkView, u32), ChunkError>(ChunkError::InvalidChunkType(InvalidChunkType))
        }),
        parse_chunk(record_bytes(chunk_type, data, crc) + rest) == (if is_valid_code(chunk_type) {
            checked(ChunkView { chunk_type, data }, crc)
        } else {
            Err::<ChunkView, ChunkError>(ChunkError::InvalidChunkType(InvalidChunkType))
        }),
{
    let len = length_field(data);
    let bytes = record_bytes(chunk_type, data, crc) + rest;
    let end = 8 + data.len() as int;
    lemma_be_value_of_bytes(len);
    lemma_be_value_of_bytes(crc);
    assert(bytes.subrange(0, 4) =~= be_bytes(len));
    assert(bytes.subrange(4, 8) =~= chunk_type);
    assert(bytes.subrange(8, end) =~= data);
    assert(bytes.subrange(end, end + 4) =~= be_bytes(crc));
}

/// Round trip: the byte form of a chunk parses back to that chunk. The type
/// code has to be a valid one and the payload's length has to fit the length
/// field, or the bytes do not say what the chunk was.
pub proof fn lemma_chunk_round_trip(c: ChunkView)
    requires
        is_valid_code(c.chunk_type),
        c.data.len() <= u32::MAX,
    ensures
        parse_chunk(chunk_bytes(c)) == Ok::<ChunkView, ChunkError>(c),
{
    lemma_parse_record(c.chunk_type, c.data, checksum_of(c), Seq::empty());
    assert(chunk_bytes(c) + Seq::<u8>::empty() =~= chunk_bytes(c));
}

/// The byte form of a chunk, with anything behind it, parses to that chunk,
/// and what is behind it starts where the record ends.
pub proof fn lemma_chunk_then_rest(c: ChunkView, rest: Seq<u8>)
    requires
        is_valid_code(c.chunk_type),
        c.data.len() <= u32::MAX,
    ensures
        chunk_bytes(c).len() == record_len(c),
        parse_chunk(chunk_bytes(c) + rest) == Ok::<ChunkView, ChunkError>(c),
        (chunk_bytes(c) + rest).skip(record_len(c) as int) == rest,
{
    lemma_parse_record(c.chunk_type, c.data, checksum_of(c), rest);
    lemma_skip_front(chunk_bytes(c), rest);
}

/// What parsing accepts is the byte form of what it gives: the chunk has a
/// valid type code and a payload that fits the length field, and its byte
/// form is the front of the input, byte for byte.
pub proof fn lemma_parsed_chunk_bytes(bytes: Seq<u8>, c: ChunkView)
    requires
        parse_chunk(bytes) == Ok::<ChunkView, ChunkError>(c),
    ensures
        is_valid_code(c.chunk_type),
        c.data.len() <= u32::MAX,
        record_len(c) <= bytes.len(),
        chunk_bytes(c) == bytes.take(record_len(c) as int),
{
    let end = 8 + be_value(bytes.subrange(0, 4)) as int;
    assert(length_field(c.data) == be_value(bytes.subrange(0, 4)));
    lemma_be_bytes_of_value(bytes.subrange(0, 4));
    lemma_be_bytes_of_value(bytes.subrange(end, end + 4));
    lemma_front_of_parts(bytes, end);
}

/// A change in the checksum field is always found: whatever four bytes stand
/// there in place of the chunk's own checksum, the record is refused with
/// `CrcMismatch`.
pub proof fn lemma_checksum_field_is_guarded(c: ChunkView, field: Seq<u8>)
    requires
        is_valid_code(c.chunk_type),
        c.data.len() <= u32::MAX,
        field.len() == 4,
        field != be_bytes(checksum_of(c)),
    ensures
        parse_chunk(be_bytes(length_field(c.data)) + c.chunk_type + c.data + field) == Err::<
            ChunkView,
            ChunkError,
        >(ChunkError::CrcMismatch),
{
    lemma_be_bytes_of_value(field);
    lemma_parse_record(c.chunk_type, c.data, be_value(field), Seq::empty());
    let bytes = be_bytes(length_field(c.data)) + c.chunk_type + c.data + field;
    assert(record_bytes(c.chunk_type, c.data, be_value(field)) + Seq::<u8>::empty() =~= bytes);
}

/// A change in type code or payload that keeps the length is found unless the
/// changed content has the checksum of the old: the record that holds the
/// changed content under the old checksum is accepted if and only if the two
/// checksums agree, and what it then gives is the changed chunk.
pub proof fn lemma_content_is_guarded(c: ChunkView, changed: ChunkView)
    requires
        changed.chunk_type.len() == 4,
        changed.data.len() <= u32::MAX,
    ensures
        parse_chunk(record_bytes(changed.chunk_type, changed.data, checksum_of(c))) == (
        if !is_valid_code(changed.chunk_type) {
            Err::<ChunkView, ChunkError>(ChunkError::InvalidChunkType(InvalidChunkType))
        } else if checksum_of(changed) == checksum_of(c) {
            Ok::<ChunkView, ChunkError>(changed)
        } else {
            Err::<ChunkView, ChunkError>(ChunkError::CrcMismatch)
        }),
{
    lemma_parse_record(changed.chunk_type, changed.data, checksum_of(c), Seq::empty());
    let bytes = record_bytes(changed.chunk_type, changed.data, checksum_of(c));
    assert(bytes + Seq::<u8>::empty() =~= bytes);
}

/// Skipping the front part of a sequence leaves the rest.
proof fn lemma_skip_front(front: Seq<u8>, rest: Seq<u8>)
    ensures
        (front + rest).skip(front.len() as int) == rest,
{
    assert((front + rest).skip(front.len() as int) =~= rest);
}

/// A sequence of at least `end + 4` bytes starts with its four parts: the
/// first four bytes, the next four, those up to `end`, and four more.
proof fn lemma_front_of_parts(bytes: Seq<u8>, end: int)
    requires
        8 <= end,
        end + 4 <= bytes.len(),
    ensures
        bytes.subrange(0, 4) + bytes.subrange(4, 8) + bytes.subrange(8, end) + bytes.subrange(
            end,
            end + 4,
        ) == bytes.take(end + 4),
{
    assert(bytes.subrange(0, 4) + bytes.subrange(4, 8) + bytes.subrange(8, end) + bytes.subrange(
        end,
        end + 4,
    ) =~= bytes.take(end + 4));
}

} // verus!
