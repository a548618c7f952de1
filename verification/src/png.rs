//! A PNG file as its ordered list of chunks.
//!
//! A file is the signature of eight bytes and then chunk records, back to
//! back, to its end. The order of the chunks is part of the file, and a type
//! code may occur more than once. Whether the chunks make a picture is not
//! looked at.

use crate::chunk::{
    chunk_bytes, chunk_text, lemma_chunk_then_rest, lemma_parsed_chunk_bytes, parse_chunk,
    record_len, Chunk, ChunkError, ChunkView,
};
use crate::chunk_type::is_valid_code;
use crate::text::ascii_text;
use vstd::prelude::*;
use vstd::slice::slice_subrange;
use vstd::std_specs::convert::TryFromSpecImpl;
use vstd::string::StringExecFns;

verus! {

/// Why an operation on a PNG failed.
#[derive(Debug, Clone, Copy, PartialEq, Eq)]
pub enum PngError {
    /// The bytes do not start with the PNG signature.
    InvalidHeader,
    /// A chunk record was refused.
    Chunk(ChunkError),
    /// No chunk has the type code that was asked for.
    ChunkNotFound,
}

/// The eight bytes that every PNG file starts with.
pub open spec fn signature() -> Seq<u8> {
    seq![137u8, 80u8, 78u8, 71u8, 13u8, 10u8, 26u8, 10u8]
}

/// What `r` becomes with the chunks `done` put in front of it.
pub open spec fn after(done: Seq<ChunkView>, r: Result<Seq<ChunkView>, ChunkError>) -> Result<
    Seq<ChunkView>,
    ChunkError,
> {
    match r {
        Ok(rest) => Ok(done + rest),
        Err(e) => Err(e),
    }
}

/// Parses records back to back until the bytes are used up. The first record
/// that is refused fails the whole.
pub open spec fn parse_chunks(bytes: Seq<u8>) -> Result<Seq<ChunkView>, ChunkError>
    decreases bytes.len(),
{
    if bytes.len() == 0 {
        Ok(Seq::empty())
    } else {
        match parse_chunk(bytes) {
            Ok(c) => after(seq![c], parse_chunks(bytes.skip(record_len(c) as int))),
            Err(e) => Err(e),
        }
    }
}

/// Parses a whole file: the signature, then chunk records to the end.
pub open spec fn parse_png(bytes: Seq<u8>) -> Result<Seq<ChunkView>, PngError> {
    if bytes.len() < 8 || bytes.subrange(0, 8) != signature() {
        Err(PngError::InvalidHeader)
    } else {
        match parse_chunks(bytes.skip(8)) {
            Ok(chunks) => Ok(chunks),
            Err(e) => Err(PngError::Chunk(e)),
        }
    }
}

/// The byte forms of the chunks, one behind the other.
pub open spec fn chunks_bytes(chunks: Seq<ChunkView>) -> Seq<u8>
    decreases chunks.len(),
{
    if chunks.len() == 0 {
        Seq::empty()
    } else {
        chunks_bytes(chunks.drop_last()) + chunk_bytes(chunks.last())
    }
}

/// The byte form of a file with these chunks.
pub open spec fn png_bytes(chunks: Seq<ChunkView>) -> Seq<u8> {
    signature() + chunks_bytes(chunks)
}

/// The descriptions of the chunks, one behind the other.
pub open spec fn png_text(chunks: Seq<ChunkView>) -> Seq<char>
    decreases chunks.len(),
{
    if chunks.len() == 0 {
        Seq::empty()
    } else {
        png_text(chunks.drop_last()) + chunk_text(chunks.last())
    }
}

/// The chunk's type code, as text, is `chunk_type`.
pub open spec fn has_type(c: ChunkView, chunk_type: Seq<char>) -> bool {
    ascii_text(c.chunk_type) == chunk_type
}

/// `i` is the place of the first chunk of type `chunk_type`.
pub open spec fn is_first_of_type(chunks: Seq<ChunkView>, chunk_type: Seq<char>, i: int) -> bool {
    &&& 0 <= i < chunks.len()
    &&& has_type(chunks[i], chunk_type)
    &&& forall|j: int| 0 <= j < i ==> !has_type(#[trigger] chunks[j], chunk_type)
}

/// No chunk is of type `chunk_type`.
pub open spec fn none_of_type(chunks: Seq<ChunkView>, chunk_type: Seq<char>) -> bool {
    forall|j: int| 0 <= j < chunks.len() ==> !has_type(#[trigger] chunks[j], chunk_type)
}

/// Every chunk can be told from its byte form: its type code is a valid one
/// and its payload's length fits the length field.
pub open spec fn all_encodable(chunks: Seq<ChunkView>) -> bool {
    forall|i: int|
        0 <= i < chunks.len() ==> is_valid_code((#[trigger] chunks[i]).chunk_type)
            && chunks[i].data.len() <= u32::MAX
}

/// The views of a list of chunks.
pub open spec fn views(chunks: Seq<Chunk>) -> Seq<ChunkView> {
    chunks.map_values(|c: Chunk| c@)
}

/// A PNG file: its chunks, in the order of the file.
#[derive(Debug)]
pub struct Png {
    chunks: Vec<Chunk>,
}

impl View for Png {
    type V = Seq<ChunkView>;

    closed spec fn view(&self) -> Seq<ChunkView> {
        views(self.chunks@)
    }
}

impl Png {
    /// The eight bytes that every PNG file starts with.
    pub const STANDARD_HEADER: [u8; 8] = [137, 80, 78, 71, 13, 10, 26, 10];

    /// The file that holds these chunks, in this order.
    pub fn from_chunks(chunks: Vec<Chunk>) -> (png: Png)
        ensures
            png@ == views(chunks@),
    {
        Png { chunks }
    }

    /// Adds `chunk` behind the others.
    pub fn append_chunk(&mut self, chunk: Chunk)
        ensures
            final(self)@ == old(self)@.push(chunk@),
    {
        self.chunks.push(chunk);
        assert(views(self.chunks@) =~= views(old(self).chunks@).push(chunk@));
    }

    /// The place of the first chunk of type `chunk_type`, if there is one.
    pub fn position_by_type(&self, chunk_type: &str) -> (r: Option<usize>)
        ensures
            match r {
                Some(i) => is_first_of_type(self@, chunk_type@, i as int),
                None => none_of_type(self@, chunk_type@),
            },
    {
        let mut i: usize = 0;
        while i < self.chunks.len()
            invariant
                i <= self.chunks@.len(),
                forall|j: int| 0 <= j < i ==> !has_type(#[trigger] self@[j], chunk_type@),
            decreases self.chunks@.len() - i,
        {
            if self.chunks[i].chunk_type().has_text(chunk_type) {
                return Some(i);
            }
            i = i + 1;
        }
        None
    }

    /// Takes out the first chunk of type `chunk_type` and returns it. The
    /// other chunks keep their order. Without such a chunk nothing changes.
    pub fn remove_chunk(&mut self, chunk_type: &str) -> (r: Result<Chunk, PngError>)
        ensures
            match r {
                Ok(chunk) => exists|i: int|
                    {
                        &&& #[trigger] is_first_of_type(old(self)@, chunk_type@, i)
                        &&& chunk@ == old(self)@[i]
                        &&& final(self)@ == old(self)@.remove(i)
                    },
                Err(e) => {
                    &&& e == PngError::ChunkNotFound
                    &&& none_of_type(old(self)@, chunk_type@)
                    &&& final(self)@ == old(self)@
                },
            },
    {
        match self.position_by_type(chunk_type) {
            Some(i) => {
                let chunk = self.chunks.remove(i);
                assert(views(self.chunks@) =~= views(old(self).chunks@).remove(i as int));
                assert(is_first_of_type(old(self)@, chunk_type@, i as int));
                Ok(chunk)
            },
            None => Err(PngError::ChunkNotFound),
        }
    }

    /// The first chunk of type `chunk_type`, if there is one.
    pub fn chunk_by_type(&self, chunk_type: &str) -> (r: Option<&Chunk>)
        ensures
            match r {
                Some(chunk) => exists|i: int|
                    {
                        &&& #[trigger] is_first_of_type(self@, chunk_type@, i)
                        &&& chunk@ == self@[i]
                    },
                None => none_of_type(self@, chunk_type@),
            },
    {
        match self.position_by_type(chunk_type) {
            Some(i) => {
                assert(is_first_of_type(self@, chunk_type@, i as int));
                Some(&self.chunks[i])
            },
            None => None,
        }
    }

    /// The eight bytes that the file starts with.
    pub fn header(&self) -> (header: [u8; 8])
        ensures
            header@ == signature(),
    {
        let header = Png::STANDARD_HEADER;
        assert(header@ =~= signature());
        header
    }

    /// The byte form of the file: the signature, then each chunk's record.
    pub fn as_bytes(&self) -> (bytes: Vec<u8>)
        ensures
            bytes@ == png_bytes(self@),
    {
        let mut bytes: Vec<u8> = Vec::new();
        let header = self.header();
        bytes.extend_from_slice(header.as_slice());
        let mut i: usize = 0;
        assert(self@.take(0) =~= Seq::<ChunkView>::empty());
        while i < self.chunks.len()
            invariant
                i <= self.chunks@.len(),
                bytes@ == png_bytes(self@.take(i as int)),
            decreases self.chunks@.len() - i,
        {
            let record = self.chunks[i].as_bytes();
            bytes.extend_from_slice(record.as_slice());
            proof {
                let now = self@.take(i + 1);
                assert(now.drop_last() =~= self@.take(i as int));
                assert(now.last() == self@[i as int]);
                assert(bytes@ =~= png_bytes(now));
            }
            i = i + 1;
        }
        assert(self@.take(i as int) =~= self@);
        bytes
    }

    /// Describes the file for a reader: the description of each chunk, in
    /// the order of the file.
    pub fn to_string(&self) -> (text: String)
        ensures
            text@ == png_text(self@),
    {
        let mut text = String::new();
        let mut i: usize = 0;
        assert(self@.take(0) =~= Seq::<ChunkView>::empty());
        while i < self.chunks.len()
            invariant
                i <= self.chunks@.len(),
                text@ == png_text(self@.take(i as int)),
            decreases self.chunks@.len() - i,
        {
            text.append(self.chunks[i].to_string().as_str());
            proof {
                let now = self@.take(i + 1);
                assert(now.drop_last() =~= self@.take(i as int));
                assert(now.last() == self@[i as int]);
            }
            i = i + 1;
        }
        assert(self@.take(i as int) =~= self@);
        text
    }

    /// The chunks, in the order of the file.
    pub fn chunks(&self) -> (chunks: &[Chunk])
        ensures
            views(chunks@) == self@,
    {
        self.chunks.as_slice()
    }
}

impl<'a> TryFrom<&'a [u8]> for Png {
    type Error = PngError;

    /// Parses a whole file.
    fn try_from(bytes: &'a [u8]) -> (r: Result<Png, PngError>)
        ensures
            match r {
                Ok(png) => parse_png(bytes@) == Ok::<Seq<ChunkView>, PngError>(png@),
                Err(e) => parse_png(bytes@) == Err::<Seq<ChunkView>, PngError>(e),
            },
    {
        let n = bytes.len();
        if n < 8 || bytes[0] != 137 || bytes[1] != 80 || bytes[2] != 78 || bytes[3] != 71
            || bytes[4] != 13 || bytes[5] != 10 || bytes[6] != 26 || bytes[7] != 10 {
            return Err(PngError::InvalidHeader);
        }
        assert(bytes@.subrange(0, 8) =~= signature());
        let mut chunks: Vec<Chunk> = Vec::new();
        let mut at: usize = 8;
        proof {
            match parse_chunks(bytes@.skip(8)) {
                Ok(all) => {
                    assert(views(chunks@) + all =~= all);
                },
                Err(_) => {},
            }
        }
        while at < n
            invariant
                n == bytes@.len(),
                8 <= at <= n,
                bytes@.subrange(0, 8) == signature(),
                after(views(chunks@), parse_chunks(bytes@.skip(at as int))) == parse_chunks(
                    bytes@.skip(8),
                ),
            decreases n - at,
        {
            let rest = slice_subrange(bytes, at, n);
            assert(rest@ =~= bytes@.skip(at as int));
            match Chunk::try_from(rest) {
                Ok(chunk) => {
                    let ghost done = views(chunks@);
                    let ghost next = bytes@.skip(at as int).skip(record_len(chunk@) as int);
                    at = at + 12 + chunk.data().len();
                    chunks.push(chunk);
                    proof {
                        assert(bytes@.skip(at as int) =~= next);
                        assert(views(chunks@) =~= done + seq![chunk@]);
                        match parse_chunks(next) {
                            Ok(tail) => {
                                assert(done + (seq![chunk@] + tail) =~= (done + seq![chunk@])
                                    + tail);
                            },
                            Err(_) => {},
                        }
                    }
                },
                Err(e) => {
                    return Err(PngError::Chunk(e));
                },
            }
        }
        assert(views(chunks@) + Seq::<ChunkView>::empty() =~= views(chunks@));
        Ok(Png { chunks })
    }
}

/// A file is known by its view alone, so the conversion is stated in the
/// `ensures` of `try_from`, over views, and not as a function on files.
impl<'a> TryFromSpecImpl<&'a [u8]> for Png {
    open spec fn obeys_try_from_spec() -> bool {
        false
    }

    open spec fn try_from_spec(bytes: &'a [u8]) -> Result<Png, PngError> {
        match parse_png(bytes@) {
            Ok(chunks) => Ok(choose|png: Png| png@ == chunks),
            Err(e) => Err(e),
        }
    }
}

/// The byte forms of the chunks start with that of the first chunk.
pub proof fn lemma_chunks_bytes_front(chunks: Seq<ChunkView>)
    requires
        chunks.len() > 0,
    ensures
        chunks_bytes(chunks) == chunk_bytes(chunks[0]) + chunks_bytes(chunks.drop_first()),
    decreases chunks.len(),
{
    if chunks.len() == 1 {
        assert(chunks.drop_last() =~= Seq::<ChunkView>::empty());
        assert(chunks.drop_first() =~= Seq::<ChunkView>::empty());
        assert(chunks_bytes(chunks) =~= chunk_bytes(chunks[0]) + chunks_bytes(
            chunks.drop_first(),
        ));
    } else {
        lemma_chunks_bytes_front(chunks.drop_last());
        assert(chunks.drop_last().drop_first() =~= chunks.drop_first().drop_last());
        assert(chunks_bytes(chunks) =~= chunk_bytes(chunks[0]) + chunks_bytes(
            chunks.drop_first(),
        ));
    }
}

/// Round trip of a list of chunks: their byte forms, one behind the other,
/// parse back to the same chunks in the same order.
pub proof fn lemma_chunks_round_trip(chunks: Seq<ChunkView>)
    requires
        all_encodable(chunks),
    ensures
        parse_chunks(chunks_bytes(chunks)) == Ok::<Seq<ChunkView>, ChunkError>(chunks),
    decreases chunks.len(),
{
    if chunks.len() == 0 {
        assert(chunks =~= Seq::<ChunkView>::empty());
    } else {
        let first = chunks[0];
        let others = chunks.drop_first();
        lemma_chunks_bytes_front(chunks);
        lemma_chunk_then_rest(first, chunks_bytes(others));
        assert(all_encodable(others)) by {
            assert forall|i: int| 0 <= i < others.len() implies is_valid_code(
                (#[trigger] others[i]).chunk_type,
            ) && others[i].data.len() <= u32::MAX by {
                assert(others[i] == chunks[i + 1]);
            }
        }
        lemma_chunks_round_trip(others);
        assert(seq![first] + others =~= chunks);
    }
}

/// Round trip of a file: the byte form of a file parses back to its chunks,
/// in their order.
pub proof fn lemma_png_round_trip(chunks: Seq<ChunkView>)
    requires
        all_encodable(chunks),
    ensures
        parse_png(png_bytes(chunks)) == Ok::<Seq<ChunkView>, PngError>(chunks),
{
    let bytes = png_bytes(chunks);
    assert(bytes.subrange(0, 8) =~= signature());
    assert(bytes.skip(8) =~= chunks_bytes(chunks));
    lemma_chunks_round_trip(chunks);
}

/// What parses as a list of chunks is the byte form of that list: parsing
/// loses nothing and adds nothing.
pub proof fn lemma_parsed_chunks_bytes(bytes: Seq<u8>, chunks: Seq<ChunkView>)
    requires
        parse_chunks(bytes) == Ok::<Seq<ChunkView>, ChunkError>(chunks),
    ensures
        all_encodable(chunks),
        chunks_bytes(chunks) == bytes,
    decreases bytes.len(),
{
    if bytes.len() == 0 {
        assert(chunks_bytes(chunks) =~= bytes);
    } else {
        let first = parse_chunk(bytes)->Ok_0;
        let rest = bytes.skip(record_len(first) as int);
        let others = parse_chunks(rest)->Ok_0;
        lemma_parsed_chunk_bytes(bytes, first);
        lemma_parsed_chunks_bytes(rest, others);
        assert(chunks == seq![first] + others);
        assert(chunks[0] == first);
        assert(chunks.drop_first() =~= others);
        lemma_chunks_bytes_front(chunks);
        assert(bytes.take(record_len(first) as int) + rest =~= bytes);
        assert forall|i: int| 0 <= i < chunks.len() implies is_valid_code(
            (#[trigger] chunks[i]).chunk_type,
        ) && chunks[i].data.len() <= u32::MAX by {
            if i > 0 {
                assert(chunks[i] == others[i - 1]);
            }
        }
    }
}

/// What parses as a file is the byte form of its chunks: a file that was
/// read and is written again is the same file, byte for byte.
pub proof fn lemma_parsed_png_bytes(bytes: Seq<u8>, chunks: Seq<ChunkView>)
    requires
        parse_png(bytes) == Ok::<Seq<ChunkView>, PngError>(chunks),
    ensures
        all_encodable(chunks),
        png_bytes(chunks) == bytes,
{
    lemma_parsed_chunks_bytes(bytes.skip(8), chunks);
    assert(bytes.subrange(0, 8) + bytes.skip(8) =~= bytes);
}

/// At most one place is that of the first chunk of a type, so a contract that
/// speaks of such a place speaks of one chunk.
pub proof fn lemma_first_of_type_is_unique(
    chunks: Seq<ChunkView>,
    chunk_type: Seq<char>,
    i: int,
    j: int,
)
    requires
        is_first_of_type(chunks, chunk_type, i),
        is_first_of_type(chunks, chunk_type, j),
    ensures
        i == j,
{
}

/// Order under removal: of three chunks `a`, `b`, `c` in this order, taking
/// out the first chunk of `b`'s type takes out `b` and leaves `a`, `c`. The
/// type of `a` has to differ from that of `b`, or `a` is the one that leaves.
pub proof fn lemma_remove_keeps_order(a: ChunkView, b: ChunkView, c: ChunkView, i: int)
    requires
        !has_type(a, ascii_text(b.chunk_type)),
        is_first_of_type(seq![a, b, c], ascii_text(b.chunk_type), i),
    ensures
        i == 1,
        seq![a, b, c][i] == b,
        seq![a, b, c].remove(i) == seq![a, c],
        !none_of_type(seq![a, b, c], ascii_text(b.chunk_type)),
{
    let chunks = seq![a, b, c];
    assert(chunks[0] == a);
    assert(chunks[1] == b);
    assert(has_type(chunks[1], ascii_text(b.chunk_type)));
    assert(chunks.remove(1) =~= seq![a, c]);
}

} // verus!
