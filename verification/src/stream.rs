//! What is written to the device for one transfer unit, piece by piece.

use crate::sparse::{chunk_header_bytes, header_bytes, CHUNK_HEADER_LEN, FILE_HEADER_LEN};
use crate::split::{unit_bytes, TransferUnit, UnitChunk};
use vstd::prelude::*;

verus! {

/// One piece of what is written to the device for a unit.
#[derive(Clone, Debug, PartialEq, Eq)]
pub enum Segment {
    /// These bytes.
    Bytes(Vec<u8>),
    /// `len` bytes of the source, from `offset` on.
    Source { offset: u64, len: u32 },
}

/// A piece of a transfer, as contracts speak of it.
pub enum Piece {
    Bytes(Seq<u8>),
    Source { offset: u64, len: u32 },
}

impl View for Segment {
    type V = Piece;

    open spec fn view(&self) -> Piece {
        match *self {
            Segment::Bytes(bytes) => Piece::Bytes(bytes@),
            Segment::Source { offset, len } => Piece::Source { offset, len },
        }
    }
}

impl Piece {
    /// Bytes that the piece puts on the wire.
    pub open spec fn len(self) -> int {
        match self {
            Piece::Bytes(bytes) => bytes.len() as int,
            Piece::Source { len, .. } => len as int,
        }
    }
}

/// The pieces that `segments` stand for.
pub open spec fn pieces(segments: Seq<Segment>) -> Seq<Piece> {
    segments.map_values(|s: Segment| s@)
}

/// Bytes that all of `stream` puts on the wire.
pub open spec fn stream_len(stream: Seq<Piece>) -> int
    decreases stream.len(),
{
    if stream.len() == 0 {
        0
    } else {
        stream_len(stream.drop_last()) + stream.last().len()
    }
}

/// What is written for the chunks of a unit: for each chunk its header,
/// then its payload, taken from the source.
pub open spec fn chunk_stream(chunks: Seq<UnitChunk>) -> Seq<Piece>
    decreases chunks.len(),
{
    if chunks.len() == 0 {
        Seq::empty()
    } else {
        chunk_stream(chunks.drop_last()) + seq![
            Piece::Bytes(chunk_header_bytes(chunks.last().record)),
            Piece::Source { offset: chunks.last().offset, len: chunks.last().size },
        ]
    }
}

/// What is written for a unit: for a sparse unit its header and then its
/// chunks; for a raw range the bytes of the range.
pub open spec fn unit_stream(unit: TransferUnit) -> Seq<Piece> {
    match unit {
        TransferUnit::Sparse { header, chunks, .. } => seq![Piece::Bytes(header_bytes(header))]
            + chunk_stream(chunks@),
        TransferUnit::Raw { offset, len } => seq![Piece::Source { offset, len }],
    }
}

/// Whether the unit can be written out: the header of a sparse unit is one
/// of this format.
pub open spec fn streamable(unit: TransferUnit) -> bool {
    unit matches TransferUnit::Sparse { header, .. } ==> header.is_standard()
}

/// The bytes of an array, in a vector.
fn to_vec<const N: usize>(bytes: &[u8; N]) -> (r: Vec<u8>)
    ensures
        r@ == bytes@,
{
    vstd::slice::slice_to_vec(vstd::array::array_as_slice(bytes))
}

impl TransferUnit {
    /// Tells whether the unit can be written out.
    pub fn can_stream(&self) -> (r: bool)
        ensures
            r == streamable(*self),
    {
        match self {
            TransferUnit::Sparse { header, .. } => header.follows_format(),
            TransferUnit::Raw { .. } => true,
        }
    }

    /// The pieces that are written to the device for this unit, in their
    /// order: the header and, chunk by chunk, the chunk header and the
    /// payload from the source; or, for a raw range, the range.
    ///
    /// The header of a sparse unit must be one of this format.
    pub fn segments(&self) -> (r: Vec<Segment>)
        requires
            streamable(*self),
        ensures
            pieces(r@) == unit_stream(*self),
    {
        let mut out: Vec<Segment> = Vec::new();
        match self {
            TransferUnit::Raw { offset, len } => {
                out.push(Segment::Source { offset: *offset, len: *len });
                assert(pieces(out@) =~= unit_stream(*self));
            },
            TransferUnit::Sparse { header, chunks, .. } => {
                let head = header.to_bytes();
                out.push(Segment::Bytes(to_vec(&head)));
                let ghost first = seq![Piece::Bytes(header_bytes(*header))];
                assert(pieces(out@) =~= first + chunk_stream(chunks@.take(0)));
                let mut i: usize = 0;
                while i < chunks.len()
                    invariant
                        i <= chunks@.len(),
                        first == seq![Piece::Bytes(header_bytes(*header))],
                        pieces(out@) == first + chunk_stream(chunks@.take(i as int)),
                    decreases chunks@.len() - i,
                {
                    let c = chunks[i];
                    let bytes = c.record.to_bytes();
                    let ghost before = out@;
                    out.push(Segment::Bytes(to_vec(&bytes)));
                    out.push(Segment::Source { offset: c.offset, len: c.size });
                    proof {
                        assert(chunks@.take(i + 1).drop_last() =~= chunks@.take(i as int));
                        assert(pieces(out@) =~= pieces(before) + seq![
                            Piece::Bytes(chunk_header_bytes(c.record)),
                            Piece::Source { offset: c.offset, len: c.size },
                        ]);
                        assert(pieces(out@) =~= first + chunk_stream(chunks@.take(i + 1)));
                    }
                    i = i + 1;
                }
                assert(chunks@.take(i as int) =~= chunks@);
            },
        }
        out
    }
}

/// One more piece adds its bytes.
proof fn lemma_stream_len_push(stream: Seq<Piece>, piece: Piece)
    ensures
        stream_len(stream.push(piece)) == stream_len(stream) + piece.len(),
{
    assert(stream.push(piece).drop_last() =~= stream);
}

/// The bytes of two streams, one after the other, add up.
proof fn lemma_stream_len_concat(a: Seq<Piece>, b: Seq<Piece>)
    ensures
        stream_len(a + b) == stream_len(a) + stream_len(b),
    decreases b.len(),
{
    if b.len() == 0 {
        assert(a + b =~= a);
    } else {
        lemma_stream_len_concat(a, b.drop_last());
        assert((a + b).drop_last() =~= a + b.drop_last());
    }
}

/// Chunks whose sizes are in order put on the wire what their headers
/// declare.
proof fn lemma_chunk_stream_len(chunks: Seq<UnitChunk>)
    requires
        forall|i: int| 0 <= i < chunks.len() ==> sized_in_order(#[trigger] chunks[i]),
    ensures
        stream_len(chunk_stream(chunks)) == unit_bytes(chunks),
    decreases chunks.len(),
{
    if chunks.len() > 0 {
        let c = chunks.last();
        let front = chunks.drop_last();
        assert forall|i: int| 0 <= i < front.len() implies sized_in_order(#[trigger] front[i]) by {
            assert(front[i] == chunks[i]);
        }
        lemma_chunk_stream_len(front);
        let two = seq![
            Piece::Bytes(chunk_header_bytes(c.record)),
            Piece::Source { offset: c.offset, len: c.size },
        ];
        lemma_stream_len_concat(chunk_stream(front), two);
        assert(sized_in_order(c));
        crate::sparse::lemma_chunk_round_trip(c.record);
        let none = Seq::<Piece>::empty();
        let header = Piece::Bytes(chunk_header_bytes(c.record));
        lemma_stream_len_push(none, header);
        lemma_stream_len_push(none.push(header), Piece::Source { offset: c.offset, len: c.size });
        assert(two =~= none.push(header).push(Piece::Source { offset: c.offset, len: c.size }));
    }
}

/// Whether the sizes of a chunk are in order: its total size holds a chunk
/// header, and its payload is what is left.
pub open spec fn sized_in_order(c: UnitChunk) -> bool {
    c.record.total_size >= CHUNK_HEADER_LEN && c.size == c.record.total_size - CHUNK_HEADER_LEN
}

/// What is written for a unit is as many bytes as the upload of the unit
/// declares: for a raw range always, and for a sparse unit where its header
/// is one of this format, its size is that of its header and its chunks,
/// and the sizes of each chunk are in order.
pub proof fn lemma_stream_is_declared_size(unit: TransferUnit)
    requires
        unit matches TransferUnit::Sparse { header, chunks, total_size } ==> {
            &&& header.is_standard()
            &&& total_size == FILE_HEADER_LEN + unit_bytes(chunks@)
            &&& forall|i: int| 0 <= i < chunks@.len() ==> sized_in_order(#[trigger] chunks@[i])
        },
    ensures
        stream_len(unit_stream(unit)) == unit.size(),
{
    match unit {
        TransferUnit::Raw { offset, len } => {
            let none = Seq::<Piece>::empty();
            lemma_stream_len_push(none, Piece::Source { offset, len });
            assert(unit_stream(unit) =~= none.push(Piece::Source { offset, len }));
        },
        TransferUnit::Sparse { header, chunks, total_size } => {
            let head = seq![Piece::Bytes(header_bytes(header))];
            let none = Seq::<Piece>::empty();
            lemma_stream_len_push(none, Piece::Bytes(header_bytes(header)));
            assert(head =~= none.push(Piece::Bytes(header_bytes(header))));
            crate::sparse::lemma_header_round_trip(header);
            lemma_chunk_stream_len(chunks@);
            lemma_stream_len_concat(head, chunk_stream(chunks@));
        },
    }
}

} // verus!
