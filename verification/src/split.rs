//! Packing an image into transfer units, none larger than the device
//! accepts in one transfer.

use crate::sparse::{
    ChunkRecord, ImageHeader, CHUNK_HEADER_LEN, FILE_HEADER_LEN, HEADER_MAGIC, MAJOR_VERSION,
    MINOR_VERSION,
};
use vstd::prelude::*;

verus! {

/// Why an image cannot be packed.
#[derive(Clone, Copy, Debug, PartialEq, Eq, Structural)]
pub enum SplitError {
    /// Something would have to go into a unit of its own and is too large
    /// even for that.
    UnsplittableChunk,
}

/// One chunk of a transfer unit, with the place of its payload in the source.
#[derive(Clone, Copy, Debug, PartialEq, Eq, Structural)]
pub struct UnitChunk {
    pub record: ChunkRecord,
    /// Where the payload begins in the source, in bytes from its start.
    pub offset: u64,
    /// Bytes of payload.
    pub size: u32,
}

/// What is sent to the device in one transfer.
#[derive(Clone, Debug, PartialEq, Eq)]
pub enum TransferUnit {
    /// A sparse image of its own: a header and some chunks of the source
    /// image, in their order.
    Sparse {
        /// Header made for this unit: it counts the chunks and blocks of the
        /// unit, not those of the source image.
        header: ImageHeader,
        chunks: Vec<UnitChunk>,
        /// Bytes that the device receives: the header and the chunks.
        total_size: u32,
    },
    /// A range of bytes of a source that is no sparse image.
    Raw { offset: u64, len: u32 },
}

impl TransferUnit {
    /// Bytes that the device receives for this unit.
    pub open spec fn size(self) -> int {
        match self {
            TransferUnit::Sparse { total_size, .. } => total_size as int,
            TransferUnit::Raw { len, .. } => len as int,
        }
    }

    /// The chunks of the unit; a raw range has none.
    pub open spec fn chunks(self) -> Seq<UnitChunk> {
        match self {
            TransferUnit::Sparse { chunks, .. } => chunks@,
            TransferUnit::Raw { .. } => Seq::empty(),
        }
    }

    /// Bytes that the device receives for this unit.
    pub fn total_size(&self) -> (r: u32)
        ensures
            r == self.size(),
    {
        match self {
            TransferUnit::Sparse { total_size, .. } => *total_size,
            TransferUnit::Raw { len, .. } => *len,
        }
    }
}

/// Bytes that a chunk takes in the source: its header and its payload.
pub open spec fn stride(c: ChunkRecord) -> int {
    CHUNK_HEADER_LEN + c.spec_payload_len()
}

/// Bytes that all of `chunks` take in the source.
pub open spec fn sum_strides(chunks: Seq<ChunkRecord>) -> int
    decreases chunks.len(),
{
    if chunks.len() == 0 {
        0
    } else {
        sum_strides(chunks.drop_last()) + stride(chunks.last())
    }
}

/// Logical blocks that all of `chunks` cover.
pub open spec fn sum_blocks(chunks: Seq<ChunkRecord>) -> int
    decreases chunks.len(),
{
    if chunks.len() == 0 {
        0
    } else {
        sum_blocks(chunks.drop_last()) + chunks.last().block_count
    }
}

/// Bytes that the chunks of a unit take in a transfer.
pub open spec fn unit_bytes(chunks: Seq<UnitChunk>) -> int
    decreases chunks.len(),
{
    if chunks.len() == 0 {
        0
    } else {
        unit_bytes(chunks.drop_last()) + chunks.last().record.total_size
    }
}

/// Logical blocks that the chunks of a unit cover.
pub open spec fn unit_blocks(chunks: Seq<UnitChunk>) -> int
    decreases chunks.len(),
{
    if chunks.len() == 0 {
        0
    } else {
        unit_blocks(chunks.drop_last()) + chunks.last().record.block_count
    }
}

/// Chunk `i` of an image, with the place of its payload: the chunks follow
/// the container header one after the other, each header followed by its
/// payload.
pub open spec fn placed_chunk(chunks: Seq<ChunkRecord>, i: int) -> UnitChunk {
    UnitChunk {
        record: chunks[i],
        offset: (FILE_HEADER_LEN + sum_strides(chunks.take(i)) + CHUNK_HEADER_LEN) as u64,
        size: chunks[i].spec_payload_len() as u32,
    }
}

/// The chunks of an image in their order, each with the place of its payload.
pub open spec fn placed(chunks: Seq<ChunkRecord>) -> Seq<UnitChunk> {
    Seq::new(chunks.len(), |i: int| placed_chunk(chunks, i))
}

/// The chunks of all `units`, one unit after the other.
pub open spec fn all_chunks(units: Seq<TransferUnit>) -> Seq<UnitChunk>
    decreases units.len(),
{
    if units.len() == 0 {
        Seq::empty()
    } else {
        all_chunks(units.drop_last()) + units.last().chunks()
    }
}

/// Bytes that the device receives for all `units`.
pub open spec fn sum_sizes(units: Seq<TransferUnit>) -> int
    decreases units.len(),
{
    if units.len() == 0 {
        0
    } else {
        sum_sizes(units.drop_last()) + units.last().size()
    }
}

/// Whether a chunk can be sent at all: alone in a unit, behind the unit's
/// header, it is no larger than `max`.
pub open spec fn fits_alone(c: ChunkRecord, max: int) -> bool {
    FILE_HEADER_LEN + c.total_size <= max
}

/// Whether `unit` is a sparse unit as the packing makes them: it holds at
/// least one chunk, its header counts its own chunks and blocks, and its size
/// is that of the header and the chunks and no more than `max`.
pub open spec fn is_packed_unit(unit: TransferUnit, block_size: u32, max: int) -> bool {
    &&& unit matches TransferUnit::Sparse { header, chunks, total_size }
    &&& chunks@.len() > 0
    &&& header == ImageHeader::standard(
        block_size,
        unit_blocks(chunks@) as u32,
        chunks@.len() as u32,
        0,
    )
    &&& unit_blocks(chunks@) <= u32::MAX
    &&& chunks@.len() <= u32::MAX
    &&& total_size == FILE_HEADER_LEN + unit_bytes(chunks@)
    &&& total_size <= max
}

/// Whether a chunk can join a unit that has `size` bytes and covers `blocks`
/// blocks: with the chunk the unit has no more than `max` bytes, and its
/// header can still count its blocks.
pub open spec fn joins(size: int, blocks: int, c: ChunkRecord, max: int) -> bool {
    size + c.total_size <= max && blocks + c.block_count <= u32::MAX
}

/// Whether unit `u` ends only because the first chunk of the next unit could
/// not have joined it.
pub open spec fn ends_full(units: Seq<TransferUnit>, u: int, max: int) -> bool {
    !joins(
        units[u].size(),
        unit_blocks(units[u].chunks()),
        units[u + 1].chunks()[0].record,
        max,
    )
}

/// Whether `units` is the packing of `chunks` into units of at most `max`
/// bytes: every chunk is in exactly one unit, whole and in its place; and a
/// unit ends only where the next chunk could not have joined it.
pub open spec fn is_packing(
    block_size: u32,
    chunks: Seq<ChunkRecord>,
    max: int,
    units: Seq<TransferUnit>,
) -> bool {
    &&& all_chunks(units) == placed(chunks)
    &&& forall|u: int| 0 <= u < units.len() ==> is_packed_unit(#[trigger] units[u], block_size, max)
    &&& forall|u: int| 0 <= u < units.len() - 1 ==> #[trigger] ends_full(units, u, max)
}

} // verus!

verus! {

/// Appending a unit appends its chunks.
proof fn lemma_all_chunks_push(units: Seq<TransferUnit>, unit: TransferUnit)
    ensures
        all_chunks(units.push(unit)) == all_chunks(units) + unit.chunks(),
{
    assert(units.push(unit).drop_last() =~= units);
}

/// What one more chunk adds to the sums over a prefix of an image.
proof fn lemma_prefix_step(chunks: Seq<ChunkRecord>, i: int)
    requires
        0 <= i < chunks.len(),
    ensures
        sum_strides(chunks.take(i + 1)) == sum_strides(chunks.take(i)) + stride(chunks[i]),
        sum_blocks(chunks.take(i + 1)) == sum_blocks(chunks.take(i)) + chunks[i].block_count,
        placed(chunks).take(i + 1) == placed(chunks).take(i).push(placed_chunk(chunks, i)),
{
    assert(chunks.take(i + 1).drop_last() =~= chunks.take(i));
    assert(placed(chunks).take(i + 1) =~= placed(chunks).take(i).push(placed_chunk(chunks, i)));
}

/// What one more chunk adds to the sums over the chunks of a unit.
proof fn lemma_unit_push(chunks: Seq<UnitChunk>, c: UnitChunk)
    ensures
        unit_bytes(chunks.push(c)) == unit_bytes(chunks) + c.record.total_size,
        unit_blocks(chunks.push(c)) == unit_blocks(chunks) + c.record.block_count,
{
    assert(chunks.push(c).drop_last() =~= chunks);
}

/// Whether `units`, closed so far, and the chunks of the unit that is still
/// open are the packing of the first `i` chunks of an image.
spec fn packs_prefix(
    block_size: u32,
    chunks: Seq<ChunkRecord>,
    max: int,
    units: Seq<TransferUnit>,
    open_unit: Seq<UnitChunk>,
    i: int,
) -> bool {
    &&& all_chunks(units) + open_unit == placed(chunks).take(i)
    &&& forall|u: int| 0 <= u < units.len() ==> is_packed_unit(#[trigger] units[u], block_size, max)
    &&& forall|u: int| 0 <= u < units.len() - 1 ==> #[trigger] ends_full(units, u, max)
    &&& units.len() > 0 ==> open_unit.len() > 0 && !joins(
        units.last().size(),
        unit_blocks(units.last().chunks()),
        open_unit[0].record,
        max,
    )
    &&& open_unit.len() > 0 ==> FILE_HEADER_LEN + unit_bytes(open_unit) <= max && unit_blocks(
        open_unit,
    ) <= u32::MAX
}

/// Closing the open unit, where the next chunk does not fit into it, and
/// opening the next with that chunk keeps the packing of the prefix.
proof fn lemma_close_unit(
    block_size: u32,
    chunks: Seq<ChunkRecord>,
    max: int,
    units: Seq<TransferUnit>,
    open_unit: Seq<UnitChunk>,
    i: int,
    unit: TransferUnit,
)
    requires
        0 <= i < chunks.len(),
        packs_prefix(block_size, chunks, max, units, open_unit, i),
        is_packed_unit(unit, block_size, max),
        unit.chunks() == open_unit,
        !joins(unit.size(), unit_blocks(open_unit), chunks[i], max),
        fits_alone(chunks[i], max),
    ensures
        packs_prefix(
            block_size,
            chunks,
            max,
            units.push(unit),
            seq![placed_chunk(chunks, i)],
            i + 1,
        ),
{
    let next = units.push(unit);
    let opened = seq![placed_chunk(chunks, i)];
    lemma_all_chunks_push(units, unit);
    lemma_prefix_step(chunks, i);
    assert(all_chunks(next) + opened =~= (all_chunks(units) + open_unit).push(
        placed_chunk(chunks, i),
    ));
    assert forall|u: int| 0 <= u < next.len() implies is_packed_unit(
        #[trigger] next[u],
        block_size,
        max,
    ) by {
        if u < units.len() {
            assert(next[u] == units[u]);
        }
    }
    assert forall|u: int| 0 <= u < next.len() - 1 implies #[trigger] ends_full(next, u, max) by {
        if u < units.len() - 1 {
            assert(ends_full(units, u, max));
        }
    }
    lemma_unit_push(Seq::empty(), placed_chunk(chunks, i));
    assert(Seq::<UnitChunk>::empty().push(placed_chunk(chunks, i)) =~= opened);
    assert(next.last() == unit);
}

/// Putting the next chunk into the open unit, where it fits, keeps the
/// packing of the prefix.
proof fn lemma_grow_unit(
    block_size: u32,
    chunks: Seq<ChunkRecord>,
    max: int,
    units: Seq<TransferUnit>,
    open_unit: Seq<UnitChunk>,
    i: int,
)
    requires
        0 <= i < chunks.len(),
        packs_prefix(block_size, chunks, max, units, open_unit, i),
        joins(FILE_HEADER_LEN + unit_bytes(open_unit), unit_blocks(open_unit), chunks[i], max),
    ensures
        packs_prefix(
            block_size,
            chunks,
            max,
            units,
            open_unit.push(placed_chunk(chunks, i)),
            i + 1,
        ),
{
    let grown = open_unit.push(placed_chunk(chunks, i));
    lemma_prefix_step(chunks, i);
    lemma_unit_push(open_unit, placed_chunk(chunks, i));
    assert(all_chunks(units) + grown =~= (all_chunks(units) + open_unit).push(
        placed_chunk(chunks, i),
    ));
    if open_unit.len() > 0 {
        assert(grown[0] == open_unit[0]);
    }
}

/// Closing the last unit makes the packing of the prefix the packing of the
/// image.
proof fn lemma_finish(
    block_size: u32,
    chunks: Seq<ChunkRecord>,
    max: int,
    units: Seq<TransferUnit>,
    open_unit: Seq<UnitChunk>,
    unit: TransferUnit,
)
    requires
        packs_prefix(block_size, chunks, max, units, open_unit, chunks.len() as int),
        is_packed_unit(unit, block_size, max),
        unit.chunks() == open_unit,
    ensures
        is_packing(block_size, chunks, max, units.push(unit)),
{
    let next = units.push(unit);
    lemma_all_chunks_push(units, unit);
    assert(placed(chunks).take(chunks.len() as int) =~= placed(chunks));
    assert forall|u: int| 0 <= u < next.len() implies is_packed_unit(
        #[trigger] next[u],
        block_size,
        max,
    ) by {
        if u < units.len() {
            assert(next[u] == units[u]);
        }
    }
    assert forall|u: int| 0 <= u < next.len() - 1 implies #[trigger] ends_full(next, u, max) by {
        if u < units.len() - 1 {
            assert(ends_full(units, u, max));
        }
    }
}

/// Makes a unit of the chunks gathered for it.
fn seal(block_size: u32, chunks: Vec<UnitChunk>, size: u32, blocks: u32) -> (unit: TransferUnit)
    requires
        0 < chunks@.len() <= u32::MAX,
        size == FILE_HEADER_LEN + unit_bytes(chunks@),
        blocks == unit_blocks(chunks@),
    ensures
        is_packed_unit(unit, block_size, size as int),
        unit.chunks() == chunks@,
        unit.size() == size,
{
    let count = chunks.len() as u32;
    TransferUnit::Sparse {
        header: ImageHeader {
            magic: HEADER_MAGIC,
            major_version: MAJOR_VERSION,
            minor_version: MINOR_VERSION,
            header_size: 28,
            chunk_header_size: 12,
            block_size,
            total_blocks: blocks,
            total_chunks: count,
            checksum: 0,
        },
        chunks,
        total_size: size,
    }
}

/// Packs the chunks of a sparse image into transfer units of at most
/// `max_unit_size` bytes each.
///
/// The chunks are taken in their order and never cut. A unit is closed when
/// the next chunk would make it larger than `max_unit_size`, and that chunk
/// begins the next unit; no chunk is held back for a better fit. Every unit
/// gets a header of its own, for the block size of `header`. An image without
/// chunks gives no unit.
///
/// A chunk that is too large for a unit of its own makes the packing fail.
///
/// The header of a unit counts the blocks that its chunks cover in 32 bits.
/// So a unit is closed, too, when with the next chunk it would cover more
/// blocks than that; this happens in no image whose own header can count
/// its blocks.
///
/// The number of chunks must fit the 32 bits that a container header has
/// for it.
pub fn split_sparse(header: &ImageHeader, chunks: &[ChunkRecord], max_unit_size: u32) -> (r: Result<
    Vec<TransferUnit>,
    SplitError,
>)
    requires
        chunks@.len() <= u32::MAX,
    ensures
        r is Ok <==> forall|i: int|
            0 <= i < chunks@.len() ==> fits_alone(#[trigger] chunks@[i], max_unit_size as int),
        r matches Ok(units) ==> is_packing(
            header.block_size,
            chunks@,
            max_unit_size as int,
            units@,
        ),
        r matches Ok(units) ==> forall|u: int|
            0 <= u < units@.len() ==> (#[trigger] units@[u]).size() <= max_unit_size,
        r matches Err(e) ==> e == SplitError::UnsplittableChunk,
{
    let block_size = header.block_size;
    let ghost max = max_unit_size as int;
    let mut units: Vec<TransferUnit> = Vec::new();
    let mut current: Vec<UnitChunk> = Vec::new();
    let mut current_size: u64 = 28;
    let mut current_blocks: u32 = 0;
    let mut offset: u64 = 28;
    let mut i: usize = 0;
    proof {
        assert(placed(chunks@).take(0) =~= all_chunks(units@) + current@);
        assert(chunks@.take(0) =~= Seq::<ChunkRecord>::empty());
    }
    while i < chunks.len()
        invariant
            i <= chunks@.len() <= u32::MAX,
            max == max_unit_size,
            forall|k: int| 0 <= k < i ==> fits_alone(#[trigger] chunks@[k], max),
            packs_prefix(block_size, chunks@, max, units@, current@, i as int),
            current_size == FILE_HEADER_LEN + unit_bytes(current@),
            current@.len() <= i,
            current_blocks == unit_blocks(current@),
            offset == FILE_HEADER_LEN + sum_strides(chunks@.take(i as int)),
            offset <= FILE_HEADER_LEN + i * 0xffff_ffff,
        decreases chunks@.len() - i,
    {
        let c = chunks[i];
        if c.total_size as u64 + 28 > max_unit_size as u64 {
            assert(!fits_alone(chunks@[i as int], max));
            return Err(SplitError::UnsplittableChunk);
        }
        let size = c.payload_len();
        let pc = UnitChunk { record: c, offset: offset + 12, size };
        proof {
            lemma_prefix_step(chunks@, i as int);
            assert(pc == placed_chunk(chunks@, i as int));
        }
        if current.len() > 0 && (current_size + c.total_size as u64 > max_unit_size as u64
            || c.block_count > u32::MAX - current_blocks) {
            let ghost closed = current@;
            let unit = seal(block_size, current, current_size as u32, current_blocks);
            proof {
                lemma_close_unit(block_size, chunks@, max, units@, closed, i as int, unit);
            }
            units.push(unit);
            current = Vec::new();
            current.push(pc);
            current_size = 28 + c.total_size as u64;
            current_blocks = c.block_count;
            proof {
                assert(current@ =~= seq![pc]);
                lemma_unit_push(Seq::<UnitChunk>::empty(), pc);
                assert(Seq::<UnitChunk>::empty().push(pc) =~= seq![pc]);
            }
        } else {
            proof {
                lemma_grow_unit(block_size, chunks@, max, units@, current@, i as int);
                lemma_unit_push(current@, pc);
            }
            current.push(pc);
            current_size = current_size + c.total_size as u64;
            current_blocks = current_blocks + c.block_count;
        }
        offset = offset + 12 + size as u64;
        i = i + 1;
    }
    if current.len() > 0 {
        let ghost closed = current@;
        let unit = seal(block_size, current, current_size as u32, current_blocks);
        proof {
            lemma_finish(block_size, chunks@, max, units@, closed, unit);
        }
        units.push(unit);
    } else {
        proof {
            assert(placed(chunks@).take(i as int) =~= placed(chunks@));
            assert(all_chunks(units@) + current@ =~= all_chunks(units@));
        }
    }
    Ok(units)
}

/// The number of ranges of at most `max` bytes that `total` bytes are cut
/// into: `total / max`, rounded up.
pub open spec fn raw_unit_count(total: int, max: int) -> int {
    if max > 0 {
        (total + max - 1) / max
    } else {
        0
    }
}

/// Range `k` of a raw source of `total` bytes that is cut every `max` bytes:
/// it begins at `k * max` and holds `max` bytes, or what is left of the
/// source where that is less.
pub open spec fn raw_unit(total: int, max: int, k: int) -> TransferUnit {
    TransferUnit::Raw {
        offset: (k * max) as u64,
        len: (if total - k * max < max {
            total - k * max
        } else {
            max
        }) as u32,
    }
}

/// The ranges that a raw source of `total` bytes is cut into, every `max`
/// bytes.
pub open spec fn raw_units(total: int, max: int) -> Seq<TransferUnit> {
    Seq::new(raw_unit_count(total, max) as nat, |k: int| raw_unit(total, max, k))
}

/// Appending a unit adds its size.
proof fn lemma_sum_sizes_push(units: Seq<TransferUnit>, unit: TransferUnit)
    ensures
        sum_sizes(units.push(unit)) == sum_sizes(units) + unit.size(),
{
    assert(units.push(unit).drop_last() =~= units);
}

/// `k` ranges are what `total / max`, rounded up, comes to where the last
/// of them begins inside the source and ends at or behind its end.
pub proof fn lemma_count_is_rounded_up(total: int, max: int, k: int)
    requires
        max > 0,
        k > 0,
        (k - 1) * max < total <= k * max,
    ensures
        raw_unit_count(total, max) == k,
{
    let x = total + max - 1;
    let rest = x - k * max;
    assert(0 <= rest < max) by (nonlinear_arith)
        requires
            (k - 1) * max < total <= k * max,
            rest == total + max - 1 - k * max,
            max > 0,
    ;
    vstd::arithmetic::div_mod::lemma_fundamental_div_mod_converse(x, max, k, rest);
}

/// Cuts a source that is no sparse image into consecutive ranges of
/// `max_unit_size` bytes; the last range holds what is left. There are
/// `total_size / max_unit_size` ranges, rounded up, and none for an empty
/// source.
///
/// With a `max_unit_size` of zero nothing but an empty source can be cut.
pub fn split_raw(total_size: u64, max_unit_size: u32) -> (r: Result<Vec<TransferUnit>, SplitError>)
    ensures
        r is Ok <==> max_unit_size > 0 || total_size == 0,
        r matches Ok(units) ==> units@ == raw_units(total_size as int, max_unit_size as int),
        r matches Ok(units) ==> units@.len() == raw_unit_count(
            total_size as int,
            max_unit_size as int,
        ),
        r matches Ok(units) ==> forall|k: int|
            0 <= k < units@.len() ==> (#[trigger] units@[k]).size() <= max_unit_size,
        r matches Ok(units) ==> sum_sizes(units@) == total_size,
        r matches Err(e) ==> e == SplitError::UnsplittableChunk,
{
    let mut units: Vec<TransferUnit> = Vec::new();
    let ghost total = total_size as int;
    let ghost max = max_unit_size as int;
    if total_size == 0 {
        proof {
            if max > 0 {
                vstd::arithmetic::div_mod::lemma_fundamental_div_mod_converse(
                    max - 1,
                    max,
                    0,
                    max - 1,
                );
            }
        }
        return Ok(units);
    }
    if max_unit_size == 0 {
        return Err(SplitError::UnsplittableChunk);
    }
    let mut offset: u64 = 0;
    assert(units@.len() * max == 0) by (nonlinear_arith)
        requires
            units@.len() == 0,
    ;
    while offset < total_size
        invariant
            total == total_size,
            max == max_unit_size,
            max > 0,
            offset <= total,
            offset == units@.len() * max || offset == total,
            offset <= units@.len() * max,
            units@.len() > 0 ==> (units@.len() - 1) * max < total,
            forall|k: int|
                0 <= k < units@.len() ==> #[trigger] units@[k] == raw_unit(total, max, k),
            forall|k: int| 0 <= k < units@.len() ==> (#[trigger] units@[k]).size() <= max,
            sum_sizes(units@) == offset,
        decreases total - offset,
    {
        let left = total_size - offset;
        let len: u32 = if left < max_unit_size as u64 {
            left as u32
        } else {
            max_unit_size
        };
        let unit = TransferUnit::Raw { offset, len };
        proof {
            let k = units@.len() as int;
            assert(offset == k * max);
            assert(unit == raw_unit(total, max, k));
            assert((k + 1) * max == k * max + max) by (nonlinear_arith);
            lemma_sum_sizes_push(units@, unit);
        }
        units.push(unit);
        offset = offset + len as u64;
    }
    proof {
        lemma_count_is_rounded_up(total, max, units@.len() as int);
        assert(units@ =~= raw_units(total, max));
    }
    Ok(units)
}

/// The chunk headers of `chunks`, without their places.
pub open spec fn records(chunks: Seq<UnitChunk>) -> Seq<ChunkRecord> {
    chunks.map_values(|c: UnitChunk| c.record)
}

/// Blocks that the headers of all `units` declare.
pub open spec fn declared_blocks(units: Seq<TransferUnit>) -> int
    decreases units.len(),
{
    if units.len() == 0 {
        0
    } else {
        declared_blocks(units.drop_last()) + match units.last() {
            TransferUnit::Sparse { header, .. } => header.total_blocks as int,
            TransferUnit::Raw { .. } => 0,
        }
    }
}

/// The chunks of a unit cover the blocks that their headers count.
proof fn lemma_unit_blocks_are_sum(chunks: Seq<UnitChunk>)
    ensures
        unit_blocks(chunks) == sum_blocks(records(chunks)),
        unit_blocks(chunks) >= 0,
    decreases chunks.len(),
{
    if chunks.len() > 0 {
        lemma_unit_blocks_are_sum(chunks.drop_last());
        assert(records(chunks).drop_last() =~= records(chunks.drop_last()));
    }
}

/// The blocks of two runs of chunks, one after the other, add up.
proof fn lemma_sum_blocks_concat(a: Seq<ChunkRecord>, b: Seq<ChunkRecord>)
    ensures
        sum_blocks(a + b) == sum_blocks(a) + sum_blocks(b),
    decreases b.len(),
{
    if b.len() == 0 {
        assert(a + b =~= a);
    } else {
        lemma_sum_blocks_concat(a, b.drop_last());
        assert((a + b).drop_last() =~= a + b.drop_last());
    }
}

/// The headers of packed units declare, together, the blocks that their
/// chunks cover.
proof fn lemma_declared_blocks(units: Seq<TransferUnit>, block_size: u32, max: int)
    requires
        forall|u: int| 0 <= u < units.len() ==> is_packed_unit(#[trigger] units[u], block_size, max),
    ensures
        declared_blocks(units) == sum_blocks(records(all_chunks(units))),
    decreases units.len(),
{
    if units.len() == 0 {
        assert(records(all_chunks(units)) =~= Seq::<ChunkRecord>::empty());
    } else {
        let front = units.drop_last();
        assert forall|u: int| 0 <= u < front.len() implies is_packed_unit(
            #[trigger] front[u],
            block_size,
            max,
        ) by {
            assert(front[u] == units[u]);
        }
        lemma_declared_blocks(front, block_size, max);
        assert(is_packed_unit(units.last(), block_size, max));
        lemma_unit_blocks_are_sum(units.last().chunks());
        lemma_sum_blocks_concat(records(all_chunks(front)), records(units.last().chunks()));
        assert(records(all_chunks(units)) =~= records(all_chunks(front)) + records(
            units.last().chunks(),
        ));
    }
}

/// The units of a packing, one after the other, are the image again: their
/// chunk headers are the chunk headers of the image, each once and in its
/// order, and the blocks that their headers declare are the blocks of the
/// image.
pub proof fn lemma_packing_keeps_image(
    block_size: u32,
    chunks: Seq<ChunkRecord>,
    max: int,
    units: Seq<TransferUnit>,
)
    requires
        is_packing(block_size, chunks, max, units),
    ensures
        records(all_chunks(units)) == chunks,
        declared_blocks(units) == sum_blocks(chunks),
{
    assert(records(placed(chunks)) =~= chunks);
    lemma_declared_blocks(units, block_size, max);
}

/// The number of chunks in the units before unit `u`.
pub open spec fn chunks_before(units: Seq<TransferUnit>, u: int) -> int {
    all_chunks(units.take(u)).len() as int
}

/// Whether two units hold the same: the same header, or the same range, and
/// the same chunks in the same places.
pub open spec fn same_unit(a: TransferUnit, b: TransferUnit) -> bool {
    match (a, b) {
        (
            TransferUnit::Sparse { header: ha, chunks: ca, total_size: sa },
            TransferUnit::Sparse { header: hb, chunks: cb, total_size: sb },
        ) => ha == hb && ca@ == cb@ && sa == sb,
        (TransferUnit::Raw { .. }, TransferUnit::Raw { .. }) => a == b,
        _ => false,
    }
}

/// Where the chunks of each unit stand among the chunks of all units.
proof fn lemma_unit_position(units: Seq<TransferUnit>, u: int)
    requires
        0 <= u < units.len(),
    ensures
        chunks_before(units, u + 1) == chunks_before(units, u) + units[u].chunks().len(),
        0 <= chunks_before(units, u),
        chunks_before(units, u + 1) <= all_chunks(units).len(),
        units[u].chunks() == all_chunks(units).subrange(
            chunks_before(units, u),
            chunks_before(units, u + 1),
        ),
    decreases units.len(),
{
    let front = units.drop_last();
    assert(units.take(units.len() as int) =~= units);
    if u == units.len() - 1 {
        assert(units.take(u) =~= front);
        assert(units.take(u + 1) =~= units);
        assert(all_chunks(units).subrange(
            all_chunks(front).len() as int,
            all_chunks(units).len() as int,
        ) =~= units[u].chunks());
    } else {
        lemma_unit_position(front, u);
        assert(front.take(u) =~= units.take(u));
        assert(front.take(u + 1) =~= units.take(u + 1));
        assert(front[u] == units[u]);
        assert(all_chunks(front).subrange(chunks_before(units, u), chunks_before(units, u + 1))
            =~= all_chunks(units).subrange(chunks_before(units, u), chunks_before(units, u + 1)));
    }
}

/// The first chunks of a unit take no more bytes than all of them, and one
/// chunk more takes its size more.
proof fn lemma_unit_bytes_prefix(chunks: Seq<UnitChunk>, k: int)
    requires
        0 <= k <= chunks.len(),
    ensures
        0 <= unit_bytes(chunks.take(k)) <= unit_bytes(chunks),
        k < chunks.len() ==> unit_bytes(chunks.take(k + 1)) == unit_bytes(chunks.take(k))
            + chunks[k].record.total_size,
    decreases chunks.len() - k,
{
    if k == chunks.len() {
        assert(chunks.take(k) =~= chunks);
        lemma_unit_bytes_not_negative(chunks);
    } else {
        lemma_unit_bytes_prefix(chunks, k + 1);
        assert(chunks.take(k + 1).drop_last() =~= chunks.take(k));
        lemma_unit_bytes_not_negative(chunks.take(k));
    }
}

/// The first chunks of a unit cover no more blocks than all of them, and
/// one chunk more covers its blocks more.
proof fn lemma_unit_blocks_prefix(chunks: Seq<UnitChunk>, k: int)
    requires
        0 <= k <= chunks.len(),
    ensures
        0 <= unit_blocks(chunks.take(k)) <= unit_blocks(chunks),
        k < chunks.len() ==> unit_blocks(chunks.take(k + 1)) == unit_blocks(chunks.take(k))
            + chunks[k].record.block_count,
    decreases chunks.len() - k,
{
    if k == chunks.len() {
        assert(chunks.take(k) =~= chunks);
        lemma_unit_blocks_are_sum(chunks);
    } else {
        lemma_unit_blocks_prefix(chunks, k + 1);
        assert(chunks.take(k + 1).drop_last() =~= chunks.take(k));
        lemma_unit_blocks_are_sum(chunks.take(k));
    }
}

/// Chunks take no negative number of bytes.
proof fn lemma_unit_bytes_not_negative(chunks: Seq<UnitChunk>)
    ensures
        unit_bytes(chunks) >= 0,
    decreases chunks.len(),
{
    if chunks.len() > 0 {
        lemma_unit_bytes_not_negative(chunks.drop_last());
    }
}

/// Of two packings of one image, where unit `u` begins at the same chunk in
/// both, it does not end earlier in the first than in the second.
proof fn lemma_unit_not_shorter(
    block_size: u32,
    chunks: Seq<ChunkRecord>,
    max: int,
    a: Seq<TransferUnit>,
    b: Seq<TransferUnit>,
    u: int,
)
    requires
        is_packing(block_size, chunks, max, a),
        is_packing(block_size, chunks, max, b),
        0 <= u < a.len(),
        u < b.len(),
        chunks_before(a, u) == chunks_before(b, u),
    ensures
        a[u].chunks().len() >= b[u].chunks().len(),
{
    let all = placed(chunks);
    let from = chunks_before(a, u);
    let ca = a[u].chunks();
    let cb = b[u].chunks();
    lemma_unit_position(a, u);
    lemma_unit_position(b, u);
    assert(is_packed_unit(a[u], block_size, max));
    assert(is_packed_unit(b[u], block_size, max));
    if ca.len() < cb.len() {
        let n = ca.len() as int;
        assert(from + n < all.len());
        assert(a.take(a.len() as int) =~= a);
        if u + 1 == a.len() {
            assert(chunks_before(a, u + 1) == all.len());
        }
        lemma_unit_position(a, u + 1);
        assert(is_packed_unit(a[u + 1], block_size, max));
        assert(a[u + 1].chunks()[0] == all[from + n]);
        assert(cb[n] == all[from + n]);
        assert(cb.take(n) =~= ca);
        lemma_unit_bytes_prefix(cb, n);
        lemma_unit_bytes_prefix(cb, n + 1);
        lemma_unit_blocks_prefix(cb, n);
        lemma_unit_blocks_prefix(cb, n + 1);
        assert(ends_full(a, u, max));
    }
}

/// Two packings of one image agree in their first `u` units.
proof fn lemma_packings_agree(
    block_size: u32,
    chunks: Seq<ChunkRecord>,
    max: int,
    a: Seq<TransferUnit>,
    b: Seq<TransferUnit>,
    u: int,
)
    requires
        is_packing(block_size, chunks, max, a),
        is_packing(block_size, chunks, max, b),
        0 <= u <= a.len(),
        u <= b.len(),
    ensures
        chunks_before(a, u) == chunks_before(b, u),
        forall|v: int| 0 <= v < u ==> same_unit(#[trigger] a[v], b[v]),
    decreases u,
{
    if u == 0 {
        assert(a.take(0) =~= b.take(0));
    } else {
        lemma_packings_agree(block_size, chunks, max, a, b, u - 1);
        lemma_unit_not_shorter(block_size, chunks, max, a, b, u - 1);
        lemma_unit_not_shorter(block_size, chunks, max, b, a, u - 1);
        lemma_unit_position(a, u - 1);
        lemma_unit_position(b, u - 1);
        assert(is_packed_unit(a[u - 1], block_size, max));
        assert(is_packed_unit(b[u - 1], block_size, max));
        assert(a[u - 1].chunks() =~= b[u - 1].chunks());
    }
}

/// The packing of an image is the only one: two lists of units that both
/// are packings of the same chunks, for the same block size and the same
/// limit, have the same number of units, and unit for unit they hold the
/// same.
pub proof fn lemma_packing_is_unique(
    block_size: u32,
    chunks: Seq<ChunkRecord>,
    max: int,
    a: Seq<TransferUnit>,
    b: Seq<TransferUnit>,
)
    requires
        is_packing(block_size, chunks, max, a),
        is_packing(block_size, chunks, max, b),
    ensures
        a.len() == b.len(),
        forall|u: int| 0 <= u < a.len() ==> same_unit(#[trigger] a[u], b[u]),
{
    let n = if a.len() <= b.len() {
        a.len() as int
    } else {
        b.len() as int
    };
    lemma_packings_agree(block_size, chunks, max, a, b, n);
    assert(a.take(a.len() as int) =~= a);
    assert(b.take(b.len() as int) =~= b);
    if a.len() < b.len() {
        lemma_unit_position(b, n);
        assert(is_packed_unit(b[n], block_size, max));
    } else if b.len() < a.len() {
        lemma_unit_position(a, n);
        assert(is_packed_unit(a[n], block_size, max));
    }
}

/// In the packing of an image whose header can count its blocks, a unit
/// ends only for its size: with the first chunk of the next unit it would
/// have more than `max` bytes.
pub proof fn lemma_unit_ends_for_size(
    block_size: u32,
    chunks: Seq<ChunkRecord>,
    max: int,
    units: Seq<TransferUnit>,
    u: int,
)
    requires
        is_packing(block_size, chunks, max, units),
        sum_blocks(chunks) <= u32::MAX,
        0 <= u < units.len() - 1,
    ensures
        units[u].size() + units[u + 1].chunks()[0].record.total_size > max,
{
    let all = placed(chunks);
    let from = chunks_before(units, u);
    let n = units[u].chunks().len() as int;
    lemma_unit_position(units, u);
    lemma_unit_position(units, u + 1);
    assert(is_packed_unit(units[u + 1], block_size, max));
    assert(ends_full(units, u, max));
    let both = all.subrange(from, from + n + 1);
    assert(both.take(n) =~= units[u].chunks());
    assert(both[n] == units[u + 1].chunks()[0]);
    lemma_unit_blocks_prefix(both, n);
    assert(both.take(n + 1) =~= both);
    // The blocks of the two units' chunks are among the blocks of the image.
    lemma_unit_blocks_prefix(all, from + n + 1);
    lemma_unit_blocks_prefix(all, from);
    lemma_unit_blocks_concat(all.take(from), both);
    assert(all.take(from) + both =~= all.take(from + n + 1));
    lemma_unit_blocks_are_sum(all);
    assert(records(all) =~= chunks);
}

/// The blocks of two runs of chunks, one after the other, add up.
proof fn lemma_unit_blocks_concat(a: Seq<UnitChunk>, b: Seq<UnitChunk>)
    ensures
        unit_blocks(a + b) == unit_blocks(a) + unit_blocks(b),
    decreases b.len(),
{
    if b.len() == 0 {
        assert(a + b =~= a);
    } else {
        lemma_unit_blocks_concat(a, b.drop_last());
        assert((a + b).drop_last() =~= a + b.drop_last());
    }
}

} // verus!
