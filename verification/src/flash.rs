//! The transfer of one image to one partition, as a machine that is told
//! what happened and says what to do next.
//!
//! Nothing here touches the device or the source. The caller carries out
//! each [`Action`] and hands the outcome back as an [`Event`]; one action is
//! in flight at a time, and the next is asked for only when the outcome of
//! the last is known.

use crate::device::{hex_size, max_download_variable, parse_u32_hex};
use crate::sparse::{
    chunk_of, header_of, parse_chunk, parse_header, ChunkRecord, FormatError, ImageHeader,
    CHUNK_HEADER_LEN, FILE_HEADER_LEN,
};
use crate::split::{
    fits_alone, is_packing, raw_units, split_raw, split_sparse, stride, sum_blocks,
    sum_strides, SplitError, TransferUnit,
};
use crate::stream::{pieces, streamable, unit_stream, Piece, Segment};
use vstd::prelude::*;

verus! {

/// Why the device did not do what it was asked.
#[derive(Clone, Copy, Debug, PartialEq, Eq, Structural)]
pub enum ProtocolError {
    /// No answer, or none that can be made sense of.
    DeviceUnresponsive,
    /// The device refused.
    Rejected,
}

/// Why the source could not be read.
#[derive(Clone, Copy, Debug, PartialEq, Eq, Structural)]
pub enum IOError {
    ReadFailed,
    SeekFailed,
}

/// Why a transfer was given up.
#[derive(Clone, Copy, Debug, PartialEq, Eq, Structural)]
pub enum FlashError {
    Format(FormatError),
    Protocol(ProtocolError),
    Split(SplitError),
    Io(IOError),
}

/// The part of a transfer in which it was given up.
#[derive(Clone, Copy, Debug, PartialEq, Eq, Structural)]
pub enum Stage {
    SizeQuery,
    Parse,
    Split,
    Upload,
    Commit,
}

/// A transfer that was given up: where, and why.
#[derive(Clone, Copy, Debug, PartialEq, Eq, Structural)]
pub struct Failure {
    pub stage: Stage,
    pub error: FlashError,
}

/// How the source is cut into units.
#[derive(Clone, Copy, Debug, PartialEq, Eq, Structural)]
pub enum Strategy {
    /// No sparse image, and smaller than one transfer: sent as it is.
    RawDirect,
    /// No sparse image: cut into ranges of bytes.
    RawSplit,
    /// A sparse image: its chunks packed into smaller sparse images.
    SparseSplit,
}

/// What is being waited for, of the unit in hand.
#[derive(Clone, Copy, Debug, PartialEq, Eq, Structural)]
pub enum UnitStep {
    /// The unit is being written to the device.
    Upload,
    /// The device is writing the unit to the partition.
    Commit,
    /// The caller is being told that the unit is done.
    Report,
}

/// Where a transfer stands.
#[derive(Clone, Debug, PartialEq, Eq)]
pub enum Phase {
    /// The device has been asked for the most bytes that it takes at once.
    QueryMaxSize,
    /// The first bytes of the source have been asked for.
    ParseSource { max: u32 },
    /// The source is a sparse image, and the header of its next chunk has
    /// been asked for.
    ParseChunks {
        max: u32,
        header: ImageHeader,
        /// The chunk headers read so far.
        chunks: Vec<ChunkRecord>,
        /// Where the next chunk header begins in the source.
        offset: u64,
        /// Blocks that the chunks read so far cover.
        blocks: u32,
    },
    /// The units are known; those before `index` are on the partition.
    ForEachUnit { strategy: Strategy, units: Vec<TransferUnit>, index: usize, step: UnitStep },
    /// All `total` units are on the partition.
    Complete { total: u64 },
    Failed(Failure),
}

/// One transfer of a source of `source_len` bytes to `partition`.
#[derive(Clone, Debug, PartialEq, Eq)]
pub struct Transfer {
    pub partition: String,
    pub source_len: u64,
    pub phase: Phase,
}

/// What the caller is to do next.
#[derive(Clone, Debug, PartialEq, Eq)]
pub enum Action {
    /// Ask the device for the value of this variable; answer with
    /// [`Event::Variable`].
    GetVariable(String),
    /// Read `len` bytes of the source from `offset` on, or as many as there
    /// are; answer with [`Event::Bytes`].
    ReadSource { offset: u64, len: u32 },
    /// Open an upload of exactly `size` bytes, write the segments in their
    /// order, and close it; answer with [`Event::Done`] once the device has
    /// acknowledged.
    Upload { size: u32, segments: Vec<Segment> },
    /// Have the device write what was uploaded to this partition; answer
    /// with [`Event::Done`].
    Commit(String),
    /// Tell whoever watches that `completed` of `total` units are done. The
    /// answer does not matter, and a failure to tell is no failure of the
    /// transfer.
    Report { completed: u64, total: u64 },
    /// Nothing: the transfer is complete.
    Finish,
    /// Nothing: the transfer was given up.
    Abort(Failure),
}

/// What came of the last action.
#[derive(Clone, Debug, PartialEq, Eq)]
pub enum Event {
    /// The value of the variable that was asked for.
    Variable(String),
    /// The bytes that were read.
    Bytes(Vec<u8>),
    /// The action was carried out.
    Done,
    /// The device did not do its part.
    DeviceFailed(ProtocolError),
    /// The source could not be read.
    SourceFailed(IOError),
}

/// Why a step fails on `event`: for the reason that the event gives, or,
/// where the event is not one of failure but not the answer that was waited
/// for either, for the reason `otherwise`.
pub open spec fn failure_of(event: Event, stage: Stage, otherwise: FlashError) -> Failure {
    Failure {
        stage,
        error: match event {
            Event::DeviceFailed(e) => FlashError::Protocol(e),
            Event::SourceFailed(e) => FlashError::Io(e),
            _ => otherwise,
        },
    }
}

/// The transfer is given up with `failure`.
pub open spec fn fails(post: Phase, action: Action, failure: Failure) -> bool {
    post == Phase::Failed(failure) && action == Action::Abort(failure)
}

/// The transfer is complete, after `total` units.
pub open spec fn finishes(post: Phase, action: Action, total: int) -> bool {
    post matches Phase::Complete { total: t } && t == total && action == Action::Finish
}

/// `action` asks for `unit` to be uploaded: in its size, and piece by piece.
pub open spec fn uploads(action: Action, unit: TransferUnit) -> bool {
    action matches Action::Upload { size, segments } && size == unit.size() && pieces(segments@)
        == unit_stream(unit)
}

/// The units that a transfer has in hand, if it has any.
pub open spec fn units_of(phase: Phase) -> Seq<TransferUnit> {
    match phase {
        Phase::ForEachUnit { units, .. } => units@,
        _ => Seq::empty(),
    }
}

/// The transfer takes up its units, cut according to `strategy`, and asks
/// for the first of them to be uploaded.
pub open spec fn takes_up(post: Phase, action: Action, strategy: Strategy) -> bool {
    &&& post matches Phase::ForEachUnit { strategy: s, units, index, step }
    &&& s == strategy
    &&& index == 0
    &&& step == UnitStep::Upload
    &&& units@.len() > 0
    &&& uploads(action, units@[0])
}

/// The step that follows the answer to the size query.
pub open spec fn after_size_query(event: Event, post: Phase, action: Action) -> bool {
    match event {
        Event::Variable(value) => match hex_size(value@) {
            Some(max) => post == (Phase::ParseSource { max }) && action == (Action::ReadSource {
                offset: 0,
                len: FILE_HEADER_LEN as u32,
            }),
            None => fails(
                post,
                action,
                Failure {
                    stage: Stage::SizeQuery,
                    error: FlashError::Protocol(ProtocolError::DeviceUnresponsive),
                },
            ),
        },
        _ => fails(
            post,
            action,
            failure_of(
                event,
                Stage::SizeQuery,
                FlashError::Protocol(ProtocolError::DeviceUnresponsive),
            ),
        ),
    }
}

/// The step that a source without the magic number takes: a source smaller
/// than one transfer is one unit; any other is cut into ranges.
pub open spec fn takes_raw_path(source_len: u64, max: u32, post: Phase, action: Action) -> bool {
    if source_len == 0 {
        finishes(post, action, 0)
    } else if max == 0 {
        fails(
            post,
            action,
            Failure { stage: Stage::Split, error: FlashError::Split(SplitError::UnsplittableChunk) },
        )
    } else {
        &&& takes_up(
            post,
            action,
            if source_len < max {
                Strategy::RawDirect
            } else {
                Strategy::RawSplit
            },
        )
        &&& units_of(post) == raw_units(source_len as int, max as int)
    }
}

/// The step that follows the first bytes of the source.
pub open spec fn after_header(
    source_len: u64,
    max: u32,
    event: Event,
    post: Phase,
    action: Action,
) -> bool {
    match event {
        Event::Bytes(bytes) => match header_of(bytes@) {
            Ok(header) => if header.total_chunks == 0 {
                finishes(post, action, 0)
            } else {
                &&& post matches Phase::ParseChunks { max: m, header: h, chunks, offset, blocks }
                &&& m == max
                &&& h == header
                &&& chunks@ == Seq::<ChunkRecord>::empty()
                &&& offset == FILE_HEADER_LEN
                &&& blocks == 0
                &&& action == (Action::ReadSource {
                    offset: FILE_HEADER_LEN as u64,
                    len: CHUNK_HEADER_LEN as u32,
                })
            },
            Err(FormatError::NotThisFormat) => takes_raw_path(source_len, max, post, action),
            Err(_) => fails(
                post,
                action,
                Failure {
                    stage: Stage::Parse,
                    error: FlashError::Format(FormatError::CorruptHeader),
                },
            ),
        },
        _ => fails(post, action, failure_of(event, Stage::Parse, FlashError::Io(IOError::ReadFailed))),
    }
}

/// The step that follows the bytes of a chunk header, when `chunks` have
/// been read before it.
pub open spec fn after_chunk(
    max: u32,
    header: ImageHeader,
    chunks: Seq<ChunkRecord>,
    offset: u64,
    event: Event,
    post: Phase,
    action: Action,
) -> bool {
    match event {
        Event::Bytes(bytes) => match chunk_of(bytes@) {
            Ok(c) => {
                let all = chunks.push(c);
                if sum_blocks(all) > u32::MAX {
                    fails(
                        post,
                        action,
                        Failure {
                            stage: Stage::Parse,
                            error: FlashError::Format(FormatError::CorruptChunk),
                        },
                    )
                } else if all.len() < header.total_chunks {
                    &&& post matches Phase::ParseChunks {
                        max: m,
                        header: h,
                        chunks: read,
                        offset: next,
                        blocks,
                    }
                    &&& m == max
                    &&& h == header
                    &&& read@ == all
                    &&& next == offset + stride(c)
                    &&& blocks == sum_blocks(all)
                    &&& action == (Action::ReadSource { offset: next, len: CHUNK_HEADER_LEN as u32 })
                } else if forall|i: int| 0 <= i < all.len() ==> fits_alone(#[trigger] all[i], max as int) {
                    &&& takes_up(post, action, Strategy::SparseSplit)
                    &&& is_packing(header.block_size, all, max as int, units_of(post))
                } else {
                    fails(
                        post,
                        action,
                        Failure {
                            stage: Stage::Split,
                            error: FlashError::Split(SplitError::UnsplittableChunk),
                        },
                    )
                }
            },
            Err(_) => fails(
                post,
                action,
                Failure {
                    stage: Stage::Parse,
                    error: FlashError::Format(FormatError::CorruptChunk),
                },
            ),
        },
        _ => fails(post, action, failure_of(event, Stage::Parse, FlashError::Io(IOError::ReadFailed))),
    }
}

/// The transfer stays with its units, now at unit `index`, waiting for
/// `step`.
pub open spec fn stays_with(
    post: Phase,
    strategy: Strategy,
    units: Seq<TransferUnit>,
    index: int,
    step: UnitStep,
) -> bool {
    &&& post matches Phase::ForEachUnit { strategy: s, units: u, index: i, step: st }
    &&& s == strategy
    &&& u@ == units
    &&& i == index
    &&& st == step
}

/// The step that follows an answer while unit `index` is in hand.
pub open spec fn after_unit(
    partition: String,
    strategy: Strategy,
    units: Seq<TransferUnit>,
    index: int,
    step: UnitStep,
    event: Event,
    post: Phase,
    action: Action,
) -> bool {
    match step {
        UnitStep::Upload => match event {
            Event::Done => {
                &&& stays_with(post, strategy, units, index, UnitStep::Commit)
                &&& action matches Action::Commit(p)
                &&& p@ == partition@
            },
            _ => fails(
                post,
                action,
                failure_of(event, Stage::Upload, FlashError::Protocol(ProtocolError::Rejected)),
            ),
        },
        UnitStep::Commit => match event {
            Event::Done => {
                &&& stays_with(post, strategy, units, index, UnitStep::Report)
                &&& action matches Action::Report { completed, total }
                &&& completed == index + 1
                &&& total == units.len()
            },
            _ => fails(
                post,
                action,
                failure_of(event, Stage::Commit, FlashError::Protocol(ProtocolError::Rejected)),
            ),
        },
        UnitStep::Report => if index + 1 < units.len() {
            &&& stays_with(post, strategy, units, index + 1, UnitStep::Upload)
            &&& uploads(action, units[index + 1])
        } else {
            finishes(post, action, units.len() as int)
        },
    }
}

impl Transfer {
    /// Whether the transfer is in order: what it has gathered of the chunks
    /// of a sparse image adds up, and the unit in hand is one of its units.
    pub open spec fn wf(self) -> bool {
        match self.phase {
            Phase::ParseChunks { header, chunks, offset, blocks, .. } => {
                &&& chunks@.len() < header.total_chunks
                &&& blocks == sum_blocks(chunks@)
                &&& offset == FILE_HEADER_LEN + sum_strides(chunks@)
            },
            Phase::ForEachUnit { units, index, .. } => {
                &&& index < units@.len()
                &&& forall|u: int| 0 <= u < units@.len() ==> streamable(#[trigger] units@[u])
            },
            _ => true,
        }
    }
}

/// Whether a transfer in state `pre` that is told of `event` goes over into
/// `post` and asks for `action`.
pub open spec fn steps(pre: Transfer, event: Event, post: Transfer, action: Action) -> bool {
    &&& post.partition@ == pre.partition@
    &&& post.source_len == pre.source_len
    &&& match pre.phase {
        Phase::QueryMaxSize => after_size_query(event, post.phase, action),
        Phase::ParseSource { max } => after_header(pre.source_len, max, event, post.phase, action),
        Phase::ParseChunks { max, header, chunks, offset, .. } => after_chunk(
            max,
            header,
            chunks@,
            offset,
            event,
            post.phase,
            action,
        ),
        Phase::ForEachUnit { strategy, units, index, step } => after_unit(
            pre.partition,
            strategy,
            units@,
            index as int,
            step,
            event,
            post.phase,
            action,
        ),
        Phase::Complete { total } => finishes(post.phase, action, total as int),
        Phase::Failed(failure) => fails(post.phase, action, failure),
    }
}

/// All of `chunks` take no more bytes in the source than their number times
/// the most that one chunk can take.
proof fn lemma_sum_strides_bound(chunks: Seq<ChunkRecord>)
    ensures
        0 <= sum_strides(chunks) <= chunks.len() * 0xffff_ffff,
    decreases chunks.len(),
{
    if chunks.len() > 0 {
        lemma_sum_strides_bound(chunks.drop_last());
    }
}

/// The failure that `event` stands for at `stage`.
fn failure_from(event: &Event, stage: Stage, otherwise: FlashError) -> (r: Failure)
    ensures
        r == failure_of(*event, stage, otherwise),
{
    Failure {
        stage,
        error: match event {
            Event::DeviceFailed(e) => FlashError::Protocol(*e),
            Event::SourceFailed(e) => FlashError::Io(*e),
            _ => otherwise,
        },
    }
}

/// Gives the transfer up.
fn give_up(partition: String, source_len: u64, failure: Failure) -> (r: (Transfer, Action))
    ensures
        r.0.partition == partition,
        r.0.source_len == source_len,
        fails(r.0.phase, r.1, failure),
        r.0.wf(),
{
    (Transfer { partition, source_len, phase: Phase::Failed(failure) }, Action::Abort(failure))
}

/// Ends the transfer, after `total` units.
fn finish(partition: String, source_len: u64, total: u64) -> (r: (Transfer, Action))
    ensures
        r.0.partition == partition,
        r.0.source_len == source_len,
        finishes(r.0.phase, r.1, total as int),
        r.0.wf(),
{
    (Transfer { partition, source_len, phase: Phase::Complete { total } }, Action::Finish)
}

/// Takes up `units` and asks for the first of them.
fn begin(partition: String, source_len: u64, strategy: Strategy, units: Vec<TransferUnit>) -> (r: (
    Transfer,
    Action,
))
    requires
        units@.len() > 0,
        forall|u: int| 0 <= u < units@.len() ==> streamable(#[trigger] units@[u]),
    ensures
        r.0.partition == partition,
        r.0.source_len == source_len,
        takes_up(r.0.phase, r.1, strategy),
        units_of(r.0.phase) == units@,
        r.0.wf(),
{
    let size = units[0].total_size();
    let segments = units[0].segments();
    (
        Transfer {
            partition,
            source_len,
            phase: Phase::ForEachUnit { strategy, units, index: 0, step: UnitStep::Upload },
        },
        Action::Upload { size, segments },
    )
}

/// The step after the answer to the size query.
fn on_size(partition: String, source_len: u64, event: Event) -> (r: (Transfer, Action))
    ensures
        r.0.partition == partition,
        r.0.source_len == source_len,
        after_size_query(event, r.0.phase, r.1),
        r.0.wf(),
{
    match &event {
        Event::Variable(value) => match parse_u32_hex(value.as_str()) {
            Some(max) => (
                Transfer { partition, source_len, phase: Phase::ParseSource { max } },
                Action::ReadSource { offset: 0, len: 28 },
            ),
            None => give_up(
                partition,
                source_len,
                Failure {
                    stage: Stage::SizeQuery,
                    error: FlashError::Protocol(ProtocolError::DeviceUnresponsive),
                },
            ),
        },
        _ => {
            let failure = failure_from(
                &event,
                Stage::SizeQuery,
                FlashError::Protocol(ProtocolError::DeviceUnresponsive),
            );
            give_up(partition, source_len, failure)
        },
    }
}

/// The step of a source that is no sparse image.
fn on_raw_source(partition: String, source_len: u64, max: u32) -> (r: (Transfer, Action))
    ensures
        r.0.partition == partition,
        r.0.source_len == source_len,
        takes_raw_path(source_len, max, r.0.phase, r.1),
        r.0.wf(),
{
    if source_len == 0 {
        finish(partition, source_len, 0)
    } else if max == 0 {
        give_up(
            partition,
            source_len,
            Failure { stage: Stage::Split, error: FlashError::Split(SplitError::UnsplittableChunk) },
        )
    } else if source_len < max as u64 {
        let mut units: Vec<TransferUnit> = Vec::new();
        units.push(TransferUnit::Raw { offset: 0, len: source_len as u32 });
        proof {
            crate::split::lemma_count_is_rounded_up(source_len as int, max as int, 1);
            assert(units@ =~= raw_units(source_len as int, max as int));
        }
        begin(partition, source_len, Strategy::RawDirect, units)
    } else {
        match split_raw(source_len, max) {
            Ok(units) => {
                proof {
                    let total = source_len as int;
                    let most = max as int;
                    assert((total + most - 1) / most >= 1) by (nonlinear_arith)
                        requires
                            total >= most > 0,
                    ;
                }
                begin(partition, source_len, Strategy::RawSplit, units)
            },
            Err(_) => give_up(
                partition,
                source_len,
                Failure {
                    stage: Stage::Split,
                    error: FlashError::Split(SplitError::UnsplittableChunk),
                },
            ),
        }
    }
}

/// The step after the first bytes of the source.
fn on_header(partition: String, source_len: u64, max: u32, event: Event) -> (r: (Transfer, Action))
    ensures
        r.0.partition == partition,
        r.0.source_len == source_len,
        after_header(source_len, max, event, r.0.phase, r.1),
        r.0.wf(),
{
    match &event {
        Event::Bytes(bytes) => match parse_header(bytes.as_slice()) {
            Ok(header) => if header.total_chunks == 0 {
                finish(partition, source_len, 0)
            } else {
                (
                    Transfer {
                        partition,
                        source_len,
                        phase: Phase::ParseChunks {
                            max,
                            header,
                            chunks: Vec::new(),
                            offset: 28,
                            blocks: 0,
                        },
                    },
                    Action::ReadSource { offset: 28, len: 12 },
                )
            },
            Err(FormatError::NotThisFormat) => on_raw_source(partition, source_len, max),
            Err(_) => give_up(
                partition,
                source_len,
                Failure {
                    stage: Stage::Parse,
                    error: FlashError::Format(FormatError::CorruptHeader),
                },
            ),
        },
        _ => {
            let failure = failure_from(&event, Stage::Parse, FlashError::Io(IOError::ReadFailed));
            give_up(partition, source_len, failure)
        },
    }
}

/// What one more chunk adds to the sums over the chunks read so far.
proof fn lemma_chunk_read(chunks: Seq<ChunkRecord>, c: ChunkRecord)
    ensures
        sum_blocks(chunks.push(c)) == sum_blocks(chunks) + c.block_count,
        sum_strides(chunks.push(c)) == sum_strides(chunks) + stride(c),
{
    assert(chunks.push(c).drop_last() =~= chunks);
}

/// A packing of at least one chunk has at least one unit, and each of its
/// units can be written out.
proof fn lemma_packing_can_start(
    block_size: u32,
    chunks: Seq<ChunkRecord>,
    max: int,
    units: Seq<TransferUnit>,
)
    requires
        chunks.len() > 0,
        is_packing(block_size, chunks, max, units),
    ensures
        units.len() > 0,
        forall|u: int| 0 <= u < units.len() ==> streamable(#[trigger] units[u]),
{
    assert(crate::split::placed(chunks).len() > 0);
    assert forall|u: int| 0 <= u < units.len() implies streamable(#[trigger] units[u]) by {
        assert(crate::split::is_packed_unit(units[u], block_size, max));
    }
}

/// The step after the bytes of a chunk header.
fn on_chunk(
    partition: String,
    source_len: u64,
    max: u32,
    header: ImageHeader,
    chunks: Vec<ChunkRecord>,
    offset: u64,
    blocks: u32,
    event: Event,
) -> (r: (Transfer, Action))
    requires
        chunks@.len() < header.total_chunks,
        blocks == sum_blocks(chunks@),
        offset == FILE_HEADER_LEN + sum_strides(chunks@),
    ensures
        r.0.partition == partition,
        r.0.source_len == source_len,
        after_chunk(max, header, chunks@, offset, event, r.0.phase, r.1),
        r.0.wf(),
{
    let corrupt = Failure {
        stage: Stage::Parse,
        error: FlashError::Format(FormatError::CorruptChunk),
    };
    match &event {
        Event::Bytes(bytes) => match parse_chunk(bytes.as_slice()) {
            Ok(c) => {
                proof {
                    lemma_chunk_read(chunks@, c);
                    lemma_sum_strides_bound(chunks@);
                }
                if c.block_count > u32::MAX - blocks {
                    return give_up(partition, source_len, corrupt);
                }
                let next = offset + 12 + c.payload_len() as u64;
                let mut chunks = chunks;
                chunks.push(c);
                if chunks.len() < header.total_chunks as usize {
                    (
                        Transfer {
                            partition,
                            source_len,
                            phase: Phase::ParseChunks {
                                max,
                                header,
                                chunks,
                                offset: next,
                                blocks: blocks + c.block_count,
                            },
                        },
                        Action::ReadSource { offset: next, len: 12 },
                    )
                } else {
                    match split_sparse(&header, chunks.as_slice(), max) {
                        Ok(units) => {
                            proof {
                                lemma_packing_can_start(
                                    header.block_size,
                                    chunks@,
                                    max as int,
                                    units@,
                                );
                            }
                            begin(partition, source_len, Strategy::SparseSplit, units)
                        },
                        Err(_) => give_up(
                            partition,
                            source_len,
                            Failure {
                                stage: Stage::Split,
                                error: FlashError::Split(SplitError::UnsplittableChunk),
                            },
                        ),
                    }
                }
            },
            Err(_) => give_up(partition, source_len, corrupt),
        },
        _ => {
            let failure = failure_from(&event, Stage::Parse, FlashError::Io(IOError::ReadFailed));
            give_up(partition, source_len, failure)
        },
    }
}

/// The step after an answer while unit `index` is in hand.
fn on_unit(
    partition: String,
    source_len: u64,
    strategy: Strategy,
    units: Vec<TransferUnit>,
    index: usize,
    step: UnitStep,
    event: Event,
) -> (r: (Transfer, Action))
    requires
        index < units@.len(),
        forall|u: int| 0 <= u < units@.len() ==> streamable(#[trigger] units@[u]),
    ensures
        r.0.partition@ == partition@,
        r.0.source_len == source_len,
        after_unit(partition, strategy, units@, index as int, step, event, r.0.phase, r.1),
        r.0.wf(),
{
    let count = units.len();
    match step {
        UnitStep::Upload => match &event {
            Event::Done => {
                let name = partition.clone();
                (
                    Transfer {
                        partition,
                        source_len,
                        phase: Phase::ForEachUnit { strategy, units, index, step: UnitStep::Commit },
                    },
                    Action::Commit(name),
                )
            },
            _ => {
                let failure = failure_from(
                    &event,
                    Stage::Upload,
                    FlashError::Protocol(ProtocolError::Rejected),
                );
                give_up(partition, source_len, failure)
            },
        },
        UnitStep::Commit => match &event {
            Event::Done => {
                let completed = index as u64 + 1;
                let total = count as u64;
                (
                    Transfer {
                        partition,
                        source_len,
                        phase: Phase::ForEachUnit { strategy, units, index, step: UnitStep::Report },
                    },
                    Action::Report { completed, total },
                )
            },
            _ => {
                let failure = failure_from(
                    &event,
                    Stage::Commit,
                    FlashError::Protocol(ProtocolError::Rejected),
                );
                give_up(partition, source_len, failure)
            },
        },
        UnitStep::Report => if index + 1 < count {
            let size = units[index + 1].total_size();
            let segments = units[index + 1].segments();
            (
                Transfer {
                    partition,
                    source_len,
                    phase: Phase::ForEachUnit {
                        strategy,
                        units,
                        index: index + 1,
                        step: UnitStep::Upload,
                    },
                },
                Action::Upload { size, segments },
            )
        } else {
            finish(partition, source_len, count as u64)
        },
    }
}

impl Transfer {
    /// A transfer of a source of `source_len` bytes to `partition`, and its
    /// first action: to ask the device for the most bytes that it takes in
    /// one transfer.
    pub fn new(partition: String, source_len: u64) -> (r: (Transfer, Action))
        ensures
            r.0.partition == partition,
            r.0.source_len == source_len,
            r.0.phase == Phase::QueryMaxSize,
            r.0.wf(),
            r.1 matches Action::GetVariable(name) && name@ == "max-download-size"@,
    {
        let name = String::from_str(max_download_variable());
        (Transfer { partition, source_len, phase: Phase::QueryMaxSize }, Action::GetVariable(name))
    }

    /// Takes the outcome of the last action and says what to do next.
    ///
    /// Any failure ends the transfer: nothing is tried twice, and nothing
    /// that was uploaded is taken back. An event that is neither a failure
    /// nor the answer that the last action asks for counts as a failure of
    /// that action. Once the transfer is complete or given up it stays so,
    /// whatever it is told.
    pub fn step(self, event: Event) -> (r: (Transfer, Action))
        requires
            self.wf(),
        ensures
            r.0.wf(),
            steps(self, event, r.0, r.1),
    {
        let Transfer { partition, source_len, phase } = self;
        match phase {
            Phase::QueryMaxSize => on_size(partition, source_len, event),
            Phase::ParseSource { max } => on_header(partition, source_len, max, event),
            Phase::ParseChunks { max, header, chunks, offset, blocks } => on_chunk(
                partition,
                source_len,
                max,
                header,
                chunks,
                offset,
                blocks,
                event,
            ),
            Phase::ForEachUnit { strategy, units, index, step } => on_unit(
                partition,
                source_len,
                strategy,
                units,
                index,
                step,
                event,
            ),
            Phase::Complete { total } => finish(partition, source_len, total),
            Phase::Failed(failure) => give_up(partition, source_len, failure),
        }
    }
}

/// What the caller has been told of the progress by `actions`: the pairs
/// of units done and units in all, in the order of the reports.
pub open spec fn reports(actions: Seq<Action>) -> Seq<(int, int)>
    decreases actions.len(),
{
    if actions.len() == 0 {
        Seq::empty()
    } else {
        match actions.last() {
            Action::Report { completed, total } => reports(actions.drop_last()).push(
                (completed as int, total as int),
            ),
            _ => reports(actions.drop_last()),
        }
    }
}

/// The reports of a transfer of `total` units of which `done` are done:
/// one of `total`, two of `total`, and so on.
pub open spec fn counting(done: int, total: int) -> Seq<(int, int)> {
    Seq::new(done as nat, |i: int| (i + 1, total))
}

/// Step `i` of a run leads from state `i` to the next.
pub open spec fn step_at(
    states: Seq<Transfer>,
    events: Seq<Event>,
    actions: Seq<Action>,
    i: int,
) -> bool {
    steps(states[i], events[i], states[i + 1], actions[i])
}

/// Whether `states` are the states that a transfer goes through when it is
/// told of `events` one after the other, and `actions` what it asks for.
pub open spec fn is_run(states: Seq<Transfer>, events: Seq<Event>, actions: Seq<Action>) -> bool {
    &&& states.len() == events.len() + 1
    &&& actions.len() == events.len()
    &&& forall|i: int| 0 <= i < events.len() ==> #[trigger] step_at(states, events, actions, i)
}

/// Whether a transfer in `phase` has made exactly the reports `told`, as far
/// as it has not been given up.
spec fn on_track(phase: Phase, told: Seq<(int, int)>) -> bool {
    match phase {
        Phase::ForEachUnit { units, index, step, .. } => {
            &&& index < units@.len()
            &&& told == counting(
                if step == UnitStep::Report {
                    index + 1
                } else {
                    index as int
                },
                units@.len() as int,
            )
        },
        Phase::Complete { total } => told == counting(total as int, total as int),
        Phase::Failed(_) => true,
        _ => told == Seq::<(int, int)>::empty(),
    }
}

/// Whether a transfer in `phase` that has not been given up is one of `n`
/// units.
spec fn counts_units(phase: Phase, n: int) -> bool {
    match phase {
        Phase::ForEachUnit { units, .. } => units@.len() == n,
        Phase::Complete { total } => total == n,
        Phase::Failed(_) => true,
        _ => false,
    }
}

/// One step keeps the reports on track and the number of units as it is.
proof fn lemma_step_on_track(
    pre: Transfer,
    event: Event,
    post: Transfer,
    action: Action,
    told: Seq<(int, int)>,
)
    requires
        steps(pre, event, post, action),
        on_track(pre.phase, told),
    ensures
        on_track(post.phase, told + reports(seq![action])),
        forall|n: int| counts_units(pre.phase, n) ==> counts_units(post.phase, n),
{
    let one = seq![action];
    assert(one.drop_last() =~= Seq::<Action>::empty());
    assert(reports(one.drop_last()) =~= Seq::<(int, int)>::empty());
    match action {
        Action::Report { completed, total } => {
            assert(reports(one) =~= seq![(completed as int, total as int)]);
            assert(told + reports(one) =~= told.push((completed as int, total as int)));
        },
        _ => {
            assert(reports(one) =~= Seq::<(int, int)>::empty());
            assert(told + reports(one) =~= told);
        },
    }
    match pre.phase {
        Phase::ForEachUnit { units, index, step, .. } => {
            match step {
                UnitStep::Commit => {
                    if event is Done {
                        assert(counting(index as int, units@.len() as int).push(
                            (index + 1, units@.len() as int),
                        ) =~= counting(index + 1, units@.len() as int));
                    }
                },
                _ => {},
            }
        },
        Phase::ParseSource { .. } => {
            assert(counting(0, 0) =~= Seq::<(int, int)>::empty());
        },
        _ => {},
    }
    if post.phase is ForEachUnit {
        assert(counting(0, units_of(post.phase).len() as int) =~= Seq::<(int, int)>::empty());
    }
}

/// The reports of the first `k` steps are those of the first `k - 1` and
/// then that of step `k`.
proof fn lemma_reports_take(actions: Seq<Action>, k: int)
    requires
        0 < k <= actions.len(),
    ensures
        reports(actions.take(k)) == reports(actions.take(k - 1)) + reports(seq![actions[k - 1]]),
{
    let one = seq![actions[k - 1]];
    assert(one.drop_last() =~= Seq::<Action>::empty());
    assert(reports(one.drop_last()) =~= Seq::<(int, int)>::empty());
    assert(actions.take(k).drop_last() =~= actions.take(k - 1));
    match actions[k - 1] {
        Action::Report { completed, total } => {
            assert(reports(one) =~= seq![(completed as int, total as int)]);
            assert(reports(actions.take(k)) =~= reports(actions.take(k - 1)) + reports(one));
        },
        _ => {
            assert(reports(one) =~= Seq::<(int, int)>::empty());
            assert(reports(actions.take(k)) =~= reports(actions.take(k - 1)) + reports(one));
        },
    }
}

/// After `k` steps of a run from the start, the reports are on track, and
/// the transfer still counts the units that it has ever had in hand.
proof fn lemma_run_on_track(
    states: Seq<Transfer>,
    events: Seq<Event>,
    actions: Seq<Action>,
    k: int,
)
    requires
        is_run(states, events, actions),
        states[0].phase == Phase::QueryMaxSize,
        0 <= k <= events.len(),
    ensures
        on_track(states[k].phase, reports(actions.take(k))),
        forall|j: int|
            0 <= j <= k && (#[trigger] states[j]).phase is ForEachUnit ==> counts_units(
                states[k].phase,
                units_of(states[j].phase).len() as int,
            ),
    decreases k,
{
    if k == 0 {
        assert(actions.take(0) =~= Seq::<Action>::empty());
    } else {
        lemma_run_on_track(states, events, actions, k - 1);
        assert(step_at(states, events, actions, k - 1));
        lemma_step_on_track(
            states[k - 1],
            events[k - 1],
            states[k],
            actions[k - 1],
            reports(actions.take(k - 1)),
        );
        lemma_reports_take(actions, k);
    }
}

/// A transfer that runs from its start to completion reports once for each
/// unit, and in this order: one of all, two of all, up to all of all. The
/// count of units that it completes with is the number of units that it has
/// had in hand at any time.
pub proof fn lemma_progress_counts_units(
    states: Seq<Transfer>,
    events: Seq<Event>,
    actions: Seq<Action>,
    total: u64,
)
    requires
        is_run(states, events, actions),
        states[0].phase == Phase::QueryMaxSize,
        states.last().phase == (Phase::Complete { total }),
    ensures
        reports(actions) == counting(total as int, total as int),
        forall|j: int|
            0 <= j < states.len() && (#[trigger] states[j]).phase is ForEachUnit ==> units_of(
                states[j].phase,
            ).len() == total,
{
    lemma_run_on_track(states, events, actions, events.len() as int);
    assert(actions.take(events.len() as int) =~= actions);
}

/// Something that is done to the device or told to the caller, as
/// contracts speak of it.
pub enum Deed {
    /// An upload of so many bytes, made of these pieces.
    Upload(int, Seq<Piece>),
    /// A commit to this partition.
    Commit(Seq<char>),
    /// A report of so many units done, of so many.
    Report(int, int),
}

/// What `actions` do to the device and tell the caller, in their order:
/// the uploads, commits and reports among them.
pub open spec fn deeds(actions: Seq<Action>) -> Seq<Deed>
    decreases actions.len(),
{
    if actions.len() == 0 {
        Seq::empty()
    } else {
        match actions.last() {
            Action::Upload { size, segments } => deeds(actions.drop_last()).push(
                Deed::Upload(size as int, pieces(segments@)),
            ),
            Action::Commit(partition) => deeds(actions.drop_last()).push(
                Deed::Commit(partition@),
            ),
            Action::Report { completed, total } => deeds(actions.drop_last()).push(
                Deed::Report(completed as int, total as int),
            ),
            _ => deeds(actions.drop_last()),
        }
    }
}

/// What is done for unit `i` of `units` up to and with `step`: it is
/// uploaded, then committed to `partition`, then reported.
pub open spec fn unit_deeds(
    units: Seq<TransferUnit>,
    partition: Seq<char>,
    i: int,
    step: UnitStep,
) -> Seq<Deed> {
    let upload = Deed::Upload(units[i].size(), unit_stream(units[i]));
    match step {
        UnitStep::Upload => seq![upload],
        UnitStep::Commit => seq![upload, Deed::Commit(partition)],
        UnitStep::Report => seq![
            upload,
            Deed::Commit(partition),
            Deed::Report(i + 1, units.len() as int),
        ],
    }
}

/// What is done for the first `n` of `units`: each in turn is uploaded,
/// committed to `partition` and reported.
pub open spec fn schedule(units: Seq<TransferUnit>, partition: Seq<char>, n: int) -> Seq<Deed>
    decreases n,
{
    if n <= 0 {
        Seq::empty()
    } else {
        schedule(units, partition, n - 1) + unit_deeds(units, partition, n - 1, UnitStep::Report)
    }
}

/// Whether a transfer in `phase` has done exactly `done`, as far as it has
/// units in hand.
spec fn on_schedule(phase: Phase, partition: Seq<char>, done: Seq<Deed>) -> bool {
    match phase {
        Phase::ForEachUnit { units, index, step, .. } => {
            &&& index < units@.len()
            &&& done == schedule(units@, partition, index as int) + unit_deeds(
                units@,
                partition,
                index as int,
                step,
            )
        },
        Phase::Complete { .. } => true,
        Phase::Failed(_) => true,
        _ => done == Seq::<Deed>::empty(),
    }
}

/// Whether a transfer in `phase` that has not been given up still has the
/// units `units` in hand, or has completed them with the deeds `done`.
spec fn keeps_to(
    phase: Phase,
    partition: Seq<char>,
    done: Seq<Deed>,
    units: Seq<TransferUnit>,
) -> bool {
    match phase {
        Phase::ForEachUnit { units: u, .. } => u@ == units,
        Phase::Complete { total } => total == units.len() && done == schedule(
            units,
            partition,
            units.len() as int,
        ),
        Phase::Failed(_) => true,
        _ => false,
    }
}

/// What a single action adds to the deeds.
proof fn lemma_deeds_of_one(action: Action)
    ensures
        deeds(seq![action]) == match action {
            Action::Upload { size, segments } => seq![
                Deed::Upload(size as int, pieces(segments@)),
            ],
            Action::Commit(partition) => seq![Deed::Commit(partition@)],
            Action::Report { completed, total } => seq![
                Deed::Report(completed as int, total as int),
            ],
            _ => Seq::<Deed>::empty(),
        },
{
    let one = seq![action];
    assert(one.drop_last() =~= Seq::<Action>::empty());
    assert(deeds(one.drop_last()) =~= Seq::<Deed>::empty());
    match action {
        Action::Upload { size, segments } => {
            assert(deeds(one) =~= seq![Deed::Upload(size as int, pieces(segments@))]);
        },
        Action::Commit(partition) => {
            assert(deeds(one) =~= seq![Deed::Commit(partition@)]);
        },
        Action::Report { completed, total } => {
            assert(deeds(one) =~= seq![Deed::Report(completed as int, total as int)]);
        },
        _ => {
            assert(deeds(one) =~= Seq::<Deed>::empty());
        },
    }
}

/// The deeds of the first `k` actions are those of the first `k - 1` and
/// then that of action `k`.
proof fn lemma_deeds_take(actions: Seq<Action>, k: int)
    requires
        0 < k <= actions.len(),
    ensures
        deeds(actions.take(k)) == deeds(actions.take(k - 1)) + deeds(seq![actions[k - 1]]),
{
    lemma_deeds_of_one(actions[k - 1]);
    assert(actions.take(k).drop_last() =~= actions.take(k - 1));
    assert(deeds(actions.take(k)) =~= deeds(actions.take(k - 1)) + deeds(seq![actions[k - 1]]));
}

/// One step keeps the transfer on schedule and to its units.
proof fn lemma_step_on_schedule(
    pre: Transfer,
    event: Event,
    post: Transfer,
    action: Action,
    done: Seq<Deed>,
)
    requires
        steps(pre, event, post, action),
        on_schedule(pre.phase, pre.partition@, done),
    ensures
        on_schedule(post.phase, post.partition@, done + deeds(seq![action])),
        forall|units: Seq<TransferUnit>|
            keeps_to(pre.phase, pre.partition@, done, units) ==> keeps_to(
                post.phase,
                post.partition@,
                done + deeds(seq![action]),
                units,
            ),
        post.phase is ForEachUnit ==> keeps_to(
            post.phase,
            post.partition@,
            done + deeds(seq![action]),
            units_of(post.phase),
        ),
{
    let p = pre.partition@;
    let after = done + deeds(seq![action]);
    lemma_deeds_of_one(action);
    match pre.phase {
        Phase::ForEachUnit { units, index, step, .. } => {
            let before = schedule(units@, p, index as int);
            match step {
                UnitStep::Upload => {
                    if event is Done {
                        assert(after =~= before + unit_deeds(
                            units@,
                            p,
                            index as int,
                            UnitStep::Commit,
                        ));
                    }
                },
                UnitStep::Commit => {
                    if event is Done {
                        assert(after =~= before + unit_deeds(
                            units@,
                            p,
                            index as int,
                            UnitStep::Report,
                        ));
                    }
                },
                UnitStep::Report => {
                    assert(schedule(units@, p, index + 1) == done);
                    if index + 1 < units@.len() {
                        assert(after =~= schedule(units@, p, index + 1) + unit_deeds(
                            units@,
                            p,
                            index + 1,
                            UnitStep::Upload,
                        ));
                    } else {
                        assert(after =~= done);
                    }
                },
            }
        },
        Phase::Complete { .. } => {
            assert(after =~= done);
        },
        Phase::Failed(_) => {},
        _ => {
            if post.phase is ForEachUnit {
                let units = units_of(post.phase);
                assert(schedule(units, p, 0) =~= Seq::<Deed>::empty());
                assert(after =~= schedule(units, p, 0) + unit_deeds(
                    units,
                    p,
                    0,
                    UnitStep::Upload,
                ));
            } else {
                assert(after =~= done);
            }
        },
    }
}

/// After `k` steps of a run from the start, the transfer is on schedule,
/// and it keeps to the units that it has had in hand after `j` steps.
proof fn lemma_run_on_schedule(
    states: Seq<Transfer>,
    events: Seq<Event>,
    actions: Seq<Action>,
    j: int,
    k: int,
)
    requires
        is_run(states, events, actions),
        states[0].phase == Phase::QueryMaxSize,
        0 <= j <= k <= events.len(),
    ensures
        states[k].partition@ == states[0].partition@,
        on_schedule(states[k].phase, states[0].partition@, deeds(actions.take(k))),
        states[j].phase is ForEachUnit ==> keeps_to(
            states[k].phase,
            states[0].partition@,
            deeds(actions.take(k)),
            units_of(states[j].phase),
        ),
    decreases k,
{
    if k == 0 {
        assert(actions.take(0) =~= Seq::<Action>::empty());
    } else {
        if j < k {
            lemma_run_on_schedule(states, events, actions, j, k - 1);
        } else {
            lemma_run_on_schedule(states, events, actions, k - 1, k - 1);
        }
        assert(step_at(states, events, actions, k - 1));
        lemma_step_on_schedule(
            states[k - 1],
            events[k - 1],
            states[k],
            actions[k - 1],
            deeds(actions.take(k - 1)),
        );
        lemma_deeds_take(actions, k);
    }
}

/// A transfer that runs from its start to completion does to the device
/// exactly this: each unit that it has in hand, in the order of the units,
/// is uploaded in its size and piece by piece, then committed to the
/// partition, then reported; no unit is begun before the one before it is
/// committed and reported, none is uploaded twice, and nothing else is
/// uploaded or committed. A transfer that never has units in hand uploads
/// and commits nothing.
pub proof fn lemma_units_go_in_order(
    states: Seq<Transfer>,
    events: Seq<Event>,
    actions: Seq<Action>,
)
    requires
        is_run(states, events, actions),
        states[0].phase == Phase::QueryMaxSize,
        states.last().phase is Complete,
    ensures
        forall|j: int|
            0 <= j < states.len() && (#[trigger] states[j]).phase is ForEachUnit ==> deeds(actions)
                == schedule(
                units_of(states[j].phase),
                states[0].partition@,
                units_of(states[j].phase).len() as int,
            ),
        (forall|j: int| 0 <= j < states.len() ==> !((#[trigger] states[j]).phase is ForEachUnit))
            ==> deeds(actions) == Seq::<Deed>::empty(),
{
    let n = events.len() as int;
    assert(actions.take(n) =~= actions);
    assert forall|j: int|
        0 <= j < states.len() && (#[trigger] states[j]).phase is ForEachUnit implies deeds(actions)
            == schedule(
            units_of(states[j].phase),
            states[0].partition@,
            units_of(states[j].phase).len() as int,
        ) by {
        lemma_run_on_schedule(states, events, actions, j, n);
    }
    if forall|j: int| 0 <= j < states.len() ==> !((#[trigger] states[j]).phase is ForEachUnit) {
        lemma_run_without_units(states, events, actions, n);
    }
}

/// A run from the start in which no units are ever in hand does nothing to
/// the device.
proof fn lemma_run_without_units(
    states: Seq<Transfer>,
    events: Seq<Event>,
    actions: Seq<Action>,
    k: int,
)
    requires
        is_run(states, events, actions),
        states[0].phase == Phase::QueryMaxSize,
        0 <= k <= events.len(),
        forall|j: int| 0 <= j < states.len() ==> !((#[trigger] states[j]).phase is ForEachUnit),
    ensures
        deeds(actions.take(k)) == Seq::<Deed>::empty(),
    decreases k,
{
    if k == 0 {
        assert(actions.take(0) =~= Seq::<Action>::empty());
    } else {
        lemma_run_without_units(states, events, actions, k - 1);
        assert(step_at(states, events, actions, k - 1));
        assert(!(states[k - 1].phase is ForEachUnit));
        assert(!(states[k].phase is ForEachUnit));
        lemma_deeds_take(actions, k);
        lemma_deeds_of_one(actions[k - 1]);
    }
}

/// A source that does not begin with the magic number is no failure: it is
/// transferred as a raw image, and the transfer is not given up for its
/// format.
pub proof fn lemma_unknown_magic_goes_raw(
    pre: Transfer,
    bytes: Vec<u8>,
    post: Transfer,
    action: Action,
)
    requires
        pre.phase is ParseSource,
        !crate::sparse::has_magic(bytes@),
        steps(pre, Event::Bytes(bytes), post, action),
    ensures
        takes_raw_path(pre.source_len, pre.phase->ParseSource_max, post.phase, action),
        post.phase matches Phase::Failed(failure) ==> failure.stage == Stage::Split,
{
}

/// A source that is no sparse image, not empty and smaller than what the
/// device takes at once is sent as one unit, the whole source, and is not
/// split.
pub proof fn lemma_small_raw_source_is_one_unit(
    pre: Transfer,
    bytes: Vec<u8>,
    post: Transfer,
    action: Action,
)
    requires
        pre.phase is ParseSource,
        !crate::sparse::has_magic(bytes@),
        0 < pre.source_len < pre.phase->ParseSource_max,
        steps(pre, Event::Bytes(bytes), post, action),
    ensures
        post.phase matches Phase::ForEachUnit { strategy, units, index, step } && strategy
            == Strategy::RawDirect && index == 0 && step == UnitStep::Upload && units@ == seq![
            TransferUnit::Raw { offset: 0, len: pre.source_len as u32 },
        ],
        uploads(action, TransferUnit::Raw { offset: 0, len: pre.source_len as u32 }),
{
    let total = pre.source_len as int;
    let max = pre.phase->ParseSource_max as int;
    crate::split::lemma_count_is_rounded_up(total, max, 1);
    assert(raw_units(total, max) =~= seq![
        TransferUnit::Raw { offset: 0, len: pre.source_len as u32 },
    ]);
}

/// A sparse image with a chunk that is too large for a unit of its own is
/// not transferred: once its last chunk header is read, the transfer is
/// given up, and nothing is uploaded.
pub proof fn lemma_unsplittable_chunk_fails(
    pre: Transfer,
    bytes: Vec<u8>,
    post: Transfer,
    action: Action,
    i: int,
)
    requires
        pre.wf(),
        pre.phase matches Phase::ParseChunks { max, header, chunks, .. } && chunk_of(bytes@)
            matches Ok(c) && {
            let all = chunks@.push(c);
            &&& all.len() == header.total_chunks
            &&& sum_blocks(all) <= u32::MAX
            &&& 0 <= i < all.len()
            &&& !fits_alone(all[i], max as int)
        },
        steps(pre, Event::Bytes(bytes), post, action),
    ensures
        fails(
            post.phase,
            action,
            Failure { stage: Stage::Split, error: FlashError::Split(SplitError::UnsplittableChunk) },
        ),
{
}

/// What a stage is called before the user.
pub open spec fn stage_name(stage: Stage) -> Seq<char> {
    match stage {
        Stage::SizeQuery => "size query"@,
        Stage::Parse => "parse"@,
        Stage::Split => "split"@,
        Stage::Upload => "upload"@,
        Stage::Commit => "commit"@,
    }
}

/// What a reason to give up is called before the user.
pub open spec fn error_name(error: FlashError) -> Seq<char> {
    match error {
        FlashError::Format(FormatError::NotThisFormat) => "not a sparse image"@,
        FlashError::Format(FormatError::CorruptHeader) => "corrupt image header"@,
        FlashError::Format(FormatError::CorruptChunk) => "corrupt chunk header"@,
        FlashError::Protocol(ProtocolError::DeviceUnresponsive) => "device unresponsive"@,
        FlashError::Protocol(ProtocolError::Rejected) => "rejected by device"@,
        FlashError::Split(SplitError::UnsplittableChunk) => "unsplittable chunk"@,
        FlashError::Io(IOError::ReadFailed) => "read failed"@,
        FlashError::Io(IOError::SeekFailed) => "seek failed"@,
    }
}

impl Stage {
    /// What the stage is called before the user.
    pub fn name(&self) -> (r: &'static str)
        ensures
            r@ == stage_name(*self),
    {
        match self {
            Stage::SizeQuery => "size query",
            Stage::Parse => "parse",
            Stage::Split => "split",
            Stage::Upload => "upload",
            Stage::Commit => "commit",
        }
    }
}

impl FlashError {
    /// What the reason is called before the user.
    pub fn name(&self) -> (r: &'static str)
        ensures
            r@ == error_name(*self),
    {
        match self {
            FlashError::Format(FormatError::NotThisFormat) => "not a sparse image",
            FlashError::Format(FormatError::CorruptHeader) => "corrupt image header",
            FlashError::Format(FormatError::CorruptChunk) => "corrupt chunk header",
            FlashError::Protocol(ProtocolError::DeviceUnresponsive) => "device unresponsive",
            FlashError::Protocol(ProtocolError::Rejected) => "rejected by device",
            FlashError::Split(SplitError::UnsplittableChunk) => "unsplittable chunk",
            FlashError::Io(IOError::ReadFailed) => "read failed",
            FlashError::Io(IOError::SeekFailed) => "seek failed",
        }
    }
}

impl Failure {
    /// The one sentence that the user sees: the stage that failed, and why.
    pub fn message(&self) -> (r: String)
        ensures
            r@ == stage_name(self.stage) + " failed: "@ + error_name(self.error),
    {
        let mut message = String::from_str(self.stage.name());
        message.append(" failed: ");
        message.append(self.error.name());
        message
    }
}

} // verus!
