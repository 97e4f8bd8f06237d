//! The sparse image container: its header, its chunk headers, and their
//! little-endian layout on disk.

use android_sparse_image::{ChunkHeader, ChunkType, FileHeader, ParseError};
use vstd::prelude::*;

verus! {

/// Length in bytes of the container header.
pub const FILE_HEADER_LEN: usize = 28;

/// Length in bytes of the header in front of every chunk.
pub const CHUNK_HEADER_LEN: usize = 12;

/// The first four bytes of a sparse image, read as a little-endian number.
pub const HEADER_MAGIC: u32 = 0xed26ff3a;

/// The one major version of the format that is understood.
pub const MAJOR_VERSION: u16 = 1;

/// The one minor version of the format that is understood.
pub const MINOR_VERSION: u16 = 0;

/// Why a byte sequence was not accepted as part of a sparse image.
#[derive(Clone, Copy, Debug, PartialEq, Eq, Structural)]
pub enum FormatError {
    /// The source does not begin with the magic number. This is no failure:
    /// the source is then handled as a raw image.
    NotThisFormat,
    /// The magic number is there, but the header is cut short or its
    /// version or declared sizes are not the ones of the format.
    CorruptHeader,
    /// A chunk header is cut short or names a kind of chunk that does not
    /// exist.
    CorruptChunk,
}

/// The header at the start of a sparse image.
#[derive(Clone, Copy, Debug, PartialEq, Eq, Structural)]
pub struct ImageHeader {
    pub magic: u32,
    pub major_version: u16,
    pub minor_version: u16,
    /// Bytes of this header.
    pub header_size: u16,
    /// Bytes of the header of each chunk.
    pub chunk_header_size: u16,
    /// Bytes per logical block.
    pub block_size: u32,
    /// Logical blocks of the expanded image.
    pub total_blocks: u32,
    /// Number of chunks that follow the header.
    pub total_chunks: u32,
    pub checksum: u32,
}

/// What a chunk stands for in the expanded image.
#[derive(Clone, Copy, Debug, PartialEq, Eq, Structural)]
pub enum ChunkKind {
    /// Literal data: the payload is copied to the output.
    Raw,
    /// A four-byte pattern that fills the blocks of the chunk.
    Fill,
    /// Blocks whose content does not matter; no payload.
    Skip,
    /// A checksum of the image so far; covers no blocks of its own.
    Checksum,
}

/// One chunk header, as found in the image.
#[derive(Clone, Copy, Debug, PartialEq, Eq, Structural)]
pub struct ChunkRecord {
    pub kind: ChunkKind,
    /// Logical blocks that the chunk covers in the expanded image.
    pub block_count: u32,
    /// Bytes that the chunk takes in the image, header included.
    pub total_size: u32,
}

/// The 16-bit number stored little-endian at `at`.
pub open spec fn le_u16(bytes: Seq<u8>, at: int) -> int {
    bytes[at] as int + 0x100 * (bytes[at + 1] as int)
}

/// The 32-bit number stored little-endian at `at`.
pub open spec fn le_u32(bytes: Seq<u8>, at: int) -> int {
    bytes[at] as int + 0x100 * (bytes[at + 1] as int) + 0x1_0000 * (bytes[at + 2] as int)
        + 0x100_0000 * (bytes[at + 3] as int)
}

/// Whether `bytes` begins with the magic number of a sparse image.
pub open spec fn has_magic(bytes: Seq<u8>) -> bool {
    bytes.len() >= 4 && le_u32(bytes, 0) == HEADER_MAGIC
}

/// Whether the version and the two declared header sizes, in the eight
/// bytes after the magic number, are the ones of the format.
pub open spec fn has_known_layout(bytes: Seq<u8>) -> bool {
    &&& le_u16(bytes, 4) == MAJOR_VERSION
    &&& le_u16(bytes, 6) == MINOR_VERSION
    &&& le_u16(bytes, 8) == FILE_HEADER_LEN
    &&& le_u16(bytes, 10) == CHUNK_HEADER_LEN
}

/// The header that a source beginning with `bytes` holds, or why it holds
/// none.
pub open spec fn header_of(bytes: Seq<u8>) -> Result<ImageHeader, FormatError> {
    if !has_magic(bytes) {
        Err(FormatError::NotThisFormat)
    } else if bytes.len() < FILE_HEADER_LEN || !has_known_layout(bytes) {
        Err(FormatError::CorruptHeader)
    } else {
        Ok(
            ImageHeader {
                magic: HEADER_MAGIC,
                major_version: MAJOR_VERSION,
                minor_version: MINOR_VERSION,
                header_size: FILE_HEADER_LEN as u16,
                chunk_header_size: CHUNK_HEADER_LEN as u16,
                block_size: le_u32(bytes, 12) as u32,
                total_blocks: le_u32(bytes, 16) as u32,
                total_chunks: le_u32(bytes, 20) as u32,
                checksum: le_u32(bytes, 24) as u32,
            },
        )
    }
}

/// The number that stands for a kind of chunk in a chunk header.
pub open spec fn kind_code(kind: ChunkKind) -> int {
    match kind {
        ChunkKind::Raw => 0xcac1,
        ChunkKind::Fill => 0xcac2,
        ChunkKind::Skip => 0xcac3,
        ChunkKind::Checksum => 0xcac4,
    }
}

/// The kind of chunk that a number in a chunk header stands for, if any.
pub open spec fn kind_of_code(code: int) -> Option<ChunkKind> {
    if code == 0xcac1 {
        Some(ChunkKind::Raw)
    } else if code == 0xcac2 {
        Some(ChunkKind::Fill)
    } else if code == 0xcac3 {
        Some(ChunkKind::Skip)
    } else if code == 0xcac4 {
        Some(ChunkKind::Checksum)
    } else {
        None
    }
}

/// The chunk header that `bytes` begins with, or why there is none.
pub open spec fn chunk_of(bytes: Seq<u8>) -> Result<ChunkRecord, FormatError> {
    if bytes.len() < CHUNK_HEADER_LEN {
        Err(FormatError::CorruptChunk)
    } else {
        match kind_of_code(le_u16(bytes, 0)) {
            Some(kind) => Ok(
                ChunkRecord {
                    kind,
                    block_count: le_u32(bytes, 4) as u32,
                    total_size: le_u32(bytes, 8) as u32,
                },
            ),
            None => Err(FormatError::CorruptChunk),
        }
    }
}

/// The two bytes that store `x` little-endian.
pub open spec fn u16_le(x: u16) -> Seq<u8> {
    seq![(x % 0x100) as u8, (x / 0x100) as u8]
}

/// The four bytes that store `x` little-endian.
pub open spec fn u32_le(x: u32) -> Seq<u8> {
    seq![
        (x % 0x100) as u8,
        (x / 0x100 % 0x100) as u8,
        (x / 0x1_0000 % 0x100) as u8,
        (x / 0x100_0000) as u8,
    ]
}

/// The 28 bytes of a container header on disk.
pub open spec fn header_bytes(h: ImageHeader) -> Seq<u8> {
    u32_le(h.magic) + u16_le(h.major_version) + u16_le(h.minor_version) + u16_le(h.header_size)
        + u16_le(h.chunk_header_size) + u32_le(h.block_size) + u32_le(h.total_blocks) + u32_le(
        h.total_chunks,
    ) + u32_le(h.checksum)
}

/// The 12 bytes of a chunk header on disk. The two bytes after the kind are
/// reserved and hold zero.
pub open spec fn chunk_header_bytes(c: ChunkRecord) -> Seq<u8> {
    u16_le(kind_code(c.kind) as u16) + u16_le(0) + u32_le(c.block_count) + u32_le(c.total_size)
}

/// The four numbers of a container header that vary from image to image.
struct HeaderFields {
    block_size: u32,
    blocks: u32,
    chunks: u32,
    checksum: u32,
}

/// The reasons for which `android_sparse_image` turns bytes down.
enum DecodeFault {
    UnknownMagic,
    UnknownVersion,
    UnexpectedSize,
    UnknownChunkType,
}

/// What `android_sparse_image` makes of the 28 bytes of a container header.
spec fn decoded_file_header(bytes: Seq<u8>) -> Result<HeaderFields, DecodeFault> {
    if le_u32(bytes, 0) != HEADER_MAGIC {
        Err(DecodeFault::UnknownMagic)
    } else if le_u16(bytes, 4) != MAJOR_VERSION || le_u16(bytes, 6) != MINOR_VERSION {
        Err(DecodeFault::UnknownVersion)
    } else if le_u16(bytes, 8) != FILE_HEADER_LEN || le_u16(bytes, 10) != CHUNK_HEADER_LEN {
        Err(DecodeFault::UnexpectedSize)
    } else {
        Ok(
            HeaderFields {
                block_size: le_u32(bytes, 12) as u32,
                blocks: le_u32(bytes, 16) as u32,
                chunks: le_u32(bytes, 20) as u32,
                checksum: le_u32(bytes, 24) as u32,
            },
        )
    }
}

/// Calls `android_sparse_image::FileHeader::from_bytes`.
///
/// Trusted: the decoder reads the magic number, the version and the two
/// declared sizes as little-endian numbers, in this order, and turns the
/// header down at the first that is not the one of the format; otherwise it
/// hands back the four 32-bit numbers that follow, read little-endian.
#[verifier::external_body]
fn decode_file_header(bytes: &[u8; 28]) -> (r: Result<HeaderFields, DecodeFault>)
    ensures
        r == decoded_file_header(bytes@),
{
    match FileHeader::from_bytes(bytes) {
        Ok(h) => Ok(
            HeaderFields {
                block_size: h.block_size,
                blocks: h.blocks,
                chunks: h.chunks,
                checksum: h.checksum,
            },
        ),
        Err(ParseError::UnknownMagic) => Err(DecodeFault::UnknownMagic),
        Err(ParseError::UnknownVersion) => Err(DecodeFault::UnknownVersion),
        Err(ParseError::UnexpectedSize) => Err(DecodeFault::UnexpectedSize),
        Err(ParseError::UnknownChunkType) => Err(DecodeFault::UnknownChunkType),
    }
}

/// The first `N` bytes of `bytes`, as an array.
fn leading<const N: usize>(bytes: &[u8]) -> (r: [u8; N])
    requires
        bytes@.len() >= N,
    ensures
        r@ == bytes@.subrange(0, N as int),
{
    let mut r = [0u8; N];
    let mut i: usize = 0;
    while i < N
        invariant
            i <= N <= bytes@.len(),
            r@.len() == N,
            forall|k: int| 0 <= k < i ==> r@[k] == bytes@[k],
        decreases N - i,
    {
        r[i] = bytes[i];
        i += 1;
    }
    assert(r@ =~= bytes@.subrange(0, N as int));
    r
}

/// Tells whether a source begins with the magic number of a sparse image.
pub fn starts_with_magic(bytes: &[u8]) -> (r: bool)
    ensures
        r == has_magic(bytes@),
{
    bytes.len() >= 4 && bytes[0] == 0x3a && bytes[1] == 0xff && bytes[2] == 0x26 && bytes[3]
        == 0xed
}

/// Reads the container header from the first bytes of a source.
///
/// A source that does not begin with the magic number is not a sparse image
/// (`NotThisFormat`), however short it is. One that does, and then is cut
/// short or declares another version or other header sizes, is corrupt.
pub fn parse_header(bytes: &[u8]) -> (r: Result<ImageHeader, FormatError>)
    ensures
        r == header_of(bytes@),
{
    if !starts_with_magic(bytes) {
        return Err(FormatError::NotThisFormat);
    }
    if bytes.len() < FILE_HEADER_LEN {
        return Err(FormatError::CorruptHeader);
    }
    let fixed: [u8; 28] = leading::<28>(bytes);
    match decode_file_header(&fixed) {
        Ok(f) => Ok(
            ImageHeader {
                magic: HEADER_MAGIC,
                major_version: MAJOR_VERSION,
                minor_version: MINOR_VERSION,
                header_size: 28,
                chunk_header_size: 12,
                block_size: f.block_size,
                total_blocks: f.blocks,
                total_chunks: f.chunks,
                checksum: f.checksum,
            },
        ),
        Err(DecodeFault::UnknownMagic) => Err(FormatError::NotThisFormat),
        Err(_) => Err(FormatError::CorruptHeader),
    }
}

/// What `android_sparse_image` makes of the 12 bytes of a chunk header.
spec fn decoded_chunk_header(bytes: Seq<u8>) -> Option<ChunkRecord> {
    match kind_of_code(le_u16(bytes, 0)) {
        Some(kind) => Some(
            ChunkRecord {
                kind,
                block_count: le_u32(bytes, 4) as u32,
                total_size: le_u32(bytes, 8) as u32,
            },
        ),
        None => None,
    }
}

/// Calls `android_sparse_image::ChunkHeader::from_bytes`.
///
/// Trusted: the decoder reads the kind as a little-endian 16-bit number and
/// turns the header down when it is none of the four kinds; it skips the two
/// reserved bytes and hands back the two 32-bit numbers that follow, read
/// little-endian.
#[verifier::external_body]
fn decode_chunk_header(bytes: &[u8; 12]) -> (r: Option<ChunkRecord>)
    ensures
        r == decoded_chunk_header(bytes@),
{
    let h = ChunkHeader::from_bytes(bytes).ok()?;
    let kind = match h.chunk_type {
        ChunkType::Raw => ChunkKind::Raw,
        ChunkType::Fill => ChunkKind::Fill,
        ChunkType::DontCare => ChunkKind::Skip,
        ChunkType::Crc32 => ChunkKind::Checksum,
    };
    Some(ChunkRecord { kind, block_count: h.chunk_size, total_size: h.total_size })
}

/// Reads one chunk header. The payload that follows it in the image is not
/// looked at.
///
/// Bytes that are fewer than a chunk header, or that name a kind of chunk
/// that does not exist, are corrupt. The sizes in the header are taken as
/// they stand.
pub fn parse_chunk(bytes: &[u8]) -> (r: Result<ChunkRecord, FormatError>)
    ensures
        r == chunk_of(bytes@),
{
    if bytes.len() < CHUNK_HEADER_LEN {
        return Err(FormatError::CorruptChunk);
    }
    let fixed: [u8; 12] = leading::<12>(bytes);
    match decode_chunk_header(&fixed) {
        Some(c) => Ok(c),
        None => Err(FormatError::CorruptChunk),
    }
}

/// Calls `android_sparse_image::FileHeader::to_bytes`.
///
/// Trusted: the encoder writes the magic number, version 1.0 and the two
/// header sizes of the format, then the four numbers it was given, each
/// little-endian.
#[verifier::external_body]
fn encode_file_header(block_size: u32, blocks: u32, chunks: u32, checksum: u32) -> (r: [u8; 28])
    ensures
        r@ == header_bytes(ImageHeader::standard(block_size, blocks, chunks, checksum)),
{
    FileHeader { block_size, blocks, chunks, checksum }.to_bytes()
}

/// Calls `android_sparse_image::ChunkHeader::to_bytes`.
///
/// Trusted: the encoder writes the number of the kind in 16 bits, two zero
/// bytes, then the block count and the total size, each little-endian.
#[verifier::external_body]
fn encode_chunk_header(c: ChunkRecord) -> (r: [u8; 12])
    ensures
        r@ == chunk_header_bytes(c),
{
    let chunk_type = match c.kind {
        ChunkKind::Raw => ChunkType::Raw,
        ChunkKind::Fill => ChunkType::Fill,
        ChunkKind::Skip => ChunkType::DontCare,
        ChunkKind::Checksum => ChunkType::Crc32,
    };
    ChunkHeader { chunk_type, chunk_size: c.block_count, total_size: c.total_size }.to_bytes()
}

impl ImageHeader {
    /// The header of this format with the given block size, block count,
    /// chunk count and checksum.
    pub open spec fn standard(block_size: u32, blocks: u32, chunks: u32, checksum: u32) -> Self {
        ImageHeader {
            magic: HEADER_MAGIC,
            major_version: MAJOR_VERSION,
            minor_version: MINOR_VERSION,
            header_size: FILE_HEADER_LEN as u16,
            chunk_header_size: CHUNK_HEADER_LEN as u16,
            block_size,
            total_blocks: blocks,
            total_chunks: chunks,
            checksum,
        }
    }

    /// Whether the magic number, the version and the declared header sizes
    /// are the ones of the format.
    pub open spec fn is_standard(self) -> bool {
        self == Self::standard(self.block_size, self.total_blocks, self.total_chunks, self.checksum)
    }

    /// Tells whether the magic number, the version and the declared header
    /// sizes are the ones of the format.
    pub fn follows_format(&self) -> (r: bool)
        ensures
            r == self.is_standard(),
    {
        self.magic == HEADER_MAGIC && self.major_version == MAJOR_VERSION && self.minor_version
            == MINOR_VERSION && self.header_size == 28 && self.chunk_header_size == 12
    }

    /// The header as it stands on disk. Read back, the bytes give the same
    /// header again.
    ///
    /// The header must be one of this format: no other can be written.
    pub fn to_bytes(&self) -> (r: [u8; 28])
        requires
            self.is_standard(),
        ensures
            r@ == header_bytes(*self),
            header_of(r@) == Ok::<ImageHeader, FormatError>(*self),
    {
        let r = encode_file_header(
            self.block_size,
            self.total_blocks,
            self.total_chunks,
            self.checksum,
        );
        proof {
            lemma_header_round_trip(*self);
        }
        r
    }
}

impl ChunkRecord {
    /// Bytes of payload that follow the chunk header in the image.
    pub open spec fn spec_payload_len(self) -> int {
        if self.total_size >= CHUNK_HEADER_LEN {
            self.total_size - CHUNK_HEADER_LEN
        } else {
            0
        }
    }

    /// Bytes of payload that follow the chunk header in the image: the total
    /// size less the header, and none where the total size is smaller than a
    /// header.
    pub fn payload_len(&self) -> (r: u32)
        ensures
            r == self.spec_payload_len(),
    {
        if self.total_size >= 12 {
            self.total_size - 12
        } else {
            0
        }
    }

    /// The chunk header as it stands on disk. Read back, the bytes give the
    /// same record again.
    pub fn to_bytes(&self) -> (r: [u8; 12])
        ensures
            r@ == chunk_header_bytes(*self),
            chunk_of(r@) == Ok::<ChunkRecord, FormatError>(*self),
    {
        let r = encode_chunk_header(*self);
        proof {
            lemma_chunk_round_trip(*self);
        }
        r
    }
}

/// Reading a 16-bit number back from its two bytes gives the number.
proof fn lemma_u16_le(x: u16)
    ensures
        u16_le(x).len() == 2,
        le_u16(u16_le(x), 0) == x,
{
}

/// Reading a 32-bit number back from its four bytes gives the number.
proof fn lemma_u32_le(x: u32)
    ensures
        u32_le(x).len() == 4,
        le_u32(u32_le(x), 0) == x,
{
}

/// A header of this format, written out and read back, is the same header.
pub proof fn lemma_header_round_trip(h: ImageHeader)
    requires
        h.is_standard(),
    ensures
        header_bytes(h).len() == FILE_HEADER_LEN,
        header_of(header_bytes(h)) == Ok::<ImageHeader, FormatError>(h),
{
    let b = header_bytes(h);
    lemma_u32_le(h.magic);
    lemma_u16_le(h.major_version);
    lemma_u16_le(h.minor_version);
    lemma_u16_le(h.header_size);
    lemma_u16_le(h.chunk_header_size);
    lemma_u32_le(h.block_size);
    lemma_u32_le(h.total_blocks);
    lemma_u32_le(h.total_chunks);
    lemma_u32_le(h.checksum);
    assert(b.len() == 28);
    assert(le_u32(b, 0) == le_u32(u32_le(h.magic), 0));
    assert(le_u16(b, 4) == le_u16(u16_le(h.major_version), 0));
    assert(le_u16(b, 6) == le_u16(u16_le(h.minor_version), 0));
    assert(le_u16(b, 8) == le_u16(u16_le(h.header_size), 0));
    assert(le_u16(b, 10) == le_u16(u16_le(h.chunk_header_size), 0));
    assert(le_u32(b, 12) == le_u32(u32_le(h.block_size), 0));
    assert(le_u32(b, 16) == le_u32(u32_le(h.total_blocks), 0));
    assert(le_u32(b, 20) == le_u32(u32_le(h.total_chunks), 0));
    assert(le_u32(b, 24) == le_u32(u32_le(h.checksum), 0));
}

/// A chunk header, written out and read back, is the same record.
pub proof fn lemma_chunk_round_trip(c: ChunkRecord)
    ensures
        chunk_header_bytes(c).len() == CHUNK_HEADER_LEN,
        chunk_of(chunk_header_bytes(c)) == Ok::<ChunkRecord, FormatError>(c),
{
    let b = chunk_header_bytes(c);
    lemma_u16_le(kind_code(c.kind) as u16);
    lemma_u16_le(0);
    lemma_u32_le(c.block_count);
    lemma_u32_le(c.total_size);
    assert(b.len() == 12);
    assert(le_u16(b, 0) == le_u16(u16_le(kind_code(c.kind) as u16), 0));
    assert(le_u32(b, 4) == le_u32(u32_le(c.block_count), 0));
    assert(le_u32(b, 8) == le_u32(u32_le(c.total_size), 0));
}

} // verus!
