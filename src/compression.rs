//! The chunk and block records of the compressed body, and the stage that
//! inflates them into the reconstructed package.

use vstd::prelude::*;

use miniz_oxide::inflate::decompress_to_vec_zlib;

use crate::archive::{
    cursor_ok, parse_bytes, parse_i32, parse_i64, parse_items, place, read_serializable,
    read_sized_serializable_array, views_of, FArchive, FByteArchive, SeekFrom, UESerializable,
};
use crate::{FormatError, UpkError};

verus! {

/// Where one chunk lies in the compressed file and in the reconstructed one.
#[derive(Debug, Clone, Copy, PartialEq, Eq, Structural)]
pub struct FCompressedChunk {
    pub uncompressed_offset: i32,
    pub uncompressed_size: i32,
    pub compressed_offset: i32,
    pub compressed_size: i32,
}

/// One zlib stream inside a chunk.
#[derive(Debug, Clone, Copy, PartialEq, Eq, Structural)]
pub struct FCompressedChunkBlock {
    pub compressed_size: i32,
    pub uncompressed_size: i32,
}

/// What precedes the block list of a chunk; `summary.uncompressed_size` is
/// the total that the blocks add up to.
#[derive(Debug, Clone, Copy, PartialEq, Eq, Structural)]
pub struct FCompressedChunkHeader {
    pub tag: i32,
    pub block_size: i32,
    pub summary: FCompressedChunkBlock,
}

/// An on-disk 64-bit offset narrowed to 32 bits, refused where it does not fit.
pub open spec fn narrow_offset(v: i64) -> Result<i32, UpkError> {
    if i32::MIN <= v <= i32::MAX {
        Ok(v as i32)
    } else {
        Err(UpkError::Format(FormatError::OffsetOutOfRange))
    }
}

/// A chunk record: 64-bit uncompressed offset, 32-bit size, 64-bit compressed
/// offset, 32-bit size.
pub open spec fn parse_chunk(b: Seq<u8>, p: int) -> Result<(FCompressedChunk, int), UpkError> {
    match parse_i64(b, p) {
        Err(e) => Err(e),
        Ok((uo, at1)) => match narrow_offset(uo) {
            Err(e) => Err(e),
            Ok(uncompressed_offset) => match parse_i32(b, at1) {
                Err(e) => Err(e),
                Ok((uncompressed_size, at2)) => match parse_i64(b, at2) {
                    Err(e) => Err(e),
                    Ok((co, at3)) => match narrow_offset(co) {
                        Err(e) => Err(e),
                        Ok(compressed_offset) => match parse_i32(b, at3) {
                            Err(e) => Err(e),
                            Ok((compressed_size, at4)) => Ok(
                                (
                                    FCompressedChunk {
                                        uncompressed_offset,
                                        uncompressed_size,
                                        compressed_offset,
                                        compressed_size,
                                    },
                                    at4,
                                ),
                            ),
                        },
                    },
                },
            },
        },
    }
}

/// A block record: compressed size, then uncompressed size.
pub open spec fn parse_block(b: Seq<u8>, p: int) -> Result<(FCompressedChunkBlock, int), UpkError> {
    match parse_i32(b, p) {
        Err(e) => Err(e),
        Ok((compressed_size, at1)) => match parse_i32(b, at1) {
            Err(e) => Err(e),
            Ok((uncompressed_size, at2)) => Ok(
                (FCompressedChunkBlock { compressed_size, uncompressed_size }, at2),
            ),
        },
    }
}

/// A chunk header: tag, block size, then the summary block.
pub open spec fn parse_chunk_header(b: Seq<u8>, p: int) -> Result<
    (FCompressedChunkHeader, int),
    UpkError,
> {
    match parse_i32(b, p) {
        Err(e) => Err(e),
        Ok((tag, at1)) => match parse_i32(b, at1) {
            Err(e) => Err(e),
            Ok((block_size, at2)) => match parse_block(b, at2) {
                Err(e) => Err(e),
                Ok((summary, at3)) => Ok((FCompressedChunkHeader { tag, block_size, summary }, at3)),
            },
        },
    }
}

impl View for FCompressedChunk {
    type V = FCompressedChunk;

    open spec fn view(&self) -> FCompressedChunk {
        *self
    }
}

impl View for FCompressedChunkBlock {
    type V = FCompressedChunkBlock;

    open spec fn view(&self) -> FCompressedChunkBlock {
        *self
    }
}

impl View for FCompressedChunkHeader {
    type V = FCompressedChunkHeader;

    open spec fn view(&self) -> FCompressedChunkHeader {
        *self
    }
}

impl Default for FCompressedChunk {
    fn default() -> (r: Self)
        ensures
            r == (FCompressedChunk {
                uncompressed_offset: 0,
                uncompressed_size: 0,
                compressed_offset: 0,
                compressed_size: 0,
            }),
    {
        FCompressedChunk {
            uncompressed_offset: 0,
            uncompressed_size: 0,
            compressed_offset: 0,
            compressed_size: 0,
        }
    }
}

impl Default for FCompressedChunkBlock {
    fn default() -> (r: Self)
        ensures
            r == (FCompressedChunkBlock { compressed_size: 0, uncompressed_size: 0 }),
    {
        FCompressedChunkBlock { compressed_size: 0, uncompressed_size: 0 }
    }
}

impl Default for FCompressedChunkHeader {
    fn default() -> (r: Self)
        ensures
            r == (FCompressedChunkHeader {
                tag: 0,
                block_size: 0,
                summary: FCompressedChunkBlock { compressed_size: 0, uncompressed_size: 0 },
            }),
    {
        FCompressedChunkHeader {
            tag: 0,
            block_size: 0,
            summary: FCompressedChunkBlock { compressed_size: 0, uncompressed_size: 0 },
        }
    }
}

fn narrow(v: i64) -> (r: Result<i32, UpkError>)
    ensures
        r == narrow_offset(v),
{
    if v < i32::MIN as i64 || v > i32::MAX as i64 {
        Err(UpkError::Format(FormatError::OffsetOutOfRange))
    } else {
        Ok(v as i32)
    }
}

impl UESerializable for FCompressedChunk {
    open spec fn parse(b: Seq<u8>, p: int) -> Result<(FCompressedChunk, int), UpkError> {
        parse_chunk(b, p)
    }

    fn serialize<Ar: FArchive>(item: &mut FCompressedChunk, archive: &mut Ar) -> (r: Result<
        (),
        UpkError,
    >) {
        let uo = match archive.read_i64() {
            Ok(v) => v,
            Err(e) => {
                return Err(e);
            },
        };
        item.uncompressed_offset = match narrow(uo) {
            Ok(v) => v,
            Err(e) => {
                return Err(e);
            },
        };
        item.uncompressed_size = match archive.read_i32() {
            Ok(v) => v,
            Err(e) => {
                return Err(e);
            },
        };
        let co = match archive.read_i64() {
            Ok(v) => v,
            Err(e) => {
                return Err(e);
            },
        };
        item.compressed_offset = match narrow(co) {
            Ok(v) => v,
            Err(e) => {
                return Err(e);
            },
        };
        item.compressed_size = match archive.read_i32() {
            Ok(v) => v,
            Err(e) => {
                return Err(e);
            },
        };
        Ok(())
    }
}

impl UESerializable for FCompressedChunkBlock {
    open spec fn parse(b: Seq<u8>, p: int) -> Result<(FCompressedChunkBlock, int), UpkError> {
        parse_block(b, p)
    }

    fn serialize<Ar: FArchive>(item: &mut FCompressedChunkBlock, archive: &mut Ar) -> (r: Result<
        (),
        UpkError,
    >) {
        item.compressed_size = match archive.read_i32() {
            Ok(v) => v,
            Err(e) => {
                return Err(e);
            },
        };
        item.uncompressed_size = match archive.read_i32() {
            Ok(v) => v,
            Err(e) => {
                return Err(e);
            },
        };
        Ok(())
    }
}

impl UESerializable for FCompressedChunkHeader {
    open spec fn parse(b: Seq<u8>, p: int) -> Result<(FCompressedChunkHeader, int), UpkError> {
        parse_chunk_header(b, p)
    }

    fn serialize<Ar: FArchive>(item: &mut FCompressedChunkHeader, archive: &mut Ar) -> (r: Result<
        (),
        UpkError,
    >) {
        item.tag = match archive.read_i32() {
            Ok(v) => v,
            Err(e) => {
                return Err(e);
            },
        };
        item.block_size = match archive.read_i32() {
            Ok(v) => v,
            Err(e) => {
                return Err(e);
            },
        };
        FCompressedChunkBlock::serialize(&mut item.summary, archive)
    }
}

/// The largest chunk count a chunk table may declare.
pub const MAX_CHUNK_COUNT: i32 = 100;

/// What inflating the zlib stream `data` gives, if it is valid.
pub uninterp spec fn zlib_inflated(data: Seq<u8>) -> Option<Seq<u8>>;

/// Relies on `miniz_oxide::inflate::decompress_to_vec_zlib`: the inflated
/// bytes of a zlib stream, which depend on the stream alone, or an error.
#[verifier::external_body]
fn inflate_zlib(data: &[u8]) -> (r: Option<Vec<u8>>)
    requires
        data@.len() > 0,
    ensures
        match r {
            Some(v) => zlib_inflated(data@) == Some(v@),
            None => zlib_inflated(data@) is None,
        },
{
    decompress_to_vec_zlib(data).ok()
}

/// The block list of a chunk whose blocks add up to `remaining` uncompressed
/// bytes: blocks are read until the running total reaches it. A negative
/// total, a block of no bytes, or one that overshoots the total is refused.
pub open spec fn parse_blocks(b: Seq<u8>, p: int, remaining: int) -> Result<
    (Seq<FCompressedChunkBlock>, int),
    UpkError,
>
    decreases remaining,
{
    if remaining < 0 {
        Err(UpkError::Format(FormatError::NegativeSize))
    } else if remaining == 0 {
        Ok((Seq::empty(), p))
    } else {
        match parse_block(b, p) {
            Err(e) => Err(e),
            Ok((blk, q)) => if blk.uncompressed_size <= 0 {
                Err(UpkError::Format(FormatError::EmptyBlock))
            } else if blk.uncompressed_size > remaining {
                Err(UpkError::Format(FormatError::BlockListOverrun))
            } else {
                match parse_blocks(b, q, remaining - blk.uncompressed_size) {
                    Err(e) => Err(e),
                    Ok((rest, r)) => Ok((seq![blk] + rest, r)),
                }
            },
        }
    }
}

/// `acc` put before the blocks of a successful read.
pub open spec fn blocks_after(
    acc: Seq<FCompressedChunkBlock>,
    res: Result<(Seq<FCompressedChunkBlock>, int), UpkError>,
) -> Result<(Seq<FCompressedChunkBlock>, int), UpkError> {
    match res {
        Ok((s, r)) => Ok((acc + s, r)),
        Err(e) => Err(e),
    }
}

/// The total uncompressed size of a block list.
pub open spec fn uncompressed_total(blocks: Seq<FCompressedChunkBlock>) -> int
    decreases blocks.len(),
{
    if blocks.len() == 0 {
        0
    } else {
        blocks[0].uncompressed_size + uncompressed_total(blocks.drop_first())
    }
}

/// The payloads of `blocks`, packed one after another from `p`, each
/// inflated, and joined; the position after the last payload.
pub open spec fn inflate_blocks(b: Seq<u8>, p: int, blocks: Seq<FCompressedChunkBlock>) -> Result<
    (Seq<u8>, int),
    UpkError,
>
    decreases blocks.len(),
{
    if blocks.len() == 0 {
        Ok((Seq::empty(), p))
    } else {
        match inflate_blocks(b, p, blocks.drop_last()) {
            Err(e) => Err(e),
            Ok((data, q)) => match inflate_one(b, q, blocks.last()) {
                Err(e) => Err(e),
                Ok((out, r)) => Ok((data + out, r)),
            },
        }
    }
}

/// The payload of one block at `p`, inflated.
pub open spec fn inflate_one(b: Seq<u8>, p: int, blk: FCompressedChunkBlock) -> Result<
    (Seq<u8>, int),
    UpkError,
> {
    if blk.compressed_size < 0 {
        Err(UpkError::Format(FormatError::InvalidArraySize))
    } else {
        match parse_bytes(b, p, blk.compressed_size as int) {
            Err(e) => Err(e),
            Ok((payload, r)) => if payload.len() == 0 {
                Err(UpkError::Format(FormatError::InflateFailed))
            } else {
                match zlib_inflated(payload) {
                    None => Err(UpkError::Format(FormatError::InflateFailed)),
                    Some(out) => Ok((out, r)),
                }
            },
        }
    }
}

/// The inflated bytes of one chunk: its header at the compressed offset, its
/// block list, then the block payloads.
pub open spec fn chunk_data(b: Seq<u8>, chunk: FCompressedChunk) -> Result<Seq<u8>, UpkError> {
    if chunk.compressed_offset < 0 {
        Err(UpkError::Format(FormatError::OffsetOutOfRange))
    } else if chunk.compressed_offset > b.len() {
        Err(UpkError::Io)
    } else {
        match parse_chunk_header(b, chunk.compressed_offset as int) {
            Err(e) => Err(e),
            Ok((header, at1)) => match parse_blocks(b, at1, header.summary.uncompressed_size as int) {
                Err(e) => Err(e),
                Ok((blocks, at2)) => match inflate_blocks(b, at2, blocks) {
                    Err(e) => Err(e),
                    Ok((data, _)) => Ok(data),
                },
            },
        }
    }
}

/// `out` with one chunk's inflated bytes placed at its uncompressed offset.
pub open spec fn apply_chunk(b: Seq<u8>, out: Seq<u8>, chunk: FCompressedChunk) -> Result<
    Seq<u8>,
    UpkError,
> {
    match chunk_data(b, chunk) {
        Err(e) => Err(e),
        Ok(data) => if chunk.uncompressed_offset < 0 {
            Err(UpkError::Format(FormatError::OffsetOutOfRange))
        } else if chunk.uncompressed_offset + data.len() > usize::MAX {
            Err(UpkError::Io)
        } else {
            Ok(place(out, chunk.uncompressed_offset as int, data))
        },
    }
}

/// `out` with every chunk applied in table order.
pub open spec fn decompress_chunks(b: Seq<u8>, out: Seq<u8>, chunks: Seq<FCompressedChunk>) -> Result<
    Seq<u8>,
    UpkError,
>
    decreases chunks.len(),
{
    if chunks.len() == 0 {
        Ok(out)
    } else {
        match decompress_chunks(b, out, chunks.drop_last()) {
            Err(e) => Err(e),
            Ok(o) => apply_chunk(b, o, chunks.last()),
        }
    }
}

/// The chunk table at `p`: a count in `[0, 100]`, then that many chunk records.
pub open spec fn parse_chunk_table(b: Seq<u8>, p: int) -> Result<
    (Seq<FCompressedChunk>, int),
    UpkError,
> {
    match parse_i32(b, p) {
        Err(e) => Err(e),
        Ok((n, q)) => if n < 0 || n > MAX_CHUNK_COUNT {
            Err(UpkError::Format(FormatError::ChunkCountOutOfRange))
        } else {
            parse_items::<FCompressedChunk>(b, q, n as int)
        },
    }
}

/// The blocks of a chunk's block list add up exactly to the uncompressed
/// size its header declares.
pub proof fn lemma_block_sizes_add_up(b: Seq<u8>, p: int, total: int)
    ensures
        parse_blocks(b, p, total) matches Ok((blocks, _)) ==> uncompressed_total(blocks) == total,
    decreases total,
{
    if total > 0 {
        match parse_block(b, p) {
            Ok((blk, q)) => {
                if 0 < blk.uncompressed_size <= total {
                    lemma_block_sizes_add_up(b, q, total - blk.uncompressed_size);
                    match parse_blocks(b, q, total - blk.uncompressed_size) {
                        Ok((rest, _)) => {
                            assert((seq![blk] + rest).drop_first() =~= rest);
                        },
                        Err(_) => {},
                    }
                }
            },
            Err(_) => {},
        }
    }
}

proof fn lemma_inflate_failure_sticks(b: Seq<u8>, p: int, blocks: Seq<FCompressedChunkBlock>, i: int)
    requires
        0 < i <= blocks.len(),
        inflate_blocks(b, p, blocks.subrange(0, i)) is Err,
    ensures
        inflate_blocks(b, p, blocks) == inflate_blocks(b, p, blocks.subrange(0, i)),
    decreases blocks.len() - i,
{
    if i < blocks.len() {
        let next = blocks.subrange(0, i + 1);
        assert(next.drop_last() =~= blocks.subrange(0, i));
        assert(inflate_blocks(b, p, next) == inflate_blocks(b, p, blocks.subrange(0, i)));
        lemma_inflate_failure_sticks(b, p, blocks, i + 1);
    } else {
        assert(blocks.subrange(0, i) =~= blocks);
    }
}

proof fn lemma_chunks_failure_sticks(b: Seq<u8>, out: Seq<u8>, chunks: Seq<FCompressedChunk>, i: int)
    requires
        0 < i <= chunks.len(),
        decompress_chunks(b, out, chunks.subrange(0, i)) is Err,
    ensures
        decompress_chunks(b, out, chunks) == decompress_chunks(b, out, chunks.subrange(0, i)),
    decreases chunks.len() - i,
{
    if i < chunks.len() {
        let next = chunks.subrange(0, i + 1);
        assert(next.drop_last() =~= chunks.subrange(0, i));
        assert(decompress_chunks(b, out, next) == decompress_chunks(b, out, chunks.subrange(0, i)));
        lemma_chunks_failure_sticks(b, out, chunks, i + 1);
    } else {
        assert(chunks.subrange(0, i) =~= chunks);
    }
}

/// Reads the block list that follows a chunk header.
fn read_block_list<Ar: FArchive>(archive: &mut Ar, total: i32) -> (r: Result<
    Vec<FCompressedChunkBlock>,
    UpkError,
>)
    requires
        cursor_ok(old(archive).bytes(), old(archive).pos()),
    ensures
        cursor_ok(final(archive).bytes(), final(archive).pos()),
        final(archive).bytes() == old(archive).bytes(),
        match parse_blocks(old(archive).bytes(), old(archive).pos(), total as int) {
            Ok((s, q)) => r matches Ok(v) && v@ == s && final(archive).pos() == q,
            Err(e) => r == Err::<Vec<FCompressedChunkBlock>, UpkError>(e),
        },
{
    if total < 0 {
        return Err(UpkError::Format(FormatError::NegativeSize));
    }
    let ghost b = archive.bytes();
    let ghost p = archive.pos();
    let mut blocks: Vec<FCompressedChunkBlock> = Vec::new();
    let mut sum: i64 = 0;
    assert(blocks@ + Seq::<FCompressedChunkBlock>::empty() =~= blocks@);
    while sum < total as i64
        invariant
            0 <= sum <= total,
            cursor_ok(archive.bytes(), archive.pos()),
            archive.bytes() == b,
            b == old(archive).bytes(),
            p == old(archive).pos(),
            parse_blocks(b, p, total as int) == blocks_after(
                blocks@,
                parse_blocks(b, archive.pos(), total - sum),
            ),
        decreases total - sum,
    {
        let ghost acc = blocks@;
        let ghost pos = archive.pos();
        let block: FCompressedChunkBlock = match read_serializable(archive) {
            Ok(v) => v,
            Err(e) => {
                return Err(e);
            },
        };
        if block.uncompressed_size <= 0 {
            return Err(UpkError::Format(FormatError::EmptyBlock));
        }
        if block.uncompressed_size as i64 > total as i64 - sum {
            return Err(UpkError::Format(FormatError::BlockListOverrun));
        }
        sum = sum + block.uncompressed_size as i64;
        blocks.push(block);
        proof {
            let rest = parse_blocks(b, archive.pos(), total - sum);
            match rest {
                Ok((s, r)) => {
                    assert(acc + (seq![block] + s) =~= blocks@ + s);
                },
                Err(_) => {},
            }
        }
    }
    assert(blocks@ + Seq::<FCompressedChunkBlock>::empty() =~= blocks@);
    Ok(blocks)
}

/// Reads each block's payload in turn and joins what they inflate to.
fn inflate_block_list<Ar: FArchive>(archive: &mut Ar, blocks: &Vec<FCompressedChunkBlock>) -> (r:
    Result<Vec<u8>, UpkError>)
    requires
        cursor_ok(old(archive).bytes(), old(archive).pos()),
    ensures
        cursor_ok(final(archive).bytes(), final(archive).pos()),
        final(archive).bytes() == old(archive).bytes(),
        match inflate_blocks(old(archive).bytes(), old(archive).pos(), blocks@) {
            Ok((data, q)) => r matches Ok(v) && v@ == data && final(archive).pos() == q,
            Err(e) => r == Err::<Vec<u8>, UpkError>(e),
        },
{
    let ghost b = archive.bytes();
    let ghost p = archive.pos();
    let mut data: Vec<u8> = Vec::new();
    let mut i: usize = 0;
    assert(blocks@.subrange(0, 0) =~= Seq::<FCompressedChunkBlock>::empty());
    while i < blocks.len()
        invariant
            0 <= i <= blocks@.len(),
            cursor_ok(archive.bytes(), archive.pos()),
            archive.bytes() == b,
            b == old(archive).bytes(),
            p == old(archive).pos(),
            inflate_blocks(b, p, blocks@.subrange(0, i as int)) == Ok::<(Seq<u8>, int), UpkError>(
                (data@, archive.pos()),
            ),
        decreases blocks@.len() - i,
    {
        let ghost prefix = blocks@.subrange(0, i as int + 1);
        assert(prefix.drop_last() =~= blocks@.subrange(0, i as int));
        assert(prefix.last() == blocks@[i as int]);
        let block = blocks[i];
        if block.compressed_size < 0 {
            proof {
                lemma_inflate_failure_sticks(b, p, blocks@, i + 1);
            }
            return Err(UpkError::Format(FormatError::InvalidArraySize));
        }
        let mut compressed: Vec<u8> = vec![0u8; block.compressed_size as usize];
        match archive.read_bytes_vec(&mut compressed) {
            Ok(()) => {},
            Err(e) => {
                proof {
                    lemma_inflate_failure_sticks(b, p, blocks@, i + 1);
                }
                return Err(e);
            },
        }
        if compressed.len() == 0 {
            proof {
                lemma_inflate_failure_sticks(b, p, blocks@, i + 1);
            }
            return Err(UpkError::Format(FormatError::InflateFailed));
        }
        let mut inflated = match inflate_zlib(compressed.as_slice()) {
            Some(v) => v,
            None => {
                proof {
                    lemma_inflate_failure_sticks(b, p, blocks@, i + 1);
                }
                return Err(UpkError::Format(FormatError::InflateFailed));
            },
        };
        data.append(&mut inflated);
        i = i + 1;
    }
    assert(blocks@.subrange(0, blocks@.len() as int) =~= blocks@);
    Ok(data)
}

/// Reads and inflates one chunk.
fn read_chunk_data<Ar: FArchive>(archive: &mut Ar, chunk: &FCompressedChunk) -> (r: Result<
    Vec<u8>,
    UpkError,
>)
    requires
        cursor_ok(old(archive).bytes(), old(archive).pos()),
    ensures
        cursor_ok(final(archive).bytes(), final(archive).pos()),
        final(archive).bytes() == old(archive).bytes(),
        match chunk_data(old(archive).bytes(), *chunk) {
            Ok(data) => r matches Ok(v) && v@ == data,
            Err(e) => r == Err::<Vec<u8>, UpkError>(e),
        },
{
    if chunk.compressed_offset < 0 {
        return Err(UpkError::Format(FormatError::OffsetOutOfRange));
    }
    match archive.seek(SeekFrom::Start(chunk.compressed_offset as u64)) {
        Ok(_) => {},
        Err(e) => {
            return Err(e);
        },
    }
    let header: FCompressedChunkHeader = match read_serializable(archive) {
        Ok(v) => v,
        Err(e) => {
            return Err(e);
        },
    };
    let blocks = match read_block_list(archive, header.summary.uncompressed_size) {
        Ok(v) => v,
        Err(e) => {
            return Err(e);
        },
    };
    inflate_block_list(archive, &blocks)
}

/// Places `data` at `offset` in the output, first growing it with zeros
/// where the offset lies past its end.
pub fn write_at(output: &mut FByteArchive, offset: usize, data: &Vec<u8>) -> (r: Result<(), UpkError>)
    requires
        cursor_ok(old(output).bytes(), old(output).pos()),
        offset + data@.len() <= usize::MAX,
    ensures
        cursor_ok(final(output).bytes(), final(output).pos()),
        r is Ok,
        final(output).bytes() == place(old(output).bytes(), offset as int, data@),
{
    let ghost before = output.bytes();
    let len = output.len();
    if offset > len {
        let gap_len: usize = offset - len;
        let gap: Vec<u8> = vec![0u8; gap_len];
        let _ = output.seek(SeekFrom::Start(len as u64));
        let _ = output.write_all(gap.as_slice());
        assert(output.bytes() =~= place(before, len as int, gap@));
    }
    let _ = output.seek(SeekFrom::Start(offset as u64));
    let _ = output.write_all(data.as_slice());
    assert(output.bytes() =~= place(before, offset as int, data@));
    Ok(())
}

/// Inflates every chunk of the table into the output, each at its
/// uncompressed offset, in table order.
pub fn decompress<Ar: FArchive>(
    archive: &mut Ar,
    output: &mut FByteArchive,
    compressed_chunks: &Vec<FCompressedChunk>,
) -> (r: Result<(), UpkError>)
    requires
        cursor_ok(old(archive).bytes(), old(archive).pos()),
        cursor_ok(old(output).bytes(), old(output).pos()),
    ensures
        cursor_ok(final(archive).bytes(), final(archive).pos()),
        cursor_ok(final(output).bytes(), final(output).pos()),
        final(archive).bytes() == old(archive).bytes(),
        compressed_chunks@.len() == 0 ==> r is Ok && final(archive).pos() == old(archive).pos()
            && final(output).pos() == old(output).pos(),
        match decompress_chunks(old(archive).bytes(), old(output).bytes(), compressed_chunks@) {
            Ok(out) => r is Ok && final(output).bytes() == out,
            Err(e) => r == Err::<(), UpkError>(e),
        },
{
    let ghost b = archive.bytes();
    let ghost out0 = output.bytes();
    let mut i: usize = 0;
    assert(compressed_chunks@.subrange(0, 0) =~= Seq::<FCompressedChunk>::empty());
    while i < compressed_chunks.len()
        invariant
            0 <= i <= compressed_chunks@.len(),
            cursor_ok(archive.bytes(), archive.pos()),
            cursor_ok(output.bytes(), output.pos()),
            archive.bytes() == b,
            b == old(archive).bytes(),
            out0 == old(output).bytes(),
            i == 0 ==> archive.pos() == old(archive).pos() && output.pos() == old(output).pos(),
            decompress_chunks(b, out0, compressed_chunks@.subrange(0, i as int)) == Ok::<
                Seq<u8>,
                UpkError,
            >(output.bytes()),
        decreases compressed_chunks@.len() - i,
    {
        let ghost prefix = compressed_chunks@.subrange(0, i as int + 1);
        assert(prefix.drop_last() =~= compressed_chunks@.subrange(0, i as int));
        assert(prefix.last() == compressed_chunks@[i as int]);
        let chunk = &compressed_chunks[i];
        let data = match read_chunk_data(archive, chunk) {
            Ok(v) => v,
            Err(e) => {
                proof {
                    lemma_chunks_failure_sticks(b, out0, compressed_chunks@, i + 1);
                }
                return Err(e);
            },
        };
        if chunk.uncompressed_offset < 0 {
            proof {
                lemma_chunks_failure_sticks(b, out0, compressed_chunks@, i + 1);
            }
            return Err(UpkError::Format(FormatError::OffsetOutOfRange));
        }
        if data.len() > usize::MAX - chunk.uncompressed_offset as usize {
            proof {
                lemma_chunks_failure_sticks(b, out0, compressed_chunks@, i + 1);
            }
            return Err(UpkError::Io);
        }
        let _ = write_at(output, chunk.uncompressed_offset as usize, &data);
        i = i + 1;
    }
    assert(compressed_chunks@.subrange(0, compressed_chunks@.len() as int) =~= compressed_chunks@);
    Ok(())
}

/// Reads the chunk table at the cursor: a count, refused outside `[0, 100]`
/// before anything is allocated for it, then that many chunk records.
pub fn read_chunk_table<Ar: FArchive>(archive: &mut Ar) -> (r: Result<
    Vec<FCompressedChunk>,
    UpkError,
>)
    requires
        cursor_ok(old(archive).bytes(), old(archive).pos()),
    ensures
        cursor_ok(final(archive).bytes(), final(archive).pos()),
        final(archive).bytes() == old(archive).bytes(),
        match parse_chunk_table(old(archive).bytes(), old(archive).pos()) {
            Ok((s, q)) => r matches Ok(v) && v@ == s && final(archive).pos() == q,
            Err(e) => r == Err::<Vec<FCompressedChunk>, UpkError>(e),
        },
        r matches Ok(v) ==> v@.len() <= MAX_CHUNK_COUNT,
{
    let count = match archive.read_i32() {
        Ok(v) => v,
        Err(e) => {
            return Err(e);
        },
    };
    if count < 0 || count > MAX_CHUNK_COUNT {
        return Err(UpkError::Format(FormatError::ChunkCountOutOfRange));
    }
    let chunks: Vec<FCompressedChunk> = match read_sized_serializable_array(archive, count) {
        Ok(v) => v,
        Err(e) => {
            return Err(e);
        },
    };
    proof {
        lemma_views_of_identity(chunks@);
        lemma_parse_items_len::<FCompressedChunk>(
            old(archive).bytes(),
            old(archive).pos() + 4,
            count as int,
        );
    }
    Ok(chunks)
}

/// Chunk records are their own view.
proof fn lemma_views_of_identity(s: Seq<FCompressedChunk>)
    ensures
        views_of(s) == s,
{
    assert(views_of(s) =~= s);
}

/// Reading `n >= 0` records gives exactly `n` of them.
proof fn lemma_parse_items_len<T: UESerializable>(b: Seq<u8>, p: int, n: int)
    requires
        n >= 0,
    ensures
        parse_items::<T>(b, p, n) matches Ok((s, _)) ==> s.len() == n,
    decreases n,
{
    if n > 0 {
        lemma_parse_items_len::<T>(b, p, n - 1);
    }
}

} // verus!
