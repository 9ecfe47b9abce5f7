//! The package header and the records it is made of.

use vstd::prelude::*;

use crate::archive::{
    cursor_ok, parse_array, parse_fstring, parse_guid, parse_i32, parse_u16, parse_u32, place,
    read_array, read_serializable_array, views_of, FArchive, FByteArchive, SeekFrom, UESerializable,
};
use crate::compression::{
    decompress, decompress_chunks, parse_chunk_table, read_chunk_table, FCompressedChunk,
};
use crate::encryption::{decrypt_with_keys, decrypted_with_keys, region_of, FAesKey};
use crate::{FormatError, UpkError};

verus! {

/// The first word of every package.
pub const PACKAGE_MAGIC: u32 = 0x9E2A83C1;

/// Package flag: the package is cooked.
pub const PKG_COOKED: u32 = 0x00000008;

/// Package flag: the package body is stored compressed.
pub const PKG_STORE_COMPRESSED: u32 = 0x02000000;

pub const COMPRESS_NONE: u32 = 0x00;

pub const COMPRESS_ZLIB: u32 = 0x01;

pub const COMPRESS_GZIP: u32 = 0x02;

/// How the package body is compressed.
#[derive(Debug, Clone, Copy, PartialEq, Eq, Structural)]
pub enum ECompressionFlags {
    NoCompression,
    Zlib,
    Gzip,
}

/// The on-disk flag word decoded; a value that is not recognised reads as
/// `NoCompression`.
pub open spec fn compression_flags_of(v: u32) -> ECompressionFlags {
    if v == COMPRESS_ZLIB {
        ECompressionFlags::Zlib
    } else if v == COMPRESS_GZIP {
        ECompressionFlags::Gzip
    } else {
        ECompressionFlags::NoCompression
    }
}

impl Default for ECompressionFlags {
    fn default() -> (r: Self)
        ensures
            r == ECompressionFlags::NoCompression,
    {
        ECompressionFlags::NoCompression
    }
}

impl From<u32> for ECompressionFlags {
    fn from(val: u32) -> (r: Self) {
        if val == COMPRESS_ZLIB {
            ECompressionFlags::Zlib
        } else if val == COMPRESS_GZIP {
            ECompressionFlags::Gzip
        } else {
            ECompressionFlags::NoCompression
        }
    }
}

impl vstd::std_specs::convert::FromSpecImpl<u32> for ECompressionFlags {
    open spec fn obeys_from_spec() -> bool {
        true
    }

    open spec fn from_spec(v: u32) -> ECompressionFlags {
        compression_flags_of(v)
    }
}

/// A 128-bit identifier stored as four unsigned 32-bit words.
#[derive(Debug, Clone, Copy, PartialEq, Eq, Structural)]
pub struct FGuid {
    pub a: u32,
    pub b: u32,
    pub c: u32,
    pub d: u32,
}

/// The counts of one generation the package has passed through.
#[derive(Debug, Clone, Copy, PartialEq, Eq, Structural)]
pub struct FGenerationInfo {
    pub export_count: i32,
    pub name_count: i32,
    pub net_object_count: i32,
}

impl View for FGenerationInfo {
    type V = FGenerationInfo;

    open spec fn view(&self) -> FGenerationInfo {
        *self
    }
}

impl Default for FGenerationInfo {
    fn default() -> (r: Self)
        ensures
            r == (FGenerationInfo { export_count: 0, name_count: 0, net_object_count: 0 }),
    {
        FGenerationInfo { export_count: 0, name_count: 0, net_object_count: 0 }
    }
}

/// Three signed 32-bit counts: exports, names, net objects.
pub open spec fn parse_generation(b: Seq<u8>, p: int) -> Result<(FGenerationInfo, int), UpkError> {
    match parse_i32(b, p) {
        Err(e) => Err(e),
        Ok((export_count, at1)) => match parse_i32(b, at1) {
            Err(e) => Err(e),
            Ok((name_count, at2)) => match parse_i32(b, at2) {
                Err(e) => Err(e),
                Ok((net_object_count, at3)) => Ok(
                    (FGenerationInfo { export_count, name_count, net_object_count }, at3),
                ),
            },
        },
    }
}

impl UESerializable for FGenerationInfo {
    open spec fn parse(b: Seq<u8>, p: int) -> Result<(FGenerationInfo, int), UpkError> {
        parse_generation(b, p)
    }

    fn serialize<Ar: FArchive>(item: &mut FGenerationInfo, archive: &mut Ar) -> (r: Result<
        (),
        UpkError,
    >) {
        item.export_count = match archive.read_i32() {
            Ok(v) => v,
            Err(e) => {
                return Err(e);
            },
        };
        item.name_count = match archive.read_i32() {
            Ok(v) => v,
            Err(e) => {
                return Err(e);
            },
        };
        item.net_object_count = match archive.read_i32() {
            Ok(v) => v,
            Err(e) => {
                return Err(e);
            },
        };
        Ok(())
    }
}

/// `n` bytes passed over, whatever they hold.
pub open spec fn parse_skip(b: Seq<u8>, p: int, n: int) -> Result<int, UpkError> {
    if 0 <= p && 0 <= n && p + n <= b.len() {
        Ok(p + n)
    } else {
        Err(UpkError::Io)
    }
}

/// `n` records of a kind that is passed over: 20 bytes, then a
/// length-prefixed array of signed 32-bit integers.
pub open spec fn parse_skip_unknown_structs(b: Seq<u8>, p: int, n: int) -> Result<int, UpkError>
    decreases n,
{
    if n <= 0 {
        Ok(p)
    } else {
        match parse_skip_unknown_structs(b, p, n - 1) {
            Err(e) => Err(e),
            Ok(q) => match parse_skip(b, q, 20) {
                Err(e) => Err(e),
                Ok(q1) => match parse_array::<i32>(b, q1) {
                    Err(e) => Err(e),
                    Ok((_, r)) => Ok(r),
                },
            },
        }
    }
}

/// What a package header holds, as plain values.
pub struct SummaryModel {
    pub magic: u32,
    pub file_version: u16,
    pub licensee_version: u16,
    pub header_size: i32,
    pub package_group: Seq<char>,
    pub package_flags: u32,
    pub name_count: i32,
    pub name_offset: i32,
    pub export_count: i32,
    pub export_offset: i32,
    pub import_count: i32,
    pub import_offset: i32,
    pub depends_offset: i32,
    pub guid: FGuid,
    pub generations: Seq<FGenerationInfo>,
    pub engine_version: i32,
    pub cooker_version: i32,
    pub compression_flags: ECompressionFlags,
    pub compressed_chunks: Seq<FCompressedChunk>,
    pub additional_packages_to_cook: Seq<Seq<char>>,
    pub unknown_structs: i32,
    pub garbage_size: i32,
    pub compression_chunkinfo_offset: i32,
    pub last_block_size: i32,
}

/// The package header read from `b` at `p`, field after field, and the
/// position after it. Each line below reads one field and passes an error on.
#[verifier::opaque]
pub open spec fn parse_summary(b: Seq<u8>, p: int) -> Result<(SummaryModel, int), UpkError> {
    match parse_u32(b, p) { Err(e) => Err(e), Ok((magic, at1)) =>
    if magic != PACKAGE_MAGIC { Err(UpkError::Format(FormatError::BadMagic)) } else {
    match parse_u16(b, at1) { Err(e) => Err(e), Ok((file_version, at2)) =>
    match parse_u16(b, at2) { Err(e) => Err(e), Ok((licensee_version, at3)) =>
    match parse_i32(b, at3) { Err(e) => Err(e), Ok((header_size, at4)) =>
    match parse_fstring(b, at4) { Err(e) => Err(e), Ok((package_group, at5)) =>
    match parse_u32(b, at5) { Err(e) => Err(e), Ok((package_flags, at6)) =>
    match parse_i32(b, at6) { Err(e) => Err(e), Ok((name_count, at7)) =>
    match parse_i32(b, at7) { Err(e) => Err(e), Ok((name_offset, at8)) =>
    match parse_i32(b, at8) { Err(e) => Err(e), Ok((export_count, at9)) =>
    match parse_i32(b, at9) { Err(e) => Err(e), Ok((export_offset, at10)) =>
    match parse_i32(b, at10) { Err(e) => Err(e), Ok((import_count, at11)) =>
    match parse_i32(b, at11) { Err(e) => Err(e), Ok((import_offset, at12)) =>
    match parse_i32(b, at12) { Err(e) => Err(e), Ok((depends_offset, at13)) =>
    match parse_skip(b, at13, 16) { Err(e) => Err(e), Ok(at14) =>
    match parse_guid(b, at14) { Err(e) => Err(e), Ok((guid, at15)) =>
    match parse_array::<FGenerationInfo>(b, at15) { Err(e) => Err(e), Ok((generations, at16)) =>
    match parse_i32(b, at16) { Err(e) => Err(e), Ok((engine_version, at17)) =>
    match parse_i32(b, at17) { Err(e) => Err(e), Ok((cooker_version, at18)) =>
    match parse_u32(b, at18) { Err(e) => Err(e), Ok((flags, at19)) =>
    match parse_array::<FCompressedChunk>(b, at19) { Err(e) => Err(e), Ok((compressed_chunks, at20)) =>
    match parse_skip(b, at20, 4) { Err(e) => Err(e), Ok(at21) =>
    match parse_array::<String>(b, at21) { Err(e) => Err(e), Ok((additional_packages_to_cook, at22)) =>
    match parse_i32(b, at22) { Err(e) => Err(e), Ok((unknown_structs, at23)) =>
    match parse_skip_unknown_structs(b, at23, unknown_structs as int) { Err(e) => Err(e), Ok(at24) =>
    match parse_i32(b, at24) { Err(e) => Err(e), Ok((garbage_size, at25)) =>
    match parse_i32(b, at25) { Err(e) => Err(e), Ok((compression_chunkinfo_offset, at26)) =>
    match parse_i32(b, at26) { Err(e) => Err(e), Ok((last_block_size, at27)) =>
    Ok((
        SummaryModel {
            magic,
            file_version,
            licensee_version,
            header_size,
            package_group,
            package_flags,
            name_count,
            name_offset,
            export_count,
            export_offset,
            import_count,
            import_offset,
            depends_offset,
            guid,
            generations,
            engine_version,
            cooker_version,
            compression_flags: compression_flags_of(flags),
            compressed_chunks,
            additional_packages_to_cook,
            unknown_structs,
            garbage_size,
            compression_chunkinfo_offset,
            last_block_size,
        },
        at27,
    ))
    }}}}}}}}}}}}}}}}}}}}}}}}}}}}
}

/// The package header.
#[derive(Debug)]
pub struct FPackageFileSummary {
    pub magic: u32,
    pub file_version: u16,
    pub licensee_version: u16,
    pub header_size: i32,
    pub package_group: String,
    pub package_flags: u32,
    pub name_count: i32,
    pub name_offset: i32,
    pub export_count: i32,
    pub export_offset: i32,
    pub import_count: i32,
    pub import_offset: i32,
    pub depends_offset: i32,
    pub guid: FGuid,
    pub generations: Vec<FGenerationInfo>,
    pub engine_version: i32,
    pub cooker_version: i32,
    pub compression_flags: ECompressionFlags,
    pub compressed_chunks: Vec<FCompressedChunk>,
    pub additional_packages_to_cook: Vec<String>,
    pub unknown_structs: i32,
    pub garbage_size: i32,
    pub compression_chunkinfo_offset: i32,
    pub last_block_size: i32,
}

impl View for FPackageFileSummary {
    type V = SummaryModel;

    open spec fn view(&self) -> SummaryModel {
        SummaryModel {
            magic: self.magic,
            file_version: self.file_version,
            licensee_version: self.licensee_version,
            header_size: self.header_size,
            package_group: self.package_group@,
            package_flags: self.package_flags,
            name_count: self.name_count,
            name_offset: self.name_offset,
            export_count: self.export_count,
            export_offset: self.export_offset,
            import_count: self.import_count,
            import_offset: self.import_offset,
            depends_offset: self.depends_offset,
            guid: self.guid,
            generations: views_of(self.generations@),
            engine_version: self.engine_version,
            cooker_version: self.cooker_version,
            compression_flags: self.compression_flags,
            compressed_chunks: views_of(self.compressed_chunks@),
            additional_packages_to_cook: views_of(self.additional_packages_to_cook@),
            unknown_structs: self.unknown_structs,
            garbage_size: self.garbage_size,
            compression_chunkinfo_offset: self.compression_chunkinfo_offset,
            last_block_size: self.last_block_size,
        }
    }
}

/// The header before anything is read: every number zero, every string and
/// sequence empty, no compression.
pub open spec fn default_summary() -> SummaryModel {
    SummaryModel {
        magic: 0,
        file_version: 0,
        licensee_version: 0,
        header_size: 0,
        package_group: Seq::empty(),
        package_flags: 0,
        name_count: 0,
        name_offset: 0,
        export_count: 0,
        export_offset: 0,
        import_count: 0,
        import_offset: 0,
        depends_offset: 0,
        guid: FGuid { a: 0, b: 0, c: 0, d: 0 },
        generations: Seq::empty(),
        engine_version: 0,
        cooker_version: 0,
        compression_flags: ECompressionFlags::NoCompression,
        compressed_chunks: Seq::empty(),
        additional_packages_to_cook: Seq::empty(),
        unknown_structs: 0,
        garbage_size: 0,
        compression_chunkinfo_offset: 0,
        last_block_size: 0,
    }
}

impl Default for FPackageFileSummary {
    fn default() -> (r: Self)
        ensures
            r@ == default_summary(),
    {
        let r = FPackageFileSummary {
            magic: 0,
            file_version: 0,
            licensee_version: 0,
            header_size: 0,
            package_group: String::new(),
            package_flags: 0,
            name_count: 0,
            name_offset: 0,
            export_count: 0,
            export_offset: 0,
            import_count: 0,
            import_offset: 0,
            depends_offset: 0,
            guid: FGuid { a: 0, b: 0, c: 0, d: 0 },
            generations: Vec::new(),
            engine_version: 0,
            cooker_version: 0,
            compression_flags: ECompressionFlags::NoCompression,
            compressed_chunks: Vec::new(),
            additional_packages_to_cook: Vec::new(),
            unknown_structs: 0,
            garbage_size: 0,
            compression_chunkinfo_offset: 0,
            last_block_size: 0,
        };
        assert(views_of(r.generations@) =~= Seq::<FGenerationInfo>::empty());
        assert(views_of(r.compressed_chunks@) =~= Seq::<FCompressedChunk>::empty());
        assert(views_of(r.additional_packages_to_cook@) =~= Seq::<Seq<char>>::empty());
        r
    }
}

/// Passes over `n` bytes.
fn skip<Ar: FArchive>(archive: &mut Ar, n: i64) -> (r: Result<(), UpkError>)
    requires
        cursor_ok(old(archive).bytes(), old(archive).pos()),
        0 <= n <= 64,
    ensures
        cursor_ok(final(archive).bytes(), final(archive).pos()),
        final(archive).bytes() == old(archive).bytes(),
        match parse_skip(old(archive).bytes(), old(archive).pos(), n as int) {
            Ok(q) => r is Ok && final(archive).pos() == q,
            Err(e) => r == Err::<(), UpkError>(e),
        },
{
    match archive.seek(SeekFrom::Current(n)) {
        Ok(_) => Ok(()),
        Err(e) => Err(e),
    }
}

/// Passes over `n` records of the kind that is not interpreted.
fn skip_unknown_structs<Ar: FArchive>(archive: &mut Ar, n: i32) -> (r: Result<(), UpkError>)
    requires
        cursor_ok(old(archive).bytes(), old(archive).pos()),
    ensures
        cursor_ok(final(archive).bytes(), final(archive).pos()),
        final(archive).bytes() == old(archive).bytes(),
        match parse_skip_unknown_structs(old(archive).bytes(), old(archive).pos(), n as int) {
            Ok(q) => r is Ok && final(archive).pos() == q,
            Err(e) => r == Err::<(), UpkError>(e),
        },
{
    let ghost b = archive.bytes();
    let ghost p = archive.pos();
    let mut i: i32 = 0;
    while i < n
        invariant
            0 <= i,
            n <= 0 ==> i == 0,
            n > 0 ==> i <= n,
            cursor_ok(archive.bytes(), archive.pos()),
            archive.bytes() == b,
            b == old(archive).bytes(),
            p == old(archive).pos(),
            parse_skip_unknown_structs(b, p, i as int) == Ok::<int, UpkError>(archive.pos()),
        decreases n - i,
    {
        let r1 = skip(archive, 20);
        let r2 = match r1 {
            Ok(()) => read_array::<i32, Ar>(archive),
            Err(e) => Err(e),
        };
        match r2 {
            Ok(_) => {},
            Err(e) => {
                proof {
                    lemma_skip_failure_sticks(b, p, i + 1, n as int);
                }
                return Err(e);
            },
        }
        i = i + 1;
    }
    Ok(())
}

/// Once passing over the first `i` records fails, passing over `n >= i` fails
/// the same way.
proof fn lemma_skip_failure_sticks(b: Seq<u8>, p: int, i: int, n: int)
    requires
        0 < i <= n,
        parse_skip_unknown_structs(b, p, i) is Err,
    ensures
        parse_skip_unknown_structs(b, p, n) == parse_skip_unknown_structs(b, p, i),
    decreases n - i,
{
    if n > i {
        lemma_skip_failure_sticks(b, p, i, n - 1);
    }
}

impl UESerializable for FPackageFileSummary {
    open spec fn parse(b: Seq<u8>, p: int) -> Result<(SummaryModel, int), UpkError> {
        parse_summary(b, p)
    }

    #[verifier::rlimit(60)]
    fn serialize<Ar: FArchive>(val: &mut FPackageFileSummary, archive: &mut Ar) -> (r: Result<
        (),
        UpkError,
    >) {
        proof {
            reveal(parse_summary);
        }
        val.magic = match archive.read_u32() {
            Ok(v) => v,
            Err(e) => {
                return Err(e);
            },
        };
        if val.magic != PACKAGE_MAGIC {
            return Err(UpkError::Format(FormatError::BadMagic));
        }
        val.file_version = match archive.read_u16() {
            Ok(v) => v,
            Err(e) => {
                return Err(e);
            },
        };
        val.licensee_version = match archive.read_u16() {
            Ok(v) => v,
            Err(e) => {
                return Err(e);
            },
        };
        val.header_size = match archive.read_i32() {
            Ok(v) => v,
            Err(e) => {
                return Err(e);
            },
        };
        val.package_group = match archive.read_fstring() {
            Ok(v) => v,
            Err(e) => {
                return Err(e);
            },
        };
        val.package_flags = match archive.read_u32() {
            Ok(v) => v,
            Err(e) => {
                return Err(e);
            },
        };
        val.name_count = match archive.read_i32() {
            Ok(v) => v,
            Err(e) => {
                return Err(e);
            },
        };
        val.name_offset = match archive.read_i32() {
            Ok(v) => v,
            Err(e) => {
                return Err(e);
            },
        };
        val.export_count = match archive.read_i32() {
            Ok(v) => v,
            Err(e) => {
                return Err(e);
            },
        };
        val.export_offset = match archive.read_i32() {
            Ok(v) => v,
            Err(e) => {
                return Err(e);
            },
        };
        val.import_count = match archive.read_i32() {
            Ok(v) => v,
            Err(e) => {
                return Err(e);
            },
        };
        val.import_offset = match archive.read_i32() {
            Ok(v) => v,
            Err(e) => {
                return Err(e);
            },
        };
        val.depends_offset = match archive.read_i32() {
            Ok(v) => v,
            Err(e) => {
                return Err(e);
            },
        };
        match skip(archive, 16) {
            Ok(()) => {},
            Err(e) => {
                return Err(e);
            },
        }
        val.guid = match archive.read_guid() {
            Ok(v) => v,
            Err(e) => {
                return Err(e);
            },
        };
        val.generations = match read_serializable_array(archive) {
            Ok(v) => v,
            Err(e) => {
                return Err(e);
            },
        };
        val.engine_version = match archive.read_i32() {
            Ok(v) => v,
            Err(e) => {
                return Err(e);
            },
        };
        val.cooker_version = match archive.read_i32() {
            Ok(v) => v,
            Err(e) => {
                return Err(e);
            },
        };
        let flags = match archive.read_u32() {
            Ok(v) => v,
            Err(e) => {
                return Err(e);
            },
        };
        val.compression_flags = ECompressionFlags::from(flags);
        val.compressed_chunks = match read_serializable_array(archive) {
            Ok(v) => v,
            Err(e) => {
                return Err(e);
            },
        };
        match skip(archive, 4) {
            Ok(()) => {},
            Err(e) => {
                return Err(e);
            },
        }
        val.additional_packages_to_cook = match read_array(archive) {
            Ok(v) => v,
            Err(e) => {
                return Err(e);
            },
        };
        val.unknown_structs = match archive.read_i32() {
            Ok(v) => v,
            Err(e) => {
                return Err(e);
            },
        };
        match skip_unknown_structs(archive, val.unknown_structs) {
            Ok(()) => {},
            Err(e) => {
                return Err(e);
            },
        }
        val.garbage_size = match archive.read_i32() {
            Ok(v) => v,
            Err(e) => {
                return Err(e);
            },
        };
        val.compression_chunkinfo_offset = match archive.read_i32() {
            Ok(v) => v,
            Err(e) => {
                return Err(e);
            },
        };
        val.last_block_size = match archive.read_i32() {
            Ok(v) => v,
            Err(e) => {
                return Err(e);
            },
        };
        Ok(())
    }
}

/// The length of the encrypted region: from the name table to the end of the
/// header less its garbage, rounded up to whole 16-byte blocks.
pub open spec fn encrypted_len(m: SummaryModel) -> int {
    ((m.header_size - m.garbage_size - m.name_offset + 15) / 16) * 16
}

/// The output before any chunk is inflated: `total` bytes, of which the first
/// `header_end` (as many as fit) are copied from `b` and the rest are zero.
pub open spec fn initial_output(b: Seq<u8>, header_end: int, total: int) -> Seq<u8> {
    Seq::new(total as nat, |i: int| if i < header_end { b[i] } else { 0u8 })
}

/// The decompression stage on the decrypted bytes `dec`: the chunk table is
/// read at `name_offset + chunkinfo_offset`, and every chunk is inflated into
/// an output of `name_offset + enc_len` bytes that starts as
/// `initial_output`. Gives the chunk table and the output.
pub open spec fn decompress_stage(
    dec: Seq<u8>,
    name_offset: int,
    chunkinfo_offset: int,
    enc_len: int,
) -> Result<(Seq<FCompressedChunk>, Seq<u8>), UpkError> {
    let header_end = name_offset + chunkinfo_offset;
    match parse_chunk_table(dec, header_end) {
        Err(e) => Err(e),
        Ok((chunks, _)) => match decompress_chunks(
            dec,
            initial_output(dec, header_end, name_offset + enc_len),
            chunks,
        ) {
            Err(e) => Err(e),
            Ok(out) => Ok((chunks, out)),
        },
    }
}

/// With an empty chunk table, decompression gives the decrypted header
/// prefix copied verbatim, cut to the declared length and zero after it.
pub proof fn lemma_empty_chunk_table_keeps_header(
    dec: Seq<u8>,
    name_offset: int,
    chunkinfo_offset: int,
    enc_len: int,
)
    requires
        name_offset + enc_len >= 0,
        parse_chunk_table(dec, name_offset + chunkinfo_offset) matches Ok((chunks, _)) && chunks.len()
            == 0,
    ensures
        decompress_stage(dec, name_offset, chunkinfo_offset, enc_len) matches Ok((_, out)) && out.len()
            == name_offset + enc_len && (forall|i: int|
            0 <= i < out.len() && i < name_offset + chunkinfo_offset ==> out[i] == dec[i]) && (
        forall|i: int| name_offset + chunkinfo_offset <= i < out.len() ==> out[i] == 0),
{
}

/// The decompression stage for a header whose name table starts at
/// `name_offset`: a negative offset, or an output too large to address, is
/// refused before anything is read.
pub open spec fn decompress_result(dec: Seq<u8>, name_offset: int, chunkinfo_offset: int, enc_len: int) -> Result<
    (Seq<FCompressedChunk>, Seq<u8>),
    UpkError,
> {
    if name_offset < 0 {
        Err(UpkError::Format(FormatError::OffsetOutOfRange))
    } else if name_offset + enc_len > usize::MAX {
        Err(UpkError::Io)
    } else {
        decompress_stage(dec, name_offset, chunkinfo_offset, enc_len)
    }
}

/// What loading the package `data` with `keys` gives: the header, with its
/// chunk table taken from the decrypted bytes, and the reconstructed package.
pub open spec fn load_result(data: Seq<u8>, keys: Seq<Seq<u8>>) -> Result<
    (SummaryModel, Seq<u8>),
    UpkError,
> {
    match parse_summary(data, 0) {
        Err(e) => Err(e),
        Ok((m, _)) => if m.compression_flags == ECompressionFlags::Gzip {
            Err(UpkError::Format(FormatError::UnsupportedCompression))
        } else if m.name_offset < 0 {
            Err(UpkError::Format(FormatError::OffsetOutOfRange))
        } else if encrypted_len(m) <= 0 {
            Err(UpkError::Format(FormatError::InvalidEncryptedRegion))
        } else if m.name_offset + encrypted_len(m) > usize::MAX {
            Err(UpkError::Io)
        } else if keys.len() == 0 {
            Err(UpkError::Key)
        } else {
            match region_of(data, m.name_offset as int, encrypted_len(m)) {
                Err(e) => Err(e),
                Ok(ct) => match decrypted_with_keys(keys, ct) {
                    Err(e) => Err(e),
                    Ok(pt) => match decompress_stage(
                        place(data, m.name_offset as int, pt),
                        m.name_offset as int,
                        m.compression_chunkinfo_offset as int,
                        encrypted_len(m),
                    ) {
                        Err(e) => Err(e),
                        Ok((chunks, out)) => Ok((SummaryModel { compressed_chunks: chunks, ..m }, out)),
                    },
                },
            }
        },
    }
}

/// One package: its file name, the keys to try, and its header once loaded.
pub struct UnPackage {
    pub file_name: String,
    pub keys: Vec<FAesKey>,
    pub summary: FPackageFileSummary,
}

impl UnPackage {
    /// A package not loaded yet, with the keys to try in order.
    pub fn new(file_name: String, keys: Vec<FAesKey>) -> (r: Self)
        ensures
            r.file_name@ == file_name@,
            r.keys@ == keys@,
            r.summary@ == default_summary(),
    {
        UnPackage { file_name, keys, summary: FPackageFileSummary::default() }
    }

    /// Reconstructs the package from its raw bytes: reads the header, decrypts
    /// the header region with the first key the cipher accepts, and inflates
    /// every chunk of the decrypted chunk table into the output. The header
    /// is kept, with the chunk table read from the decrypted bytes.
    #[verifier::rlimit(80)]
    pub fn load(&mut self, data: Vec<u8>) -> (r: Result<Vec<u8>, UpkError>)
        ensures
            final(self).keys@ == old(self).keys@,
            final(self).file_name@ == old(self).file_name@,
            match load_result(data@, views_of(old(self).keys@)) {
                Ok((m, out)) => r matches Ok(v) && v@ == out && final(self).summary@ == m,
                Err(e) => r == Err::<Vec<u8>, UpkError>(e),
            },
    {
        let mut archive = FByteArchive::new(data);
        let mut summary = FPackageFileSummary::default();
        match FPackageFileSummary::serialize(&mut summary, &mut archive) {
            Ok(()) => {},
            Err(e) => {
                return Err(e);
            },
        }
        let ghost m = summary@;
        self.summary = summary;
        if self.summary.compression_flags == ECompressionFlags::Gzip {
            return Err(UpkError::Format(FormatError::UnsupportedCompression));
        }
        let name_offset = self.summary.name_offset;
        if name_offset < 0 {
            return Err(UpkError::Format(FormatError::OffsetOutOfRange));
        }
        let span: i64 = self.summary.header_size as i64 - self.summary.garbage_size as i64
            - name_offset as i64 + 15;
        if span < 16 {
            return Err(UpkError::Format(FormatError::InvalidEncryptedRegion));
        }
        let encrypted_size: i64 = (span / 16) * 16;
        assert(encrypted_size == encrypted_len(m));
        let total_size: i64 = name_offset as i64 + encrypted_size;
        if total_size as u64 > usize::MAX as u64 {
            return Err(UpkError::Io);
        }
        match decrypt_with_keys(&mut archive, &self.keys, name_offset as u64, encrypted_size as usize) {
            Ok(()) => {},
            Err(e) => {
                return Err(e);
            },
        }
        self.decompress(&mut archive, encrypted_size as usize)
    }

    /// The decompression stage on the decrypted `archive`: reads the chunk
    /// table at `name_offset + compression_chunkinfo_offset`, refusing a count
    /// outside `[0, 100]` before anything else is read or allocated, then
    /// inflates every chunk into an output of `name_offset + encrypted_size`
    /// bytes that starts as the header prefix. The chunk table read is kept in
    /// the header.
    pub fn decompress(&mut self, archive: &mut FByteArchive, encrypted_size: usize) -> (r: Result<
        Vec<u8>,
        UpkError,
    >)
        requires
            cursor_ok(old(archive).bytes(), old(archive).pos()),
        ensures
            final(self).keys@ == old(self).keys@,
            final(self).file_name@ == old(self).file_name@,
            final(archive).bytes() == old(archive).bytes(),
            match decompress_result(
                old(archive).bytes(),
                old(self).summary.name_offset as int,
                old(self).summary.compression_chunkinfo_offset as int,
                encrypted_size as int,
            ) {
                Ok((chunks, out)) => r matches Ok(v) && v@ == out && final(self).summary@ == (
                SummaryModel { compressed_chunks: chunks, ..old(self).summary@ }),
                Err(e) => r == Err::<Vec<u8>, UpkError>(e) && final(self).summary@ == old(
                    self,
                ).summary@,
            },
            ({
                let header_end = old(self).summary.name_offset + old(
                    self,
                ).summary.compression_chunkinfo_offset;
                let total = old(self).summary.name_offset + encrypted_size;
                r matches Ok(v) ==> (final(self).summary.compressed_chunks@.len() == 0 ==> v@.len()
                    == total && (forall|i: int|
                    0 <= i < total && i < header_end ==> v@[i] == old(archive).bytes()[i]) && (
                forall|i: int| header_end <= i < total ==> v@[i] == 0))
            }),
    {
        let name_offset = self.summary.name_offset;
        if name_offset < 0 {
            return Err(UpkError::Format(FormatError::OffsetOutOfRange));
        }
        if encrypted_size > usize::MAX - name_offset as usize {
            return Err(UpkError::Io);
        }
        let total: usize = name_offset as usize + encrypted_size;
        let ghost dec = archive.bytes();
        let header_end: i64 = name_offset as i64 + self.summary.compression_chunkinfo_offset as i64;
        if header_end < 0 {
            return Err(UpkError::Io);
        }
        match archive.seek(SeekFrom::Start(header_end as u64)) {
            Ok(_) => {},
            Err(e) => {
                return Err(e);
            },
        }
        let chunks = match read_chunk_table(archive) {
            Ok(v) => v,
            Err(e) => {
                return Err(e);
            },
        };
        let copy_len: usize = if (header_end as usize) < total {
            header_end as usize
        } else {
            total
        };
        let _ = archive.seek(SeekFrom::Start(0));
        let mut prefix: Vec<u8> = vec![0u8; copy_len];
        let _ = archive.read_bytes_vec(&mut prefix);
        let mut output = FByteArchive::new(vec![0u8; total]);
        let _ = output.write_all(prefix.as_slice());
        assert(output.bytes() =~= initial_output(dec, header_end as int, total as int));
        match decompress(archive, &mut output, &chunks) {
            Ok(()) => {},
            Err(e) => {
                return Err(e);
            },
        }
        proof {
            assert(views_of(chunks@) =~= chunks@);
            if chunks@.len() == 0 {
                lemma_empty_chunk_table_keeps_header(
                    dec,
                    name_offset as int,
                    self.summary.compression_chunkinfo_offset as int,
                    encrypted_size as int,
                );
            }
        }
        self.summary.compressed_chunks = chunks;
        Ok(output.into_inner())
    }
}

} // verus!
