use aes::Aes256;
use block_modes::block_padding::NoPadding;
use block_modes::{BlockMode, Ecb};
use miniz_oxide::deflate::compress_to_vec_zlib;

use upk_decrypter::archive::{FArchive, FByteArchive, SeekFrom};
use upk_decrypter::compression::{decompress, read_chunk_table, write_at, FCompressedChunk};
use upk_decrypter::encryption::{decrypt_with_keys, write_plaintext, FAesKey};
use upk_decrypter::package::{
    ECompressionFlags, FPackageFileSummary, UnPackage, COMPRESS_GZIP, COMPRESS_ZLIB, PACKAGE_MAGIC,
    PKG_COOKED,
};
use upk_decrypter::archive::UESerializable;
use upk_decrypter::{FormatError, UpkError};

const ZERO_KEY_B64: &str = "AAAAAAAAAAAAAAAAAAAAAAAAAAAAAAAAAAAAAAAAAAA=";

struct Header {
    name_offset: i32,
    header_size: i32,
    garbage_size: i32,
    flags: u32,
    guid: [u32; 4],
}

fn plain_header(name_offset: i32, header_size: i32) -> Header {
    Header { name_offset, header_size, garbage_size: 0, flags: COMPRESS_ZLIB, guid: [7, 8, 9, 10] }
}

fn put_i32(v: &mut Vec<u8>, x: i32) {
    v.extend_from_slice(&x.to_le_bytes());
}

fn put_u32(v: &mut Vec<u8>, x: u32) {
    v.extend_from_slice(&x.to_le_bytes());
}

/// The summary, with `chunkinfo` as its chunk-table offset; the guid lies at
/// bytes 64..80 and the flag word at 92..96.
fn summary_bytes(h: &Header, chunkinfo: i32) -> Vec<u8> {
    let mut v = Vec::new();
    put_u32(&mut v, PACKAGE_MAGIC);
    v.extend_from_slice(&868u16.to_le_bytes());
    v.extend_from_slice(&32u16.to_le_bytes());
    put_i32(&mut v, h.header_size);
    put_i32(&mut v, 0);
    put_u32(&mut v, PKG_COOKED);
    for x in [5, h.name_offset, 1, 200, 2, 300, 400] {
        put_i32(&mut v, x);
    }
    v.extend_from_slice(&[0xEE; 16]);
    for g in h.guid {
        put_u32(&mut v, g);
    }
    put_i32(&mut v, 0);
    put_i32(&mut v, 11);
    put_i32(&mut v, 12);
    put_u32(&mut v, h.flags);
    put_i32(&mut v, 0);
    v.extend_from_slice(&[0xDD; 4]);
    put_i32(&mut v, 0);
    put_i32(&mut v, 1);
    v.extend_from_slice(&[0xCC; 20]);
    put_i32(&mut v, 2);
    put_i32(&mut v, -1);
    put_i32(&mut v, -2);
    put_i32(&mut v, h.garbage_size);
    put_i32(&mut v, chunkinfo);
    put_i32(&mut v, 0x20000);
    v
}

const SUMMARY_LEN: i32 = 156;

/// A package whose chunk table follows the summary directly.
fn package_with_table(h: &Header, table: &[u8]) -> Vec<u8> {
    let mut v = summary_bytes(h, SUMMARY_LEN - h.name_offset);
    assert_eq!(v.len() as i32, SUMMARY_LEN);
    v.extend_from_slice(table);
    v
}

fn raw_decrypt(key: &[u8; 32], data: &[u8]) -> Vec<u8> {
    Ecb::<Aes256, NoPadding>::new_from_slices(key, &[]).unwrap().decrypt_vec(data).unwrap()
}

/// The package with its region decrypted in place, as the loader sees it.
fn decrypted_image(file: &[u8], key: &[u8; 32], start: usize, len: usize) -> Vec<u8> {
    let mut v = file.to_vec();
    let pt = raw_decrypt(key, &file[start..start + len]);
    assert_ne!(*pt.last().unwrap(), 0, "fixture must not end its plaintext with zero");
    v[start..start + len].copy_from_slice(&pt);
    v
}

fn zero_key() -> FAesKey {
    FAesKey { key: [0u8; 32] }
}

fn is_format(r: &UpkError, f: FormatError) -> bool {
    matches!(r, UpkError::Format(g) if *g == f)
}

fn chunk_record(uo: i64, us: i32, co: i64, cs: i32) -> Vec<u8> {
    let mut v = uo.to_le_bytes().to_vec();
    put_i32(&mut v, us);
    v.extend_from_slice(&co.to_le_bytes());
    put_i32(&mut v, cs);
    v
}

/// One chunk: header, block list, payloads, for the given pieces of data.
fn chunk_body(pieces: &[&[u8]]) -> Vec<u8> {
    let payloads: Vec<Vec<u8>> = pieces.iter().map(|p| compress_to_vec_zlib(p, 6)).collect();
    let cs: i32 = payloads.iter().map(|p| p.len() as i32).sum();
    let us: i32 = pieces.iter().map(|p| p.len() as i32).sum();
    let mut v = Vec::new();
    put_u32(&mut v, PACKAGE_MAGIC);
    put_i32(&mut v, 0x20000);
    put_i32(&mut v, cs);
    put_i32(&mut v, us);
    for (p, piece) in payloads.iter().zip(pieces) {
        put_i32(&mut v, p.len() as i32);
        put_i32(&mut v, piece.len() as i32);
    }
    for p in &payloads {
        v.extend_from_slice(p);
    }
    v
}

#[test]
fn header_fields_are_read_from_raw_bytes() {
    let h = plain_header(64, 80);
    let mut ar = FByteArchive::new(summary_bytes(&h, 92));
    let mut s = FPackageFileSummary::default();
    FPackageFileSummary::serialize(&mut s, &mut ar).unwrap();
    assert_eq!(s.magic, PACKAGE_MAGIC);
    assert_eq!(s.file_version, 868);
    assert_eq!(s.licensee_version, 32);
    assert_eq!(s.header_size, 80);
    assert_eq!(s.package_group, "");
    assert_eq!(s.package_flags, PKG_COOKED);
    assert_eq!(
        (s.name_count, s.name_offset, s.export_count, s.export_offset),
        (5, 64, 1, 200)
    );
    assert_eq!((s.import_count, s.import_offset, s.depends_offset), (2, 300, 400));
    assert_eq!((s.guid.a, s.guid.b, s.guid.c, s.guid.d), (7, 8, 9, 10));
    assert!(s.generations.is_empty());
    assert_eq!((s.engine_version, s.cooker_version), (11, 12));
    assert_eq!(s.compression_flags, ECompressionFlags::Zlib);
    assert!(s.compressed_chunks.is_empty());
    assert!(s.additional_packages_to_cook.is_empty());
    assert_eq!(s.unknown_structs, 1);
    assert_eq!((s.garbage_size, s.compression_chunkinfo_offset, s.last_block_size), (0, 92, 0x20000));
    assert_eq!(ar.seek(SeekFrom::Current(0)).unwrap(), SUMMARY_LEN as u64);
}

#[test]
fn header_with_wrong_magic_is_refused() {
    let mut bytes = summary_bytes(&plain_header(64, 80), 92);
    bytes[0] = 0;
    let mut ar = FByteArchive::new(bytes);
    let mut s = FPackageFileSummary::default();
    let e = FPackageFileSummary::serialize(&mut s, &mut ar).unwrap_err();
    assert!(is_format(&e, FormatError::BadMagic));
}

#[test]
fn truncated_header_is_an_io_error() {
    let bytes = summary_bytes(&plain_header(64, 80), 92);
    let mut ar = FByteArchive::new(bytes[..150].to_vec());
    let mut s = FPackageFileSummary::default();
    assert!(matches!(FPackageFileSummary::serialize(&mut s, &mut ar), Err(UpkError::Io)));
}

#[test]
fn unknown_compression_flag_reads_as_none() {
    assert_eq!(ECompressionFlags::from(0u32), ECompressionFlags::NoCompression);
    assert_eq!(ECompressionFlags::from(1u32), ECompressionFlags::Zlib);
    assert_eq!(ECompressionFlags::from(2u32), ECompressionFlags::Gzip);
    assert_eq!(ECompressionFlags::from(77u32), ECompressionFlags::NoCompression);
}

#[test]
fn chunk_record_narrows_offsets() {
    let mut ar = FByteArchive::new(chunk_record(1000, 20, 3000, 40));
    let mut c = FCompressedChunk::default();
    FCompressedChunk::serialize(&mut c, &mut ar).unwrap();
    assert_eq!(
        c,
        FCompressedChunk {
            uncompressed_offset: 1000,
            uncompressed_size: 20,
            compressed_offset: 3000,
            compressed_size: 40
        }
    );
    let mut ar = FByteArchive::new(chunk_record(1 << 40, 20, 3000, 40));
    let e = FCompressedChunk::serialize(&mut c, &mut ar).unwrap_err();
    assert!(is_format(&e, FormatError::OffsetOutOfRange));
}

#[test]
fn chunk_table_count_over_one_hundred_is_refused() {
    let mut ar = FByteArchive::new(101i32.to_le_bytes().to_vec());
    let e = read_chunk_table(&mut ar).unwrap_err();
    assert!(is_format(&e, FormatError::ChunkCountOutOfRange));
    let mut ar = FByteArchive::new((-1i32).to_le_bytes().to_vec());
    let e = read_chunk_table(&mut ar).unwrap_err();
    assert!(is_format(&e, FormatError::ChunkCountOutOfRange));
}

#[test]
fn chunk_table_within_bounds_is_read() {
    let mut data = 2i32.to_le_bytes().to_vec();
    data.extend(chunk_record(10, 1, 20, 2));
    data.extend(chunk_record(30, 3, 40, 4));
    let mut ar = FByteArchive::new(data);
    let chunks = read_chunk_table(&mut ar).unwrap();
    assert_eq!(chunks.len(), 2);
    assert_eq!(chunks[1].compressed_offset, 40);
    let mut ar = FByteArchive::new(0i32.to_le_bytes().to_vec());
    assert!(read_chunk_table(&mut ar).unwrap().is_empty());
}

#[test]
fn key_from_base64() {
    let k = FAesKey::from_base64(ZERO_KEY_B64).unwrap();
    assert_eq!(k.to_bytes(), vec![0u8; 32]);
    assert_eq!(k.as_bytes(), &[0u8; 32][..]);
    assert!(matches!(FAesKey::from_base64("AAAA"), Err(UpkError::InvalidKey)));
    assert!(matches!(FAesKey::from_base64("not base64!"), Err(UpkError::InvalidKey)));
}

#[test]
fn key_to_hex() {
    let mut key = [0u8; 32];
    for (i, b) in key.iter_mut().enumerate() {
        *b = (i as u8) * 8;
    }
    let k = FAesKey { key };
    assert_eq!(
        k.to_hex(),
        "0x0008101820283038404850586068707880889098a0a8b0b8c0c8d0d8e0e8f0f8"
    );
}

#[test]
fn decrypt_writes_plaintext_in_place() {
    let data: Vec<u8> = (0u8..48).collect();
    let key = zero_key();
    let mut ar = FByteArchive::new(data.clone());
    decrypt_with_keys(&mut ar, &vec![key], 16, 16).unwrap();
    let expected = decrypted_image(&data, &key.key, 16, 16);
    assert_eq!(ar.into_inner(), expected);
}

#[test]
fn decrypt_uses_the_first_accepted_key() {
    let data: Vec<u8> = (0u8..32).collect();
    let first = FAesKey { key: [1u8; 32] };
    let mut ar = FByteArchive::new(data.clone());
    decrypt_with_keys(&mut ar, &vec![first, zero_key()], 0, 32).unwrap();
    assert_eq!(ar.into_inner(), decrypted_image(&data, &first.key, 0, 32));
}

#[test]
fn decrypt_without_keys_is_a_key_error() {
    let mut ar = FByteArchive::new(vec![0u8; 32]);
    assert!(matches!(decrypt_with_keys(&mut ar, &vec![], 0, 16), Err(UpkError::Key)));
}

#[test]
fn decrypt_of_a_partial_block_is_refused_by_every_key() {
    let mut ar = FByteArchive::new(vec![1u8; 32]);
    let r = decrypt_with_keys(&mut ar, &vec![zero_key(), zero_key()], 0, 15);
    assert!(matches!(r, Err(UpkError::Key)));
    assert_eq!(ar.into_inner(), vec![1u8; 32]);
}

#[test]
fn decrypt_past_the_end_is_an_io_error() {
    let mut ar = FByteArchive::new(vec![1u8; 32]);
    let r = decrypt_with_keys(&mut ar, &vec![zero_key()], 24, 16);
    assert!(matches!(r, Err(UpkError::Io)));
}

#[test]
fn plaintext_of_another_length_is_refused() {
    let mut ar = FByteArchive::new(vec![0u8; 32]);
    let e = write_plaintext(&mut ar, 0, 16, Some(vec![1u8; 15])).unwrap_err();
    assert!(is_format(&e, FormatError::DecryptedSizeMismatch));
    assert!(matches!(write_plaintext(&mut ar, 0, 16, None), Err(UpkError::Key)));
    write_plaintext(&mut ar, 8, 16, Some(vec![5u8; 16])).unwrap();
    let out = ar.into_inner();
    assert_eq!(&out[8..24], &[5u8; 16]);
    assert_eq!(&out[..8], &[0u8; 8]);
}

#[test]
fn plaintext_ending_in_zeros_is_a_size_mismatch() {
    let pt = [3u8; 16];
    let mut padded = pt.to_vec();
    padded[15] = 0;
    let ct = Ecb::<Aes256, NoPadding>::new_from_slices(&[0u8; 32], &[])
        .unwrap()
        .encrypt_vec(&padded);
    let mut ar = FByteArchive::new(ct);
    let e = decrypt_with_keys(&mut ar, &vec![zero_key()], 0, 16).unwrap_err();
    assert!(is_format(&e, FormatError::DecryptedSizeMismatch));
}

#[test]
fn decompress_places_chunks_by_offset() {
    let first: Vec<u8> = (0..300u32).map(|i| (i % 251) as u8).collect();
    let second = b"second chunk".to_vec();
    let body_a = chunk_body(&[&first[..200], &first[200..]]);
    let body_b = chunk_body(&[&second]);
    let mut src = vec![0xAAu8; 10];
    let off_a = src.len();
    src.extend_from_slice(&body_a);
    let off_b = src.len();
    src.extend_from_slice(&body_b);
    let chunks = vec![
        FCompressedChunk {
            uncompressed_offset: 40,
            uncompressed_size: 300,
            compressed_offset: off_a as i32,
            compressed_size: body_a.len() as i32,
        },
        FCompressedChunk {
            uncompressed_offset: 4,
            uncompressed_size: 12,
            compressed_offset: off_b as i32,
            compressed_size: body_b.len() as i32,
        },
    ];
    let mut ar = FByteArchive::new(src);
    let mut out = FByteArchive::new(vec![9u8; 8]);
    decompress(&mut ar, &mut out, &chunks).unwrap();
    let mut expected = vec![9u8; 4];
    expected.extend_from_slice(&second);
    expected.resize(40, 0);
    expected.extend_from_slice(&first);
    assert_eq!(out.into_inner(), expected);
}

#[test]
fn decompress_with_no_chunks_leaves_output() {
    let mut ar = FByteArchive::new(vec![1, 2, 3]);
    let mut out = FByteArchive::new(vec![4, 5]);
    decompress(&mut ar, &mut out, &vec![]).unwrap();
    assert_eq!(out.into_inner(), vec![4, 5]);
}

fn one_chunk_source(blocks: &[(i32, i32)], payload: &[u8], total: i32) -> (Vec<u8>, Vec<FCompressedChunk>) {
    let mut src = Vec::new();
    put_u32(&mut src, PACKAGE_MAGIC);
    put_i32(&mut src, 0x20000);
    put_i32(&mut src, payload.len() as i32);
    put_i32(&mut src, total);
    for (c, u) in blocks {
        put_i32(&mut src, *c);
        put_i32(&mut src, *u);
    }
    src.extend_from_slice(payload);
    let chunk = FCompressedChunk {
        uncompressed_offset: 0,
        uncompressed_size: total,
        compressed_offset: 0,
        compressed_size: src.len() as i32,
    };
    (src, vec![chunk])
}

#[test]
fn block_list_overrun_is_refused() {
    let payload = compress_to_vec_zlib(b"abcdef", 6);
    let (src, chunks) = one_chunk_source(&[(payload.len() as i32, 6)], &payload, 4);
    let mut ar = FByteArchive::new(src);
    let mut out = FByteArchive::new(vec![]);
    let e = decompress(&mut ar, &mut out, &chunks).unwrap_err();
    assert!(is_format(&e, FormatError::BlockListOverrun));
}

#[test]
fn empty_block_is_refused() {
    let (src, chunks) = one_chunk_source(&[(0, 0)], &[], 4);
    let mut ar = FByteArchive::new(src);
    let mut out = FByteArchive::new(vec![]);
    let e = decompress(&mut ar, &mut out, &chunks).unwrap_err();
    assert!(is_format(&e, FormatError::EmptyBlock));
}

#[test]
fn invalid_zlib_payload_is_refused() {
    let payload = vec![0x12u8, 0x34, 0x56, 0x78];
    let (src, chunks) = one_chunk_source(&[(4, 6)], &payload, 6);
    let mut ar = FByteArchive::new(src);
    let mut out = FByteArchive::new(vec![]);
    let e = decompress(&mut ar, &mut out, &chunks).unwrap_err();
    assert!(is_format(&e, FormatError::InflateFailed));
}

#[test]
fn block_sizes_add_up_to_the_chunk_total() {
    let a = compress_to_vec_zlib(b"hello ", 6);
    let b = compress_to_vec_zlib(b"world", 6);
    let mut payload = a.clone();
    payload.extend_from_slice(&b);
    let (src, chunks) = one_chunk_source(&[(a.len() as i32, 6), (b.len() as i32, 5)], &payload, 11);
    let mut ar = FByteArchive::new(src);
    let mut out = FByteArchive::new(vec![]);
    decompress(&mut ar, &mut out, &chunks).unwrap();
    assert_eq!(out.into_inner(), b"hello world".to_vec());
}

#[test]
fn load_with_zero_key_and_no_chunks() {
    let h = plain_header(64, 80);
    let file = package_with_table(&h, &0i32.to_le_bytes());
    let key = FAesKey::from_base64(ZERO_KEY_B64).unwrap();
    let mut pkg = UnPackage::new("pkg_T_SF.upk".to_string(), vec![key]);
    let out = pkg.load(file.clone()).unwrap();
    assert_eq!(out.len(), 64 + 16);
    assert_eq!(out, decrypted_image(&file, &[0u8; 32], 64, 16)[..80].to_vec());
    assert_eq!(pkg.summary.name_offset, 64);
}

#[test]
fn load_with_a_two_block_region() {
    let h = plain_header(64, 96);
    let file = package_with_table(&h, &0i32.to_le_bytes());
    let mut pkg = UnPackage::new("pkg.upk".to_string(), vec![zero_key()]);
    let out = pkg.load(file.clone()).unwrap();
    assert_eq!(out.len(), 64 + 32);
    assert_eq!(out, decrypted_image(&file, &[0u8; 32], 64, 32)[..96].to_vec());
}

#[test]
fn load_without_keys_is_a_key_error() {
    let file = package_with_table(&plain_header(64, 80), &0i32.to_le_bytes());
    let mut pkg = UnPackage::new("pkg.upk".to_string(), vec![]);
    assert!(matches!(pkg.load(file), Err(UpkError::Key)));
}

#[test]
fn load_with_101_chunks_is_a_format_error() {
    let file = package_with_table(&plain_header(64, 80), &101i32.to_le_bytes());
    let mut pkg = UnPackage::new("pkg.upk".to_string(), vec![zero_key()]);
    let e = pkg.load(file).unwrap_err();
    assert!(is_format(&e, FormatError::ChunkCountOutOfRange));
}

#[test]
fn load_of_gzip_package_is_unsupported() {
    let mut h = plain_header(64, 80);
    h.flags = COMPRESS_GZIP;
    let file = package_with_table(&h, &0i32.to_le_bytes());
    let mut pkg = UnPackage::new("pkg.upk".to_string(), vec![zero_key()]);
    let e = pkg.load(file).unwrap_err();
    assert!(is_format(&e, FormatError::UnsupportedCompression));
}

#[test]
fn load_with_empty_region_is_refused() {
    let file = package_with_table(&plain_header(64, 64), &0i32.to_le_bytes());
    let mut pkg = UnPackage::new("pkg.upk".to_string(), vec![zero_key()]);
    let e = pkg.load(file).unwrap_err();
    assert!(is_format(&e, FormatError::InvalidEncryptedRegion));
}

#[test]
fn load_inflates_a_chunk_after_the_header() {
    let h = plain_header(64, 80);
    let data: Vec<u8> = (0..1000u32).map(|i| (i * 7 % 256) as u8).collect();
    let body = chunk_body(&[&data[..600], &data[600..]]);
    let table_len = 4 + 24;
    let body_offset = SUMMARY_LEN as usize + table_len;
    let mut table = 1i32.to_le_bytes().to_vec();
    table.extend(chunk_record(80, 1000, body_offset as i64, body.len() as i32));
    let mut file = package_with_table(&h, &table);
    file.extend_from_slice(&body);
    let mut pkg = UnPackage::new("pkg.upk".to_string(), vec![zero_key()]);
    let out = pkg.load(file.clone()).unwrap();
    let mut expected = decrypted_image(&file, &[0u8; 32], 64, 16)[..80].to_vec();
    expected.extend_from_slice(&data);
    assert_eq!(out, expected);
    assert_eq!(pkg.summary.compressed_chunks.len(), 1);
    assert_eq!(pkg.summary.compressed_chunks[0].uncompressed_size, 1000);
}

#[test]
fn key_from_raw_bytes() {
    let k = FAesKey::from_bytes(&vec![5u8; 32]).unwrap();
    assert_eq!(k.key, [5u8; 32]);
    assert!(matches!(FAesKey::from_bytes(&vec![5u8; 31]), Err(UpkError::InvalidKey)));
}

#[test]
fn write_at_grows_with_zeros() {
    let mut out = FByteArchive::new(vec![1, 2, 3]);
    write_at(&mut out, 1, &vec![9]).unwrap();
    write_at(&mut out, 5, &vec![7, 8]).unwrap();
    assert_eq!(out.into_inner(), vec![1, 9, 3, 0, 0, 7, 8]);
}

fn put_fstring(v: &mut Vec<u8>, s: &str) {
    put_i32(v, s.len() as i32);
    v.extend_from_slice(s.as_bytes());
}

/// A header with a group name, a generation, a chunk, two extra package
/// names and two records of unknown kind.
fn rich_summary_bytes() -> Vec<u8> {
    let mut v = Vec::new();
    put_u32(&mut v, PACKAGE_MAGIC);
    v.extend_from_slice(&868u16.to_le_bytes());
    v.extend_from_slice(&32u16.to_le_bytes());
    put_i32(&mut v, 4096);
    put_fstring(&mut v, "Core\u{e9}");
    put_u32(&mut v, PKG_COOKED | 0x0200_0000);
    for x in [50, 512, 20, 900, -3, 1400, 1600] {
        put_i32(&mut v, x);
    }
    v.extend_from_slice(&[1, 2, 3, 4, 5, 6, 7, 8, 9, 10, 11, 12, 13, 14, 15, 16]);
    for g in [0xAABB_CCDDu32, 1, 2, 3] {
        put_u32(&mut v, g);
    }
    put_i32(&mut v, 1);
    for x in [20, 50, -7] {
        put_i32(&mut v, x);
    }
    put_i32(&mut v, 868);
    put_i32(&mut v, 171);
    put_u32(&mut v, COMPRESS_ZLIB);
    put_i32(&mut v, 1);
    v.extend(chunk_record(4096, 70000, 2000, 3000));
    v.extend_from_slice(&[0x55; 4]);
    put_i32(&mut v, 2);
    put_fstring(&mut v, "Engine");
    put_fstring(&mut v, "");
    put_i32(&mut v, 2);
    for k in 0..2 {
        v.extend_from_slice(&[0x40 + k; 20]);
        put_i32(&mut v, 1);
        put_i32(&mut v, 99);
    }
    put_i32(&mut v, 16);
    put_i32(&mut v, 300);
    put_i32(&mut v, 0x1_0000);
    v
}

#[test]
fn header_fields_write_back_to_the_same_bytes() {
    let bytes = rich_summary_bytes();
    let mut ar = FByteArchive::new(bytes.clone());
    let mut s = FPackageFileSummary::default();
    FPackageFileSummary::serialize(&mut s, &mut ar).unwrap();
    assert_eq!(ar.seek(SeekFrom::Current(0)).unwrap(), bytes.len() as u64);

    let group_end = 16 + s.package_group.len();
    let reserved = &bytes[group_end + 32..group_end + 48];
    let mut v = Vec::new();
    put_u32(&mut v, s.magic);
    v.extend_from_slice(&s.file_version.to_le_bytes());
    v.extend_from_slice(&s.licensee_version.to_le_bytes());
    put_i32(&mut v, s.header_size);
    put_fstring(&mut v, &s.package_group);
    put_u32(&mut v, s.package_flags);
    for x in [
        s.name_count,
        s.name_offset,
        s.export_count,
        s.export_offset,
        s.import_count,
        s.import_offset,
        s.depends_offset,
    ] {
        put_i32(&mut v, x);
    }
    v.extend_from_slice(reserved);
    for g in [s.guid.a, s.guid.b, s.guid.c, s.guid.d] {
        put_u32(&mut v, g);
    }
    put_i32(&mut v, s.generations.len() as i32);
    for g in &s.generations {
        put_i32(&mut v, g.export_count);
        put_i32(&mut v, g.name_count);
        put_i32(&mut v, g.net_object_count);
    }
    put_i32(&mut v, s.engine_version);
    put_i32(&mut v, s.cooker_version);
    let flag_word = match s.compression_flags {
        ECompressionFlags::NoCompression => 0u32,
        ECompressionFlags::Zlib => COMPRESS_ZLIB,
        ECompressionFlags::Gzip => COMPRESS_GZIP,
    };
    put_u32(&mut v, flag_word);
    put_i32(&mut v, s.compressed_chunks.len() as i32);
    for c in &s.compressed_chunks {
        v.extend(chunk_record(
            c.uncompressed_offset as i64,
            c.uncompressed_size,
            c.compressed_offset as i64,
            c.compressed_size,
        ));
    }
    let gap_start = v.len();
    v.extend_from_slice(&bytes[gap_start..gap_start + 4]);
    put_i32(&mut v, s.additional_packages_to_cook.len() as i32);
    for name in &s.additional_packages_to_cook {
        put_fstring(&mut v, name);
    }
    put_i32(&mut v, s.unknown_structs);
    let skipped_start = v.len();
    let skipped_end = bytes.len() - 12;
    v.extend_from_slice(&bytes[skipped_start..skipped_end]);
    put_i32(&mut v, s.garbage_size);
    put_i32(&mut v, s.compression_chunkinfo_offset);
    put_i32(&mut v, s.last_block_size);
    assert_eq!(v, bytes);
    assert_eq!(s.package_group, "Core\u{e9}");
    assert_eq!(s.additional_packages_to_cook, vec!["Engine".to_string(), String::new()]);
    assert_eq!(s.import_count, -3);
}

#[test]
fn negative_chunk_total_is_refused() {
    let (src, chunks) = one_chunk_source(&[], &[], -1);
    let mut ar = FByteArchive::new(src);
    let mut out = FByteArchive::new(vec![]);
    let e = decompress(&mut ar, &mut out, &chunks).unwrap_err();
    assert!(is_format(&e, FormatError::NegativeSize));
}

#[test]
fn a_key_whose_plaintext_has_another_length_passes_to_the_next() {
    let mut padded = [3u8; 16];
    padded[15] = 0;
    let ct = Ecb::<Aes256, NoPadding>::new_from_slices(&[0u8; 32], &[])
        .unwrap()
        .encrypt_vec(&padded);
    let second = FAesKey { key: [1u8; 32] };
    let expected = decrypted_image(&ct, &second.key, 0, 16);
    let mut ar = FByteArchive::new(ct);
    decrypt_with_keys(&mut ar, &vec![zero_key(), second], 0, 16).unwrap();
    assert_eq!(ar.into_inner(), expected);
}

#[test]
fn failed_key_trial_leaves_the_bytes() {
    let mut padded = [3u8; 16];
    padded[15] = 0;
    let ct = Ecb::<Aes256, NoPadding>::new_from_slices(&[0u8; 32], &[])
        .unwrap()
        .encrypt_vec(&padded);
    let mut ar = FByteArchive::new(ct.clone());
    assert!(decrypt_with_keys(&mut ar, &vec![zero_key()], 0, 16).is_err());
    assert_eq!(ar.into_inner(), ct);
}

#[test]
fn decompress_stage_with_empty_table_copies_the_header_prefix() {
    let mut data: Vec<u8> = (0u8..40).collect();
    data.extend_from_slice(&0i32.to_le_bytes());
    let mut pkg = UnPackage::new("pkg.upk".to_string(), vec![]);
    pkg.summary.name_offset = 8;
    pkg.summary.compression_chunkinfo_offset = 32;
    let mut ar = FByteArchive::new(data.clone());
    let out = pkg.decompress(&mut ar, 48).unwrap();
    let mut expected = data[..40].to_vec();
    expected.resize(56, 0);
    assert_eq!(out, expected);
    assert!(pkg.summary.compressed_chunks.is_empty());

    let mut pkg = UnPackage::new("pkg.upk".to_string(), vec![]);
    pkg.summary.name_offset = 8;
    pkg.summary.compression_chunkinfo_offset = 32;
    let mut ar = FByteArchive::new(data.clone());
    assert_eq!(pkg.decompress(&mut ar, 16).unwrap(), data[..24].to_vec());
}

#[test]
fn decompress_stage_refuses_101_chunks() {
    let mut data = vec![0u8; 16];
    data.extend_from_slice(&101i32.to_le_bytes());
    let mut pkg = UnPackage::new("pkg.upk".to_string(), vec![]);
    pkg.summary.name_offset = 0;
    pkg.summary.compression_chunkinfo_offset = 16;
    let mut ar = FByteArchive::new(data);
    let e = pkg.decompress(&mut ar, 16).unwrap_err();
    assert!(is_format(&e, FormatError::ChunkCountOutOfRange));
}
