use upk_decrypter::archive::{
    read_array, read_serializable, read_serializable_array, read_sized_serializable_array,
    FArchive, FByteArchive, SeekFrom,
};
use upk_decrypter::compression::FCompressedChunkBlock;
use upk_decrypter::package::{FGenerationInfo, FGuid};
use upk_decrypter::{find_game_file, FileProviderType, FormatError, ParserError, UpkError};

fn is_format(r: &UpkError, f: FormatError) -> bool {
    matches!(r, UpkError::Format(g) if *g == f)
}

fn fstring_bytes(len: i32, payload: &[u8]) -> Vec<u8> {
    let mut v = len.to_le_bytes().to_vec();
    v.extend_from_slice(payload);
    v
}

#[test]
fn reads_little_endian_integers() {
    let mut data = vec![0x01u8, 0x02, 0x03, 0x04];
    data.extend_from_slice(&(-2i32).to_le_bytes());
    data.extend_from_slice(&0x0102_0304_0506_0708i64.to_le_bytes());
    data.extend_from_slice(&(-3i64).to_le_bytes());
    data.extend_from_slice(&(-5i16).to_le_bytes());
    data.push(0xAB);
    let mut ar = FByteArchive::new(data);
    assert_eq!(ar.read_u32().unwrap(), 0x0403_0201);
    assert_eq!(ar.read_i32().unwrap(), -2);
    assert_eq!(ar.read_i64().unwrap(), 0x0102_0304_0506_0708);
    assert_eq!(ar.read_i64().unwrap(), -3);
    assert_eq!(ar.read_i16().unwrap(), -5);
    assert_eq!(ar.read_u8().unwrap(), 0xAB);
    assert!(matches!(ar.read_u8(), Err(UpkError::Io)));
}

#[test]
fn reads_u16_values() {
    let mut ar = FByteArchive::new(vec![0x34, 0x12, 0xFF, 0xFF]);
    assert_eq!(ar.read_u16().unwrap(), 0x1234);
    assert_eq!(ar.read_u16().unwrap(), 0xFFFF);
}

#[test]
fn short_read_fails_and_keeps_the_cursor() {
    let mut ar = FByteArchive::new(vec![1, 2, 3]);
    assert!(matches!(ar.read_u32(), Err(UpkError::Io)));
    assert_eq!(ar.read_u8().unwrap(), 1);
    let mut buf = vec![0u8; 3];
    assert!(matches!(ar.read_bytes_vec(&mut buf), Err(UpkError::Io)));
    let mut buf = vec![0u8; 2];
    ar.read_bytes_vec(&mut buf).unwrap();
    assert_eq!(buf, vec![2, 3]);
}

#[test]
fn len_is_the_whole_buffer() {
    let mut ar = FByteArchive::new(vec![0u8; 10]);
    ar.read_u32().unwrap();
    assert_eq!(ar.len(), 10);
}

#[test]
fn seek_from_start_end_and_current() {
    let mut ar = FByteArchive::new((0u8..10).collect());
    assert_eq!(ar.seek(SeekFrom::Start(4)).unwrap(), 4);
    assert_eq!(ar.read_u8().unwrap(), 4);
    assert_eq!(ar.seek(SeekFrom::Current(2)).unwrap(), 7);
    assert_eq!(ar.read_u8().unwrap(), 7);
    assert_eq!(ar.seek(SeekFrom::End(-1)).unwrap(), 9);
    assert_eq!(ar.read_u8().unwrap(), 9);
    assert_eq!(ar.seek(SeekFrom::Current(-10)).unwrap(), 0);
    assert_eq!(ar.seek(SeekFrom::End(0)).unwrap(), 10);
}

#[test]
fn seek_refuses_negative_and_past_end() {
    let mut ar = FByteArchive::new(vec![0u8; 4]);
    ar.seek(SeekFrom::Start(2)).unwrap();
    assert!(matches!(ar.seek(SeekFrom::Current(-3)), Err(UpkError::Io)));
    assert!(matches!(ar.seek(SeekFrom::Start(5)), Err(UpkError::Io)));
    assert!(matches!(ar.seek(SeekFrom::End(1)), Err(UpkError::Io)));
    assert_eq!(ar.seek(SeekFrom::Current(0)).unwrap(), 2);
}

#[test]
fn write_all_overwrites_then_extends() {
    let mut ar = FByteArchive::new(vec![1, 2, 3]);
    ar.seek(SeekFrom::Start(1)).unwrap();
    ar.write_all(&[9, 8, 7, 6]).unwrap();
    assert_eq!(ar.len(), 5);
    assert_eq!(ar.seek(SeekFrom::Current(0)).unwrap(), 5);
    assert_eq!(ar.into_inner(), vec![1, 9, 8, 7, 6]);
}

#[test]
fn fstring_of_length_zero_is_empty() {
    let mut ar = FByteArchive::new(fstring_bytes(0, &[]));
    assert_eq!(ar.read_fstring().unwrap(), "");
}

#[test]
fn fstring_decodes_utf8() {
    let text = "Engine.Package \u{e9}\u{4e16}";
    let mut ar = FByteArchive::new(fstring_bytes(text.len() as i32, text.as_bytes()));
    assert_eq!(ar.read_fstring().unwrap(), text);
    assert!(matches!(ar.read_u8(), Err(UpkError::Io)));
}

#[test]
fn fstring_min_length_is_corruption() {
    let mut ar = FByteArchive::new(fstring_bytes(i32::MIN, &[0u8; 8]));
    let e = ar.read_fstring().unwrap_err();
    assert!(is_format(&e, FormatError::CorruptString));
}

#[test]
fn fstring_negative_length_is_unsupported() {
    let mut ar = FByteArchive::new(fstring_bytes(-3, &[0u8; 6]));
    let e = ar.read_fstring().unwrap_err();
    assert!(is_format(&e, FormatError::UnsupportedEncoding));
}

#[test]
fn fstring_invalid_utf8_fails() {
    let mut ar = FByteArchive::new(fstring_bytes(2, &[0xC3, 0x28]));
    let e = ar.read_fstring().unwrap_err();
    assert!(is_format(&e, FormatError::InvalidUtf8));
}

#[test]
fn fstring_short_payload_fails() {
    let mut ar = FByteArchive::new(fstring_bytes(5, b"abc"));
    assert!(matches!(ar.read_fstring(), Err(UpkError::Io)));
}

#[test]
fn guid_reads_four_words_in_order() {
    let mut data = Vec::new();
    for w in [1u32, 2, 3, 0xDEAD_BEEF] {
        data.extend_from_slice(&w.to_le_bytes());
    }
    let mut ar = FByteArchive::new(data.clone());
    assert_eq!(ar.read_guid().unwrap(), FGuid { a: 1, b: 2, c: 3, d: 0xDEAD_BEEF });
    let mut ar = FByteArchive::new(data);
    let mut g = FGuid { a: 0, b: 0, c: 0, d: 0 };
    ar.read_existing_guid(&mut g).unwrap();
    assert_eq!(g.d, 0xDEAD_BEEF);
    let mut ar = FByteArchive::new(vec![0u8; 15]);
    assert!(matches!(ar.read_guid(), Err(UpkError::Io)));
}

#[test]
fn serializable_array_reads_records_in_order() {
    let mut data = 2i32.to_le_bytes().to_vec();
    for v in [1i32, 2, 3, 4, 5, 6] {
        data.extend_from_slice(&v.to_le_bytes());
    }
    let mut ar = FByteArchive::new(data);
    let gens: Vec<FGenerationInfo> = read_serializable_array(&mut ar).unwrap();
    assert_eq!(
        gens,
        vec![
            FGenerationInfo { export_count: 1, name_count: 2, net_object_count: 3 },
            FGenerationInfo { export_count: 4, name_count: 5, net_object_count: 6 },
        ]
    );
}

#[test]
fn serializable_array_negative_count_is_invalid() {
    let mut ar = FByteArchive::new((-1i32).to_le_bytes().to_vec());
    let e = read_serializable_array::<FGenerationInfo, _>(&mut ar).unwrap_err();
    assert!(is_format(&e, FormatError::InvalidArraySize));
}

#[test]
fn sized_array_uses_the_given_count() {
    let mut data = Vec::new();
    for v in [10i32, 20, 30, 40] {
        data.extend_from_slice(&v.to_le_bytes());
    }
    let mut ar = FByteArchive::new(data);
    let blocks: Vec<FCompressedChunkBlock> = read_sized_serializable_array(&mut ar, 2).unwrap();
    assert_eq!(blocks[1], FCompressedChunkBlock { compressed_size: 30, uncompressed_size: 40 });
    let mut ar = FByteArchive::new(vec![]);
    let e = read_sized_serializable_array::<FCompressedChunkBlock, _>(&mut ar, -4).unwrap_err();
    assert!(is_format(&e, FormatError::InvalidArraySize));
    let mut ar = FByteArchive::new(vec![0u8; 8]);
    let r = read_sized_serializable_array::<FCompressedChunkBlock, _>(&mut ar, 2);
    assert!(matches!(r, Err(UpkError::Io)));
}

#[test]
fn array_of_strings_and_integers() {
    let mut data = 2i32.to_le_bytes().to_vec();
    data.extend(fstring_bytes(3, b"abc"));
    data.extend(fstring_bytes(0, &[]));
    data.extend_from_slice(&3i32.to_le_bytes());
    for v in [7i32, -8, 9] {
        data.extend_from_slice(&v.to_le_bytes());
    }
    let mut ar = FByteArchive::new(data);
    let names: Vec<String> = read_array(&mut ar).unwrap();
    assert_eq!(names, vec!["abc".to_string(), String::new()]);
    let ints: Vec<i32> = read_array(&mut ar).unwrap();
    assert_eq!(ints, vec![7, -8, 9]);
}

#[test]
fn read_serializable_reads_one_record() {
    let mut ar = FByteArchive::new(vec![5, 0, 0, 0, 6, 0, 0, 0]);
    let b: FCompressedChunkBlock = read_serializable(&mut ar).unwrap();
    assert_eq!(b, FCompressedChunkBlock { compressed_size: 5, uncompressed_size: 6 });
}

#[test]
fn parser_error_keeps_its_message() {
    assert_eq!(ParserError::new("Package not found.").message, "Package not found.");
}

#[test]
fn only_files_are_physical() {
    assert!(FileProviderType::Files.is_physical());
    assert!(!FileProviderType::Streamed.is_physical());
}

#[test]
fn game_file_is_found_without_regard_to_case() {
    let names = vec!["a_T_SF.upk".to_string(), "Core_T_SF.upk".to_string(), "core_t_sf.UPK".to_string()];
    assert_eq!(find_game_file(&names, "CORE_t_sf.upk"), Some(1));
    assert_eq!(find_game_file(&names, "A_t_sf.upk"), Some(0));
    assert_eq!(find_game_file(&names, "missing.upk"), None);
    assert_eq!(find_game_file(&vec![], "a"), None);
}
