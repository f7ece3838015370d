use xfbin_lib_rs::error::NuccError;
use xfbin_lib_rs::nucc::NuccStructInfo;
use xfbin_lib_rs::nucc::NuccStructReference;
use xfbin_lib_rs::nucc_chunk::NuccChunkIndex;
use xfbin_lib_rs::nucc_chunk::NuccChunkNull;
use xfbin_lib_rs::nucc_chunk::NuccChunkPage;
use xfbin_lib_rs::nucc_chunk::NuccChunkType;
use xfbin_lib_rs::round_trip::is_kept;
use xfbin_lib_rs::table::Table;
use xfbin_lib_rs::utils::DekuString;
use xfbin_lib_rs::utils::deku_align;
use xfbin_lib_rs::utils::encode_text;
use xfbin_lib_rs::utils::find_nul;
use xfbin_lib_rs::utils::read_i16;
use xfbin_lib_rs::utils::read_i32;
use xfbin_lib_rs::utils::read_u16;
use xfbin_lib_rs::utils::read_u32;
use xfbin_lib_rs::utils::read_u8;
use xfbin_lib_rs::utils::write_i16;
use xfbin_lib_rs::utils::write_i32;
use xfbin_lib_rs::utils::write_u16;
use xfbin_lib_rs::utils::write_u32;
use xfbin_lib_rs::xfbin_file::XfbinDataBuffer;

#[test]
fn align_gives_the_padding_to_the_next_multiple() {
    assert_eq!(deku_align(0, 4), 0);
    assert_eq!(deku_align(1, 4), 3);
    assert_eq!(deku_align(2, 4), 2);
    assert_eq!(deku_align(3, 4), 1);
    assert_eq!(deku_align(4, 4), 0);
    assert_eq!(deku_align(57, 4), 3);
    assert_eq!(deku_align(10, 16), 6);
    assert_eq!(deku_align(u32::MAX, 4), 1);
    assert_eq!(deku_align(7, 1), 0);
}

#[test]
fn primitives_are_big_endian() {
    let data = vec![0x12, 0x34, 0x56, 0x78, 0xFF, 0xFE];
    assert_eq!(read_u8(&data, 1), Ok(0x34));
    assert_eq!(read_u16(&data, 0), Ok(0x1234));
    assert_eq!(read_u32(&data, 0), Ok(0x12345678));
    assert_eq!(read_u32(&data, 2), Ok(0x5678FFFE));
    assert_eq!(read_i16(&data, 4), Ok(-2));
    assert_eq!(read_i32(&data, 2), Ok(0x5678FFFE));
    assert_eq!(read_i32(&vec![0xFF, 0xFF, 0xFF, 0xF6], 0), Ok(-10));
    assert_eq!(read_i16(&vec![0x80, 0x00], 0), Ok(i16::MIN));
    assert_eq!(read_i32(&vec![0x80, 0, 0, 0], 0), Ok(i32::MIN));
    assert_eq!(read_u16(&data, 5), Err(NuccError::TruncatedInput));
    assert_eq!(read_u32(&data, 3), Err(NuccError::TruncatedInput));
    assert_eq!(read_u8(&data, 6), Err(NuccError::TruncatedInput));
    assert_eq!(read_u32(&data, usize::MAX), Err(NuccError::TruncatedInput));
}

#[test]
fn written_primitives_read_back() {
    let mut out = Vec::new();
    write_u16(&mut out, 0xABCD);
    write_u32(&mut out, 0xDEADBEEF);
    write_i16(&mut out, -3);
    write_i32(&mut out, i32::MIN);
    write_i32(&mut out, -1);
    assert_eq!(
        out,
        vec![0xAB, 0xCD, 0xDE, 0xAD, 0xBE, 0xEF, 0xFF, 0xFD, 0x80, 0, 0, 0, 0xFF, 0xFF, 0xFF, 0xFF]
    );
    assert_eq!(read_u16(&out, 0), Ok(0xABCD));
    assert_eq!(read_u32(&out, 2), Ok(0xDEADBEEF));
    assert_eq!(read_i16(&out, 6), Ok(-3));
    assert_eq!(read_i32(&out, 8), Ok(i32::MIN));
    assert_eq!(read_i32(&out, 12), Ok(-1));
}

#[test]
fn strings_end_at_their_nul() {
    let data = b"ab\0cd\0e".to_vec();
    assert_eq!(find_nul(&data, 0), 2);
    assert_eq!(find_nul(&data, 3), 5);
    assert_eq!(find_nul(&data, 6), 7);
    let (first, next) = DekuString::read(&data, 0).unwrap();
    assert_eq!(first.data, b"ab\0".to_vec());
    assert_eq!(next, 3);
    assert_eq!(first.into_string(), Ok("ab".to_string()));
    assert_eq!(DekuString::read(&data, 6).err(), Some(NuccError::TruncatedInput));
    assert_eq!(DekuString::from_string("xy".to_string()).unwrap().data, b"xy\0".to_vec());
    assert_eq!(
        DekuString::from_string("\u{30a2}".to_string()).unwrap().data,
        vec![0x83, 0x41, 0]
    );
    assert_eq!(
        DekuString::from_string("\u{e9}".to_string()).err(),
        Some(NuccError::StringDecode)
    );
}

#[test]
fn pool_strings_are_counted() {
    let pool = XfbinDataBuffer { data: b"ab\0\0cd\0tail".to_vec(), count: 3 };
    assert_eq!(
        pool.to_strings(),
        Ok(vec!["ab".to_string(), "".to_string(), "cd".to_string()])
    );
    let short = XfbinDataBuffer { data: b"ab\0".to_vec(), count: 2 };
    assert_eq!(short.to_strings(), Err(NuccError::CountMismatch));
    let built =
        XfbinDataBuffer::from_strings(vec!["nuccChunkNull".to_string(), "".to_string()]).unwrap();
    assert_eq!(built.count, 2);
    assert_eq!(built.data, b"nuccChunkNull\0\0".to_vec());
    assert_eq!(
        built.to_strings(),
        Ok(vec!["nuccChunkNull".to_string(), "".to_string()])
    );
}

#[test]
fn code_page_932_is_decoded() {
    // Half-width katakana KA, one byte; then a two-byte kanji.
    let item = DekuString { data: vec![0xB6, 0x93, 0xFA, 0x00] };
    assert_eq!(item.into_string(), Ok("\u{FF76}\u{65E5}".to_string()));
    let broken = DekuString { data: vec![0x81, 0x00] };
    assert_eq!(broken.into_string(), Err(NuccError::StringDecode));
}

#[test]
fn chunk_types_have_camel_case_names() {
    let all = [
        (NuccChunkType::NuccChunkUnknown, "nuccChunkUnknown"),
        (NuccChunkType::NuccChunkNull, "nuccChunkNull"),
        (NuccChunkType::NuccChunkPage, "nuccChunkPage"),
        (NuccChunkType::NuccChunkIndex, "nuccChunkIndex"),
        (NuccChunkType::NuccChunkAnm, "nuccChunkAnm"),
        (NuccChunkType::NuccChunkBinary, "nuccChunkBinary"),
    ];
    for (kind, name) in all {
        assert_eq!(kind.to_string(), name);
        assert_eq!(NuccChunkType::from_str(name), kind);
    }
    assert_eq!(NuccChunkType::from_str("nuccChunkTexture"), NuccChunkType::NuccChunkUnknown);
    assert_eq!(NuccChunkType::from_str("NuccChunkNull"), NuccChunkType::NuccChunkUnknown);
    assert_eq!(NuccChunkType::from_str(""), NuccChunkType::NuccChunkUnknown);
    assert_eq!(NuccChunkType::default(), NuccChunkType::NuccChunkUnknown);
}

#[test]
fn default_chunk_infos_bear_the_canonical_names() {
    assert_eq!(NuccChunkNull::default_chunk_info(), info("nuccChunkNull", "", ""));
    assert_eq!(NuccChunkPage::default_chunk_info(), info("nuccChunkPage", "", "Page0"));
    assert_eq!(NuccChunkIndex::default_chunk_info(), info("nuccChunkIndex", "", "index"));
}

fn info(chunk_type: &str, file_path: &str, chunk_name: &str) -> NuccStructInfo {
    NuccStructInfo {
        chunk_name: chunk_name.to_string(),
        file_path: file_path.to_string(),
        chunk_type: chunk_type.to_string(),
    }
}

#[test]
fn tables_number_values_by_first_arrival() {
    let mut table: Table<NuccStructInfo> = Table::new();
    assert_eq!(table.intern(info("t", "p", "a")), Ok(0));
    assert_eq!(table.intern(info("t", "p", "b")), Ok(1));
    assert_eq!(table.intern(info("t", "p", "a")), Ok(0));
    // The three texts are told apart by their place, not by their joining.
    assert_eq!(table.intern(info("tp", "", "a")), Ok(2));
    assert_eq!(table.intern(info("t", "pa", "")), Ok(3));
    assert_eq!(table.len(), 4);
    assert_eq!(table.find(&info("t", "p", "b")), Some(1));
    assert_eq!(table.find(&info("t", "p", "c")), None);
    assert_eq!(
        table.intern_all(&vec![info("x", "", ""), info("t", "p", "b"), info("x", "", "")]),
        Ok(vec![4, 1, 4])
    );
    assert_eq!(table.items().len(), 5);
    assert_eq!(table.items()[4], info("x", "", ""));
}

#[test]
fn preloaded_tables_keep_repetitions() {
    let items = vec!["a".to_string(), "b".to_string(), "a".to_string()];
    let mut table = Table::from_items(&items).unwrap();
    assert_eq!(table.len(), 3);
    assert_eq!(table.find(&"a".to_string()), Some(0));
    assert_eq!(table.intern("c".to_string()), Ok(3));
    assert_eq!(table.intern("b".to_string()), Ok(1));
    assert_eq!(table.into_items(), vec!["a", "b", "a", "c"]);
}

#[test]
fn references_are_told_apart_by_name_and_target() {
    let mut table: Table<NuccStructReference> = Table::new();
    let r = |n: &str, t: &str| NuccStructReference(n.to_string(), info("k", "p", t));
    assert_eq!(table.intern(r("a", "x")), Ok(0));
    assert_eq!(table.intern(r("a", "y")), Ok(1));
    assert_eq!(table.intern(r("b", "x")), Ok(2));
    assert_eq!(table.intern(r("a", "x")), Ok(0));
}

#[test]
fn plain_text_is_kept_by_a_pool() {
    assert!(is_kept(&"nuccChunkAnm".to_string()));
    assert!(is_kept(&"c\\chr\\1cmn\\anm.max".to_string()));
    assert!(is_kept(&String::new()));
}

#[test]
fn text_with_a_nul_is_not_kept_by_a_pool() {
    assert!(!is_kept(&"a\0b".to_string()));
}

#[test]
fn text_of_code_page_932_is_kept_by_a_pool() {
    assert!(is_kept(&"\u{3042}\u{30a2}".to_string()));
}

#[test]
fn text_outside_code_page_932_is_not_kept_by_a_pool() {
    assert!(!is_kept(&"\u{e9}".to_string()));
}

#[test]
fn pool_of_a_text_outside_code_page_932_is_a_string_decode_error() {
    assert_eq!(
        XfbinDataBuffer::from_strings(vec!["ab".to_string(), "\u{e9}".to_string()]).err(),
        Some(NuccError::StringDecode)
    );
    assert_eq!(encode_text(&"\u{3042}".to_string()), Ok(vec![0x82, 0xa0]));
}
