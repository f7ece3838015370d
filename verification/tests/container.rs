use xfbin_lib_rs::error::NuccError;
use xfbin_lib_rs::nucc::AnyStruct;
use xfbin_lib_rs::nucc::NuccBinary;
use xfbin_lib_rs::nucc::NuccStructInfo;
use xfbin_lib_rs::nucc::NuccUnknown;
use xfbin_lib_rs::read_xfbin_bytes;
use xfbin_lib_rs::write_xfbin_bytes;
use xfbin_lib_rs::xfbin::Xfbin;
use xfbin_lib_rs::xfbin::XfbinPage;
use xfbin_lib_rs::xfbin_file::XfbinFile;

fn put_u16(out: &mut Vec<u8>, v: u16) {
    out.extend_from_slice(&v.to_be_bytes());
}

fn put_u32(out: &mut Vec<u8>, v: u32) {
    out.extend_from_slice(&v.to_be_bytes());
}

fn pool(strings: &[&str]) -> Vec<u8> {
    let mut out = Vec::new();
    for s in strings {
        out.extend_from_slice(s.as_bytes());
        out.push(0);
    }
    out
}

fn frame(out: &mut Vec<u8>, map_index: u32, version: u16, payload: &[u8]) {
    put_u32(out, payload.len() as u32);
    put_u32(out, map_index);
    put_u16(out, version);
    put_u16(out, 0);
    out.extend_from_slice(payload);
}

/// A container written out by hand: header, index, frames.
fn container(
    version: u16,
    min_page_size: u32,
    types: &[&str],
    paths: &[&str],
    names: &[&str],
    maps: &[(u32, u32, u32)],
    references: &[(u32, u32)],
    map_indices: &[u32],
    frames: &[u8],
) -> Vec<u8> {
    let types_bytes = pool(types);
    let paths_bytes = pool(paths);
    let names_bytes = pool(names);
    let pools = types_bytes.len() + paths_bytes.len() + names_bytes.len();
    let pad = (4 - pools % 4) % 4;
    let table_size = 0x28 + pools + pad + 12 * maps.len() + 4 * map_indices.len();
    let mut out = Vec::new();
    out.extend_from_slice(b"NUCC");
    put_u32(&mut out, version as u32);
    out.extend_from_slice(&[0u8; 8]);
    put_u32(&mut out, table_size as u32);
    put_u32(&mut out, min_page_size);
    put_u16(&mut out, version);
    put_u16(&mut out, 0);
    put_u32(&mut out, types.len() as u32);
    put_u32(&mut out, types_bytes.len() as u32);
    put_u32(&mut out, paths.len() as u32);
    put_u32(&mut out, paths_bytes.len() as u32);
    put_u32(&mut out, names.len() as u32);
    put_u32(&mut out, names_bytes.len() as u32);
    put_u32(&mut out, maps.len() as u32);
    put_u32(&mut out, 12 * maps.len() as u32);
    put_u32(&mut out, map_indices.len() as u32);
    put_u32(&mut out, references.len() as u32);
    out.extend_from_slice(&types_bytes);
    out.extend_from_slice(&paths_bytes);
    out.extend_from_slice(&names_bytes);
    out.extend_from_slice(&vec![0u8; pad]);
    for m in maps {
        put_u32(&mut out, m.0);
        put_u32(&mut out, m.1);
        put_u32(&mut out, m.2);
    }
    for r in references {
        put_u32(&mut out, r.0);
        put_u32(&mut out, r.1);
    }
    for i in map_indices {
        put_u32(&mut out, *i);
    }
    out.extend_from_slice(frames);
    out
}

fn page_payload(map_index_count: u32, reference_count: u32) -> Vec<u8> {
    let mut out = Vec::new();
    put_u32(&mut out, map_index_count);
    put_u32(&mut out, reference_count);
    out
}

fn minimal_file() -> Vec<u8> {
    let mut frames = Vec::new();
    frame(&mut frames, 0, 121, &[]);
    frame(&mut frames, 1, 121, &page_payload(3, 0));
    container(
        121,
        32,
        &["nuccChunkNull", "nuccChunkPage", "nuccChunkIndex"],
        &[""],
        &["", "Page0", "index"],
        &[(0, 0, 0), (1, 0, 1), (2, 0, 2)],
        &[],
        &[0, 1, 2],
        &frames,
    )
}

fn binary_file() -> Vec<u8> {
    let mut payload = Vec::new();
    put_u32(&mut payload, 5);
    payload.extend_from_slice(&[1, 2, 3, 4, 5]);
    let mut frames = Vec::new();
    frame(&mut frames, 0, 121, &[]);
    frame(&mut frames, 3, 121, &payload);
    frame(&mut frames, 1, 121, &page_payload(4, 0));
    container(
        121,
        12 + 12 + 9 + 12 + 8,
        &["nuccChunkNull", "nuccChunkPage", "nuccChunkIndex", "nuccChunkBinary"],
        &["", "data/blob.bin"],
        &["", "Page0", "index", "blob"],
        &[(0, 0, 0), (1, 0, 1), (2, 0, 2), (3, 1, 3)],
        &[],
        &[0, 1, 2, 3],
        &frames,
    )
}

fn texture_file() -> Vec<u8> {
    let mut frames = Vec::new();
    frame(&mut frames, 0, 121, &[]);
    frame(&mut frames, 3, 121, &[0xDE, 0xAD, 0xBE, 0xEF]);
    frame(&mut frames, 1, 121, &page_payload(4, 0));
    container(
        121,
        12 + 12 + 4 + 12 + 8,
        &["nuccChunkNull", "nuccChunkPage", "nuccChunkIndex", "nuccChunkTexture"],
        &["", "tex/a.dds"],
        &["", "Page0", "index", "a"],
        &[(0, 0, 0), (1, 0, 1), (2, 0, 2), (3, 1, 3)],
        &[],
        &[0, 1, 2, 3],
        &frames,
    )
}

fn info(chunk_type: &str, file_path: &str, chunk_name: &str) -> NuccStructInfo {
    NuccStructInfo {
        chunk_name: chunk_name.to_string(),
        file_path: file_path.to_string(),
        chunk_type: chunk_type.to_string(),
    }
}

#[test]
fn minimal_empty_file_reads_as_one_empty_page() {
    let doc = read_xfbin_bytes(minimal_file()).unwrap();
    assert_eq!(doc.version, 121);
    assert_eq!(doc.pages.len(), 1);
    assert!(doc.pages[0].structs.is_empty());
    assert_eq!(
        doc.pages[0].struct_infos,
        vec![
            info("nuccChunkNull", "", ""),
            info("nuccChunkPage", "", "Page0"),
            info("nuccChunkIndex", "", "index"),
        ]
    );
    assert!(doc.pages[0].struct_references.is_empty());
}

#[test]
fn minimal_empty_file_round_trips() {
    let bytes = minimal_file();
    let doc = read_xfbin_bytes(bytes.clone()).unwrap();
    assert_eq!(write_xfbin_bytes(doc).unwrap(), bytes);
}

#[test]
fn empty_document_writes_the_minimal_file() {
    let doc = Xfbin { version: 121, pages: vec![XfbinPage::default()] };
    assert_eq!(write_xfbin_bytes(doc).unwrap(), minimal_file());
}

#[test]
fn single_binary_chunk_is_read() {
    let doc = read_xfbin_bytes(binary_file()).unwrap();
    assert_eq!(doc.pages.len(), 1);
    assert_eq!(doc.pages[0].structs.len(), 1);
    match &doc.pages[0].structs[0] {
        AnyStruct::Binary(b) => {
            assert_eq!(b.data, vec![1, 2, 3, 4, 5]);
            assert_eq!(b.version, 121);
            assert_eq!(b.struct_info, info("nuccChunkBinary", "data/blob.bin", "blob"));
        }
        other => panic!("not a binary chunk: {:?}", other),
    }
    assert_eq!(doc.pages[0].struct_infos.len(), 4);
    assert_eq!(doc.pages[0].struct_infos[3], info("nuccChunkBinary", "data/blob.bin", "blob"));
    assert!(doc.pages[0].struct_references.is_empty());
}

#[test]
fn single_binary_chunk_round_trips() {
    let bytes = binary_file();
    let doc = read_xfbin_bytes(bytes.clone()).unwrap();
    assert_eq!(write_xfbin_bytes(doc).unwrap(), bytes);
}

#[test]
fn unknown_chunk_is_preserved() {
    let bytes = texture_file();
    let doc = read_xfbin_bytes(bytes.clone()).unwrap();
    match &doc.pages[0].structs[0] {
        AnyStruct::Unknown(u) => {
            assert_eq!(u.data, vec![0xDE, 0xAD, 0xBE, 0xEF]);
            assert_eq!(u.chunk_type, "nuccChunkTexture");
            assert_eq!(u.struct_info, info("nuccChunkTexture", "tex/a.dds", "a"));
        }
        other => panic!("not an unknown chunk: {:?}", other),
    }
    assert_eq!(doc.pages[0].struct_infos.len(), 4);
    assert_eq!(doc.pages[0].struct_infos[3], info("nuccChunkTexture", "tex/a.dds", "a"));
    assert!(doc.pages[0].has_unknown_chunk());
    assert_eq!(write_xfbin_bytes(doc).unwrap(), bytes);
}

#[test]
fn preserved_tables_keep_their_order_on_write() {
    // The file lists the texture before the page chunk and the index; a page
    // with an unknown chunk keeps that order.
    let mut frames = Vec::new();
    frame(&mut frames, 0, 121, &[]);
    frame(&mut frames, 1, 121, &[9, 9]);
    frame(&mut frames, 2, 121, &page_payload(4, 0));
    let bytes = container(
        121,
        12 + 12 + 2 + 12 + 8,
        &["nuccChunkNull", "nuccChunkTexture", "nuccChunkPage", "nuccChunkIndex"],
        &["", "tex/a.dds"],
        &["", "a", "Page0", "index"],
        &[(0, 0, 0), (1, 1, 1), (2, 0, 2), (3, 0, 3)],
        &[],
        &[0, 1, 2, 3],
        &frames,
    );
    let doc = read_xfbin_bytes(bytes.clone()).unwrap();
    assert_eq!(write_xfbin_bytes(doc).unwrap(), bytes);
}

#[test]
fn two_pages_share_the_file_level_identities() {
    let blob = |name: &str, data: Vec<u8>| {
        AnyStruct::Binary(NuccBinary {
            struct_info: info("nuccChunkBinary", "data/blob.bin", name),
            version: 121,
            data,
        })
    };
    let doc = Xfbin {
        version: 121,
        pages: vec![
            XfbinPage { structs: vec![blob("a", vec![1])], ..XfbinPage::default() },
            XfbinPage {
                structs: vec![blob("a", vec![2]), blob("b", vec![3, 4])],
                ..XfbinPage::default()
            },
        ],
    };
    let bytes = write_xfbin_bytes(doc).unwrap();
    let file = XfbinFile::read(&bytes).unwrap();
    // Null, Page, Index, a, b: each identity once.
    assert_eq!(file.index.chunk_maps.len(), 5);
    // Page one contributes four identities, page two five.
    assert_eq!(file.index.chunk_map_indices, vec![0, 1, 2, 3, 0, 1, 2, 3, 4]);
    assert_eq!(file.index.chunk_types.count, 4);
    assert_eq!(file.index.file_paths.count, 2);
    assert_eq!(file.index.chunk_names.count, 5);
    // Null frame, chunks and page frame for each page.
    assert_eq!(file.chunks.len(), 3 + 4);
    let back = read_xfbin_bytes(bytes.clone()).unwrap();
    assert_eq!(back.pages.len(), 2);
    assert_eq!(back.pages[1].structs.len(), 2);
    assert_eq!(write_xfbin_bytes(back).unwrap(), bytes);
}

#[test]
fn page_chunk_counts_match_what_the_page_contributed() {
    let doc = Xfbin {
        version: 121,
        pages: vec![XfbinPage {
            structs: vec![AnyStruct::Unknown(NuccUnknown {
                struct_info: info("nuccChunkTexture", "t", "n"),
                version: 3,
                data: vec![7],
                chunk_type: "nuccChunkTexture".to_string(),
            })],
            struct_infos: vec![info("nuccChunkNull", "", ""), info("nuccChunkModel", "m", "x")],
            struct_references: vec![],
        }],
    };
    let bytes = write_xfbin_bytes(doc).unwrap();
    let file = XfbinFile::read(&bytes).unwrap();
    let last = file.chunks.last().unwrap();
    // Preserved: Null, Model; added: Page, Index, Texture.
    assert_eq!(last.chunk_buffer, page_payload(5, 0));
    assert_eq!(file.index.chunk_map_indices.len(), 5);
    assert_eq!(file.chunks[1].chunk_map_index, 4);
    assert_eq!(file.chunks[1].version, 3);
}

#[test]
fn table_size_leaves_the_references_out() {
    let file = XfbinFile::read(&minimal_file()).unwrap();
    assert_eq!(file.index.calculate_table_size(), Some(0x28 + 57 + 3 + 36 + 12));
    assert_eq!(file.index.min_page_size, 32);
}

#[test]
fn trailing_short_frame_is_passed_over() {
    let mut bytes = minimal_file();
    let whole = read_xfbin_bytes(bytes.clone()).unwrap();
    bytes.extend_from_slice(&[0, 0, 0, 9, 0, 0]);
    assert_eq!(read_xfbin_bytes(bytes).unwrap(), whole);
}

#[test]
fn chunks_behind_the_last_page_chunk_belong_to_no_page() {
    let mut payload = Vec::new();
    put_u32(&mut payload, 1);
    payload.push(9);
    let mut frames = Vec::new();
    frame(&mut frames, 0, 121, &[]);
    frame(&mut frames, 1, 121, &page_payload(3, 0));
    // A null frame and a binary frame that no page chunk closes.
    frame(&mut frames, 0, 121, &[]);
    frame(&mut frames, 1, 121, &payload);
    let bytes = container(
        121,
        32,
        &["nuccChunkNull", "nuccChunkPage", "nuccChunkIndex", "nuccChunkBinary"],
        &[""],
        &["", "Page0", "index", "late"],
        &[(0, 0, 0), (1, 0, 1), (2, 0, 2), (3, 0, 3)],
        &[],
        &[0, 1, 2, 0, 3],
        &frames,
    );
    let doc = read_xfbin_bytes(bytes).unwrap();
    assert_eq!(doc.pages.len(), 1);
    assert!(doc.pages[0].structs.is_empty());
}

#[test]
fn frame_that_points_past_the_identities_is_a_count_mismatch() {
    let mut bytes = minimal_file();
    let mut extra = Vec::new();
    frame(&mut extra, 0, 121, &[]);
    bytes.extend_from_slice(&extra);
    assert_eq!(read_xfbin_bytes(bytes).err(), Some(NuccError::CountMismatch));
}

#[test]
fn bad_magic_is_rejected() {
    let mut bytes = minimal_file();
    bytes[3] = b'X';
    assert_eq!(read_xfbin_bytes(bytes).err(), Some(NuccError::BadMagic));
}

#[test]
fn short_header_is_truncated_input() {
    assert_eq!(read_xfbin_bytes(vec![b'N', b'U']).err(), Some(NuccError::TruncatedInput));
    assert_eq!(
        read_xfbin_bytes(b"NUCC\0\0\0\x79".to_vec()).err(),
        Some(NuccError::TruncatedInput)
    );
}

#[test]
fn cut_index_is_truncated_input() {
    let bytes = minimal_file();
    assert_eq!(read_xfbin_bytes(bytes[..80].to_vec()).err(), Some(NuccError::TruncatedInput));
}

#[test]
fn encrypted_container_is_unsupported() {
    let mut bytes = minimal_file();
    bytes[9] = 1;
    assert_eq!(read_xfbin_bytes(bytes).err(), Some(NuccError::UnsupportedFeature));
}

#[test]
fn wrong_string_count_is_a_count_mismatch() {
    let mut frames = Vec::new();
    frame(&mut frames, 0, 121, &[]);
    frame(&mut frames, 1, 121, &page_payload(3, 0));
    let mut bytes = container(
        121,
        32,
        &["nuccChunkNull", "nuccChunkPage", "nuccChunkIndex"],
        &[""],
        &["", "Page0", "index"],
        &[(0, 0, 0), (1, 0, 1), (2, 0, 2)],
        &[],
        &[0, 1, 2],
        &frames,
    );
    // The count of names, at offset 16 + 28.
    bytes[16 + 31] = 4;
    assert_eq!(read_xfbin_bytes(bytes).err(), Some(NuccError::CountMismatch));
}

#[test]
fn map_entry_outside_its_pool_is_a_count_mismatch() {
    let mut frames = Vec::new();
    frame(&mut frames, 0, 121, &[]);
    let bytes = container(
        121,
        0,
        &["nuccChunkNull"],
        &[""],
        &[""],
        &[(1, 0, 0)],
        &[],
        &[0],
        &frames,
    );
    assert_eq!(read_xfbin_bytes(bytes).err(), Some(NuccError::CountMismatch));
}

#[test]
fn page_chunk_that_counts_too_much_is_a_count_mismatch() {
    let mut frames = Vec::new();
    frame(&mut frames, 0, 121, &[]);
    frame(&mut frames, 1, 121, &page_payload(4, 0));
    let bytes = container(
        121,
        32,
        &["nuccChunkNull", "nuccChunkPage", "nuccChunkIndex"],
        &[""],
        &["", "Page0", "index"],
        &[(0, 0, 0), (1, 0, 1), (2, 0, 2)],
        &[],
        &[0, 1, 2],
        &frames,
    );
    assert_eq!(read_xfbin_bytes(bytes).err(), Some(NuccError::CountMismatch));
}

#[test]
fn shift_jis_names_are_decoded() {
    // 0x83 0x41 is KATAKANA LETTER A in code page 932.
    let mut frames = Vec::new();
    frame(&mut frames, 0, 121, &[]);
    frame(&mut frames, 3, 121, &[1]);
    frame(&mut frames, 1, 121, &page_payload(4, 0));
    let mut names = pool(&["", "Page0", "index"]);
    names.extend_from_slice(&[0x83, 0x41, 0]);
    let types = pool(&["nuccChunkNull", "nuccChunkPage", "nuccChunkIndex", "nuccChunkTexture"]);
    let paths = pool(&[""]);
    let pools = types.len() + paths.len() + names.len();
    let pad = (4 - pools % 4) % 4;
    let mut bytes = Vec::new();
    bytes.extend_from_slice(b"NUCC");
    put_u32(&mut bytes, 121);
    bytes.extend_from_slice(&[0u8; 8]);
    put_u32(&mut bytes, (0x28 + pools + pad + 48 + 16) as u32);
    put_u32(&mut bytes, 0);
    put_u16(&mut bytes, 121);
    put_u16(&mut bytes, 0);
    for (count, len) in [(4, types.len()), (1, paths.len()), (4, names.len()), (4, 48)] {
        put_u32(&mut bytes, count);
        put_u32(&mut bytes, len as u32);
    }
    put_u32(&mut bytes, 4);
    put_u32(&mut bytes, 0);
    bytes.extend_from_slice(&types);
    bytes.extend_from_slice(&paths);
    bytes.extend_from_slice(&names);
    bytes.extend_from_slice(&vec![0u8; pad]);
    for m in [(0u32, 0u32, 0u32), (1, 0, 1), (2, 0, 2), (3, 0, 3)] {
        put_u32(&mut bytes, m.0);
        put_u32(&mut bytes, m.1);
        put_u32(&mut bytes, m.2);
    }
    for i in 0..4u32 {
        put_u32(&mut bytes, i);
    }
    bytes.extend_from_slice(&frames);
    let doc = read_xfbin_bytes(bytes).unwrap();
    match &doc.pages[0].structs[0] {
        AnyStruct::Unknown(u) => assert_eq!(u.struct_info.chunk_name, "\u{30A2}"),
        other => panic!("not an unknown chunk: {:?}", other),
    }
}

#[test]
fn malformed_shift_jis_is_a_string_decode_error() {
    // 0x81 opens a two-byte sequence that 0xFF cannot close.
    let mut frames = Vec::new();
    frame(&mut frames, 0, 121, &[]);
    let types = pool(&["nuccChunkNull"]);
    let paths = pool(&[""]);
    let names = vec![0x81, 0xFF, 0];
    let pools = types.len() + paths.len() + names.len();
    let pad = (4 - pools % 4) % 4;
    let mut bytes = Vec::new();
    bytes.extend_from_slice(b"NUCC");
    put_u32(&mut bytes, 121);
    bytes.extend_from_slice(&[0u8; 8]);
    put_u32(&mut bytes, 0);
    put_u32(&mut bytes, 0);
    put_u16(&mut bytes, 121);
    put_u16(&mut bytes, 0);
    for (count, len) in [(1, types.len()), (1, paths.len()), (1, names.len()), (1, 12)] {
        put_u32(&mut bytes, count);
        put_u32(&mut bytes, len as u32);
    }
    put_u32(&mut bytes, 1);
    put_u32(&mut bytes, 0);
    bytes.extend_from_slice(&types);
    bytes.extend_from_slice(&paths);
    bytes.extend_from_slice(&names);
    bytes.extend_from_slice(&vec![0u8; pad]);
    bytes.extend_from_slice(&[0u8; 12]);
    put_u32(&mut bytes, 0);
    bytes.extend_from_slice(&frames);
    assert_eq!(read_xfbin_bytes(bytes).err(), Some(NuccError::StringDecode));
}

#[test]
fn names_in_code_page_932_are_written_as_they_were_read() {
    // KATAKANA LETTER A is 0x83 0x41 in code page 932.
    let doc = || Xfbin {
        version: 121,
        pages: vec![XfbinPage {
            structs: vec![AnyStruct::Binary(NuccBinary {
                struct_info: info("nuccChunkBinary", "data/\u{30a2}.bin", "\u{30a2}"),
                version: 121,
                data: vec![9],
            })],
            ..XfbinPage::default()
        }],
    };
    let bytes = write_xfbin_bytes(doc()).unwrap();
    let file = XfbinFile::read(&bytes).unwrap();
    assert!(file.index.chunk_names.data.ends_with(&[0x83, 0x41, 0]));
    let back = read_xfbin_bytes(bytes.clone()).unwrap();
    assert_eq!(back.pages[0].structs, doc().pages[0].structs);
    assert_eq!(write_xfbin_bytes(back).unwrap(), bytes);
}

#[test]
fn name_outside_code_page_932_cannot_be_written() {
    let doc = Xfbin {
        version: 121,
        pages: vec![XfbinPage {
            structs: vec![AnyStruct::Binary(NuccBinary {
                struct_info: info("nuccChunkBinary", "a.bin", "\u{e9}"),
                version: 121,
                data: vec![9],
            })],
            ..XfbinPage::default()
        }],
    };
    assert_eq!(write_xfbin_bytes(doc).err(), Some(NuccError::StringDecode));
}
