use xfbin_lib_rs::error::NuccError;
use xfbin_lib_rs::nucc::nucc_anm::clump::ClumpInfo;
use xfbin_lib_rs::nucc::nucc_anm::curve::Channel;
use xfbin_lib_rs::nucc::nucc_anm::curve::Curve;
use xfbin_lib_rs::nucc::nucc_anm::curve::CurveChunkConverter;
use xfbin_lib_rs::nucc::nucc_anm::curve::InterpolationType;
use xfbin_lib_rs::nucc::nucc_anm::curve::Keyframes;
use xfbin_lib_rs::nucc::nucc_anm::curve::Quaternion;
use xfbin_lib_rs::nucc::nucc_anm::curve::QuaternionShort;
use xfbin_lib_rs::nucc::nucc_anm::curve::Vector2;
use xfbin_lib_rs::nucc::nucc_anm::curve::Vector3;
use xfbin_lib_rs::nucc::nucc_anm::curve::Vector3Short;
use xfbin_lib_rs::nucc::nucc_anm::curve::RGB;
use xfbin_lib_rs::nucc::nucc_anm::entry::Entry;
use xfbin_lib_rs::nucc::nucc_anm::entry::EntryFormat;
use xfbin_lib_rs::nucc::nucc_anm::entry::EntryInfo;
use xfbin_lib_rs::nucc::nucc_anm::NuccAnm;
use xfbin_lib_rs::nucc::AnyStruct;
use xfbin_lib_rs::nucc::NuccStructInfo;
use xfbin_lib_rs::nucc::NuccStructReference;
use xfbin_lib_rs::nucc_chunk::nucc_chunk_anm::clump::Clump as ChunkClump;
use xfbin_lib_rs::nucc_chunk::nucc_chunk_anm::curve::Curve as ChunkCurve;
use xfbin_lib_rs::nucc_chunk::nucc_chunk_anm::entry::Entry as ChunkEntry;
use xfbin_lib_rs::nucc_chunk::nucc_chunk_anm::entry::EntryFormat as ChunkEntryFormat;
use xfbin_lib_rs::nucc_chunk::ClumpCoordIndex;
use xfbin_lib_rs::nucc_chunk::CurveFormat;
use xfbin_lib_rs::nucc_chunk::CurveHeader;
use xfbin_lib_rs::nucc_chunk::NuccChunkAnm;
use xfbin_lib_rs::nucc_chunk::ParentChildIndex;
use xfbin_lib_rs::read_xfbin_bytes;
use xfbin_lib_rs::table::Table;
use xfbin_lib_rs::write_xfbin_bytes;
use xfbin_lib_rs::xfbin::Xfbin;
use xfbin_lib_rs::xfbin::XfbinPage;

fn info(chunk_type: &str, file_path: &str, chunk_name: &str) -> NuccStructInfo {
    NuccStructInfo {
        chunk_name: chunk_name.to_string(),
        file_path: file_path.to_string(),
        chunk_type: chunk_type.to_string(),
    }
}

fn reference(name: &str) -> NuccStructReference {
    NuccStructReference(name.to_string(), info("nuccChunkCoord", "a.max", name))
}

fn header(curve_index: u16, curve_format: CurveFormat, frame_count: u16) -> CurveHeader {
    CurveHeader { curve_index, curve_format, frame_count, unk_size_flags: 0 }
}

fn bare_entry(clump: i16, slot: u16) -> ChunkEntry {
    ChunkEntry {
        coord_index: ClumpCoordIndex(clump, slot),
        entry_format: ChunkEntryFormat::Coord,
        curve_headers: vec![],
        curves: vec![],
    }
}

fn wire_anm(
    clumps: Vec<ChunkClump>,
    others: Vec<u32>,
    edges: Vec<((i16, u16), (i16, u16))>,
    entries: Vec<ChunkEntry>,
) -> NuccChunkAnm {
    NuccChunkAnm {
        version: 121,
        frame_count: 100,
        frame_size: 100,
        unk: 0,
        clumps,
        other_entry_chunk_indices: others,
        unk_entry_chunk_indices: vec![],
        coord_parents: edges
            .into_iter()
            .map(|(p, c)| ParentChildIndex(ClumpCoordIndex(p.0, p.1), ClumpCoordIndex(c.0, c.1)))
            .collect(),
        entries,
    }
}

fn refs(n: usize) -> Vec<NuccStructReference> {
    (0..n).map(|i| reference(&format!("bone{}", i))).collect()
}

fn opacity_entry_bytes() -> Vec<u8> {
    let mut bytes = vec![
        0x00, 0x00, 0x00, 0x00, // place (0, 0)
        0x00, 0x01, // Coord
        0x00, 0x01, // one curve
        0x00, 0x03, 0x00, 0x0C, 0x00, 0x02, 0x00, 0x00, // header
    ];
    bytes.extend_from_slice(&[
        0x00, 0x00, 0x00, 0x00, 0x3F, 0x80, 0x00, 0x00, 0x00, 0x00, 0x00, 0x0A, 0x40, 0x00, 0x00,
        0x00,
    ]);
    bytes
}

#[test]
fn coord_entry_with_float_linear_opacity_curve() {
    let bytes = opacity_entry_bytes();
    let (wire, end) = ChunkEntry::read(&bytes, 0).unwrap();
    assert_eq!(end, bytes.len());
    assert_eq!(wire.curve_headers, vec![header(3, CurveFormat::FloatLinear, 2)]);
    let entry = Entry::from_chunk(&wire).unwrap();
    assert_eq!(entry.entry_format, EntryFormat::Coord);
    assert_eq!(entry.curves.len(), 1);
    let curve = &entry.curves[0];
    assert_eq!(curve.channel, Channel::Opacity);
    assert_eq!(curve.interp_type, InterpolationType::Linear);
    match curve.keyframes() {
        Keyframes::FloatLinear(frames) => {
            let values: Vec<(i32, f32)> =
                frames.iter().map(|(t, v)| (*t, f32::from_bits(*v))).collect();
            assert_eq!(values, vec![(0, 1.0), (10, 2.0)]);
        }
        other => panic!("not float linear: {:?}", other),
    }
}

#[test]
fn parent_child_tree_is_rebuilt() {
    let clumps = vec![
        ChunkClump { clump_index: 0, bone_material_indices: vec![1, 2, 3], model_indices: vec![] },
        ChunkClump { clump_index: 4, bone_material_indices: vec![], model_indices: vec![5] },
    ];
    let chunk = wire_anm(
        clumps,
        vec![],
        vec![((0, 0), (0, 1)), ((0, 1), (0, 2))],
        vec![bare_entry(0, 0), bare_entry(0, 1), bare_entry(0, 2)],
    );
    let references = refs(6);
    let anm = NuccAnm::from_parts(&chunk, &[], &references).unwrap();
    assert_eq!(anm.clumps.len(), 2);
    assert_eq!(anm.clumps[0].clump_info, ClumpInfo::StructRef(reference("bone0")));
    let roots = &anm.clumps[0].root_entries;
    assert_eq!(roots.len(), 1);
    assert_eq!(roots[0].entry_info, EntryInfo::StructRef(reference("bone1")));
    assert_eq!(roots[0].children.len(), 1);
    assert_eq!(roots[0].children[0].entry_info, EntryInfo::StructRef(reference("bone2")));
    assert_eq!(roots[0].children[0].children.len(), 1);
    let leaf = &roots[0].children[0].children[0];
    assert_eq!(leaf.entry_info, EntryInfo::StructRef(reference("bone3")));
    assert!(leaf.children.is_empty());
    assert!(anm.clumps[1].root_entries.is_empty());
    assert_eq!(anm.clumps[1].model_struct_refs(), &vec![reference("bone5")]);
}

#[test]
fn unknown_curve_format_is_rejected() {
    let mut bytes = opacity_entry_bytes();
    bytes[11] = 0x42;
    assert_eq!(ChunkEntry::read(&bytes, 0).err(), Some(NuccError::UnknownCurveFormat));
    assert_eq!(CurveFormat::from_tag(0x42), Err(NuccError::UnknownCurveFormat));
}

#[test]
fn unknown_curve_format_fails_the_whole_read() {
    // An animation payload with one entry whose curve header bears 0x42.
    let mut payload = vec![0u8; 20];
    payload[9] = 1;
    let mut entry = opacity_entry_bytes();
    entry[11] = 0x42;
    payload.extend_from_slice(&entry);
    assert_eq!(NuccChunkAnm::read(&payload, 121).err(), Some(NuccError::UnknownCurveFormat));
}

#[test]
fn formats_without_codec_are_unimplemented() {
    for tag in [0x07u16, 0x09, 0x19] {
        let format = CurveFormat::from_tag(tag).unwrap();
        assert!(!format.is_implemented());
        assert_eq!(format.curve_len(1), Err(NuccError::UnimplementedCurveFormat));
    }
    let chunk = CurveChunkConverter(
        Channel::Location,
        header(0, CurveFormat::Vector3Bezier, 0),
        ChunkCurve { data: vec![] },
    );
    assert_eq!(Curve::from_chunk(chunk).err(), Some(NuccError::UnimplementedCurveFormat));
}

#[test]
fn curve_sizes_follow_the_table() {
    let table: [(u16, usize); 19] = [
        (0x05, 12),
        (0x06, 16),
        (0x08, 12),
        (0x0A, 20),
        (0x0B, 4),
        (0x0C, 8),
        (0x0D, 8),
        (0x0E, 12),
        (0x0F, 2),
        (0x10, 6),
        (0x11, 8),
        (0x14, 3),
        (0x15, 12),
        (0x16, 4),
        (0x17, 16),
        (0x18, 4),
        (0x1A, 12),
        (0x1B, 8),
        (0x1D, 2),
    ];
    for (tag, size) in table {
        let format = CurveFormat::from_tag(tag).unwrap();
        assert_eq!(format.tag(), tag);
        assert_eq!(format.size_per_frame(), size);
        for frames in [0u16, 1, 3, 7] {
            let raw = size * frames as usize;
            let padded = (raw + 3) / 4 * 4;
            assert_eq!(format.curve_len(frames), Ok(padded));
        }
    }
    // Three colour keyframes take nine bytes, padded to twelve.
    assert_eq!(CurveFormat::ColorRGBTable.curve_len(3), Ok(12));
    assert_eq!(CurveFormat::OpacityShortTable.curve_len(1), Ok(4));
}

#[test]
fn parsed_curves_consume_their_padded_size() {
    let mut bytes = vec![
        0x00, 0x00, 0x00, 0x00, 0x00, 0x01, 0x00, 0x02, // place, Coord, two curves
        0x00, 0x03, 0x00, 0x0F, 0x00, 0x01, 0x00, 0x00, // opacity short table, one frame
        0x00, 0x02, 0x00, 0x10, 0x00, 0x01, 0x00, 0x00, // scale short table, one frame
    ];
    bytes.extend_from_slice(&[0x00, 0x05, 0xAA, 0xAA]);
    bytes.extend_from_slice(&[0x00, 0x01, 0x00, 0x02, 0xFF, 0xFD, 0xBB, 0xBB]);
    let (wire, end) = ChunkEntry::read(&bytes, 0).unwrap();
    assert_eq!(end, bytes.len());
    assert_eq!(wire.curves[0].data.len(), 4);
    assert_eq!(wire.curves[1].data.len(), 8);
    let entry = Entry::from_chunk(&wire).unwrap();
    assert_eq!(entry.curves[0].keyframes(), &Keyframes::Opacity(vec![5]));
    assert_eq!(entry.curves[1].keyframes(), &Keyframes::Vector3Short(vec![Vector3Short(1, 2, -3)]));
    assert_eq!(entry.curves[1].channel, Channel::Scale);
    assert_eq!(entry.curves[1].interp_type, InterpolationType::NoInterpolation);
}

#[test]
fn channels_take_only_their_kinds_of_keyframes() {
    let kinds = || {
        vec![
            Keyframes::NoKeyframes,
            Keyframes::Float(vec![]),
            Keyframes::FloatLinear(vec![]),
            Keyframes::Vector2(vec![]),
            Keyframes::Vector2Linear(vec![]),
            Keyframes::Vector3(vec![]),
            Keyframes::Vector3Short(vec![]),
            Keyframes::Vector3Linear(vec![]),
            Keyframes::Vector3ShortLinear(vec![]),
            Keyframes::Quaternion(vec![]),
            Keyframes::QuaternionShort(vec![]),
            Keyframes::QuaternionLinear(vec![]),
            Keyframes::RGB(vec![]),
            Keyframes::Opacity(vec![]),
        ]
    };
    let taken = |channel: Channel| -> Vec<usize> {
        kinds()
            .into_iter()
            .enumerate()
            .filter(|(_, k)| {
                let mut curve = Curve::new(channel, InterpolationType::Linear, first_for(channel));
                curve.set_keyframes(k.duplicate()).is_ok()
            })
            .map(|(i, _)| i)
            .collect()
    };
    assert_eq!(taken(Channel::Location), vec![5, 6, 7]);
    assert_eq!(taken(Channel::Scale), vec![5, 6, 7]);
    assert_eq!(taken(Channel::Rotation), vec![5, 6, 7, 10, 11]);
    assert_eq!(taken(Channel::Opacity), vec![1, 2, 13]);
    assert_eq!(taken(Channel::Fov), vec![1, 2]);
    assert_eq!(taken(Channel::Property), vec![1, 2]);
    assert_eq!(taken(Channel::Color), vec![12]);
}

fn first_for(channel: Channel) -> Keyframes {
    match channel {
        Channel::Location | Channel::Scale | Channel::Rotation => Keyframes::Vector3(vec![]),
        Channel::Opacity | Channel::Fov | Channel::Property => Keyframes::Float(vec![]),
        Channel::Color => Keyframes::RGB(vec![]),
    }
}

#[test]
fn rejected_keyframes_leave_the_curve_as_it_was() {
    let mut curve = Curve::new(
        Channel::Color,
        InterpolationType::NoInterpolation,
        Keyframes::RGB(vec![RGB(1, 2, 3)]),
    );
    assert_eq!(curve.set_keyframes(Keyframes::Float(vec![7])), Err(NuccError::InvalidKeyframes));
    assert_eq!(curve.keyframes(), &Keyframes::RGB(vec![RGB(1, 2, 3)]));
    assert_eq!(curve.set_keyframes(Keyframes::RGB(vec![])), Ok(()));
    assert_eq!(curve.keyframes().keyframe_count(), 0);
    assert_eq!(
        Curve::try_new(Channel::Fov, InterpolationType::Linear, Keyframes::RGB(vec![])).err(),
        Some(NuccError::InvalidKeyframes)
    );
}

#[test]
fn quaternion_table_suits_no_channel() {
    let chunk = CurveChunkConverter(
        Channel::Rotation,
        header(1, CurveFormat::QuaternionTable, 1),
        ChunkCurve { data: vec![0; 16] },
    );
    assert_eq!(Curve::from_chunk(chunk).err(), Some(NuccError::InvalidKeyframes));
}

#[test]
fn curve_index_outside_the_channel_list_is_invalid() {
    let wire = ChunkEntry {
        coord_index: ClumpCoordIndex(0, 0),
        entry_format: ChunkEntryFormat::Camera,
        curve_headers: vec![header(3, CurveFormat::FloatFixed, 0)],
        curves: vec![ChunkCurve { data: vec![] }],
    };
    assert_eq!(Entry::from_chunk(&wire).err(), Some(NuccError::InvalidKeyframes));
}

#[test]
fn short_curve_data_is_truncated_input() {
    let chunk = CurveChunkConverter(
        Channel::Location,
        header(0, CurveFormat::Vector3Fixed, 2),
        ChunkCurve { data: vec![0; 23] },
    );
    assert_eq!(Curve::from_chunk(chunk).err(), Some(NuccError::TruncatedInput));
}

#[test]
fn every_kind_of_keyframes_is_decoded_big_endian() {
    let decode = |format: CurveFormat, count: u16, data: Vec<u8>| {
        Keyframes::read(format, count, &data).unwrap()
    };
    assert_eq!(
        decode(CurveFormat::Vector3Fixed, 1, vec![0, 0, 0, 1, 0, 0, 0, 2, 0, 0, 0, 3]),
        Keyframes::Vector3(vec![Vector3(1, 2, 3)])
    );
    assert_eq!(
        decode(CurveFormat::Vector2Fixed, 1, vec![0, 0, 1, 0, 0, 0, 0, 2]),
        Keyframes::Vector2(vec![Vector2(256, 2)])
    );
    assert_eq!(
        decode(
            CurveFormat::QuatnerionLinear,
            1,
            vec![0xFF, 0xFF, 0xFF, 0xFE, 0, 0, 0, 1, 0, 0, 0, 2, 0, 0, 0, 3, 0, 0, 0, 4]
        ),
        Keyframes::QuaternionLinear(vec![(-2, Quaternion(1, 2, 3, 4))])
    );
    assert_eq!(
        decode(CurveFormat::QuaternionShortTable, 1, vec![0x80, 0, 0x7F, 0xFF, 0, 1, 0xFF, 0xFF]),
        Keyframes::QuaternionShort(vec![QuaternionShort(-32768, 32767, 1, -1)])
    );
    assert_eq!(
        decode(CurveFormat::ColorRGBTable, 2, vec![1, 2, 3, 4, 5, 6, 0, 0]),
        Keyframes::RGB(vec![RGB(1, 2, 3), RGB(4, 5, 6)])
    );
    assert_eq!(
        decode(CurveFormat::FloatTable, 2, vec![0x3F, 0x80, 0, 0, 0xBF, 0x80, 0, 0]),
        Keyframes::Float(vec![1.0f32.to_bits(), (-1.0f32).to_bits()])
    );
}

#[test]
fn curves_are_written_back_as_they_were_read() {
    let cases: Vec<(Channel, CurveFormat, u16, Vec<u8>)> = vec![
        (Channel::Opacity, CurveFormat::FloatLinear, 2, opacity_entry_bytes()[16..].to_vec()),
        (Channel::Color, CurveFormat::ColorRGBTable, 3, vec![1, 2, 3, 4, 5, 6, 7, 8, 9, 0, 0, 0]),
        (Channel::Opacity, CurveFormat::OpacityShortTable, 1, vec![0xFF, 0xFE, 0, 0]),
        (Channel::Scale, CurveFormat::ScaleShortTable, 1, vec![0, 1, 0, 2, 0, 3, 0, 0]),
        (Channel::Rotation, CurveFormat::QuaternionShortTable, 1, vec![0, 1, 0, 2, 0, 3, 0, 4]),
        (Channel::Location, CurveFormat::Vector3Linear, 1, vec![9; 16]),
        (Channel::Rotation, CurveFormat::QuatnerionLinear, 1, vec![8; 20]),
        (Channel::Location, CurveFormat::Vector3Table, 2, vec![7; 24]),
        (Channel::Fov, CurveFormat::FloatTable, 3, vec![6; 12]),
    ];
    for (channel, format, count, data) in cases {
        let curve = Curve::decode(channel, header(0, format, count), &data).unwrap();
        let (written_header, written) = curve.to_chunk(5).unwrap();
        assert_eq!(written_header, header(5, format, count));
        assert_eq!(written.data, data);
        assert_eq!(written.data.len(), format.curve_len(count).unwrap());
    }
}

#[test]
fn entries_without_parent_stay_roots_in_entry_order() {
    let clumps =
        vec![ChunkClump { clump_index: 0, bone_material_indices: vec![1, 2, 3, 4], model_indices: vec![] }];
    let chunk = wire_anm(
        clumps,
        vec![],
        vec![((0, 3), (0, 0))],
        vec![bare_entry(0, 2), bare_entry(0, 0), bare_entry(0, 3)],
    );
    let references = refs(5);
    let anm = NuccAnm::from_parts(&chunk, &[], &references).unwrap();
    let roots = &anm.clumps[0].root_entries;
    assert_eq!(roots.len(), 2);
    assert_eq!(roots[0].entry_info, EntryInfo::StructRef(reference("bone3")));
    assert_eq!(roots[1].entry_info, EntryInfo::StructRef(reference("bone4")));
    assert_eq!(roots[1].children.len(), 1);
    assert_eq!(roots[1].children[0].entry_info, EntryInfo::StructRef(reference("bone1")));
    // Every entry of the file stands in the trees exactly once.
    let listed: Vec<&Entry> = {
        let mut all = Vec::new();
        let mut it = anm.clumps[0].iter_recursive();
        while let Some(e) = it.next() {
            all.push(e);
        }
        all
    };
    assert_eq!(listed.len(), 3);
}

#[test]
fn children_come_in_the_order_of_their_edges() {
    let clumps =
        vec![ChunkClump { clump_index: 0, bone_material_indices: vec![0, 1, 2], model_indices: vec![] }];
    let chunk = wire_anm(
        clumps,
        vec![],
        vec![((0, 0), (0, 2)), ((0, 0), (0, 1))],
        vec![bare_entry(0, 0), bare_entry(0, 1), bare_entry(0, 2)],
    );
    let references = refs(3);
    let anm = NuccAnm::from_parts(&chunk, &[], &references).unwrap();
    let root = &anm.clumps[0].root_entries[0];
    assert_eq!(root.children[0].entry_info, EntryInfo::StructRef(reference("bone2")));
    assert_eq!(root.children[1].entry_info, EntryInfo::StructRef(reference("bone1")));
}

#[test]
fn other_entries_make_a_last_clump_without_name() {
    let clumps =
        vec![ChunkClump { clump_index: 0, bone_material_indices: vec![0], model_indices: vec![] }];
    let chunk = wire_anm(
        clumps,
        vec![1, 0],
        vec![],
        vec![bare_entry(-1, 1), bare_entry(0, 0), bare_entry(-1, 0)],
    );
    let infos = vec![info("nuccChunkCamera", "c", "cam"), info("nuccChunkLightDirc", "l", "sun")];
    let references = refs(1);
    let anm = NuccAnm::from_parts(&chunk, &infos, &references).unwrap();
    assert_eq!(anm.clumps.len(), 2);
    let other = &anm.clumps[1];
    assert_eq!(other.clump_info, ClumpInfo::NoInfo);
    assert_eq!(other.root_entries.len(), 2);
    assert_eq!(other.root_entries[0].entry_info, EntryInfo::StructInfo(infos[1].clone()));
    assert_eq!(other.root_entries[1].entry_info, EntryInfo::StructInfo(infos[0].clone()));
    assert_eq!(other.other_entry_struct_infos(), &vec![infos[1].clone(), infos[0].clone()]);
}

#[test]
fn entry_at_a_slot_that_the_clump_does_not_declare_stays_a_root() {
    let clump =
        vec![ChunkClump { clump_index: 0, bone_material_indices: vec![0, 1], model_indices: vec![] }];
    let chunk = wire_anm(
        clump,
        vec![],
        vec![((0, 0), (0, 1))],
        vec![bare_entry(0, 5), bare_entry(0, 0), bare_entry(0, 1)],
    );
    let references = refs(2);
    let anm = NuccAnm::from_parts(&chunk, &[], &references).unwrap();
    assert_eq!(anm.clumps.len(), 1);
    let roots = &anm.clumps[0].root_entries;
    assert_eq!(roots.len(), 2);
    assert_eq!(roots[0].entry_info, EntryInfo::StructInfo(NuccStructInfo::default()));
    assert!(roots[0].children.is_empty());
    assert_eq!(roots[1].entry_info, EntryInfo::StructRef(references[0].clone()));
    assert_eq!(roots[1].children.len(), 1);
    assert_eq!(roots[1].children[0].entry_info, EntryInfo::StructRef(references[1].clone()));
}

#[test]
fn malformed_graphs_are_rejected() {
    let clump =
        || vec![ChunkClump { clump_index: 0, bone_material_indices: vec![0, 1, 2], model_indices: vec![] }];
    let three = || vec![bare_entry(0, 0), bare_entry(0, 1), bare_entry(0, 2)];
    let references = refs(3);
    let build = |chunk: NuccChunkAnm| NuccAnm::from_parts(&chunk, &[], &references).err();
    // Two entries at one place.
    let twice = wire_anm(clump(), vec![], vec![], vec![bare_entry(0, 1), bare_entry(0, 1)]);
    assert_eq!(build(twice), Some(NuccError::MalformedGraph));
    // An edge to a place where no entry lies.
    let dangling = wire_anm(clump(), vec![], vec![((0, 0), (0, 2))], vec![bare_entry(0, 0)]);
    assert_eq!(build(dangling), Some(NuccError::MalformedGraph));
    // A cycle.
    let cycle =
        wire_anm(clump(), vec![], vec![((0, 0), (0, 1)), ((0, 1), (0, 0))], three());
    assert_eq!(build(cycle), Some(NuccError::MalformedGraph));
    // An entry that is its own parent.
    let own = wire_anm(clump(), vec![], vec![((0, 2), (0, 2))], three());
    assert_eq!(build(own), Some(NuccError::MalformedGraph));
    // Two parents for one entry.
    let two = wire_anm(clump(), vec![], vec![((0, 0), (0, 2)), ((0, 1), (0, 2))], three());
    assert_eq!(build(two), Some(NuccError::MalformedGraph));
    // A clump that the animation does not have.
    let nowhere = wire_anm(clump(), vec![], vec![], vec![bare_entry(1, 0)]);
    assert_eq!(build(nowhere), Some(NuccError::MalformedGraph));
    // An edge from an entry outside every clump.
    let outside = NuccAnm::from_parts(
        &wire_anm(clump(), vec![0], vec![((-1, 0), (0, 0))], vec![bare_entry(-1, 0), bare_entry(0, 0)]),
        &[info("a", "b", "c")],
        &references,
    );
    assert_eq!(outside.err(), Some(NuccError::MalformedGraph));
    // A listed entry outside every clump that the file does not hold.
    let missing = NuccAnm::from_parts(
        &wire_anm(clump(), vec![0], vec![], vec![bare_entry(0, 0)]),
        &[info("a", "b", "c")],
        &references,
    );
    assert_eq!(missing.err(), Some(NuccError::MalformedGraph));
}

#[test]
fn unknown_entries_are_unsupported() {
    let mut chunk = wire_anm(vec![], vec![], vec![], vec![]);
    chunk.unk_entry_chunk_indices = vec![0];
    assert_eq!(
        NuccAnm::from_parts(&chunk, &[info("a", "b", "c")], &[]).err(),
        Some(NuccError::UnsupportedFeature)
    );
}

#[test]
fn graph_faults_come_before_indices_and_unknown_entries() {
    let clump =
        || vec![ChunkClump { clump_index: 0, bone_material_indices: vec![0, 1], model_indices: vec![] }];
    let references = refs(2);
    // Two entries at one place, and unknown entries listed.
    let mut twice = wire_anm(clump(), vec![], vec![], vec![bare_entry(0, 0), bare_entry(0, 0)]);
    twice.unk_entry_chunk_indices = vec![0];
    assert_eq!(
        NuccAnm::from_parts(&twice, &[], &references).err(),
        Some(NuccError::MalformedGraph)
    );
    // A cycle, and unknown entries listed.
    let mut cycle = wire_anm(
        clump(),
        vec![],
        vec![((0, 0), (0, 1)), ((0, 1), (0, 0))],
        vec![bare_entry(0, 0), bare_entry(0, 1)],
    );
    cycle.unk_entry_chunk_indices = vec![0];
    assert_eq!(
        NuccAnm::from_parts(&cycle, &[], &references).err(),
        Some(NuccError::MalformedGraph)
    );
    // Two entries at one place, and a clump that points outside the
    // references.
    let twice = wire_anm(clump(), vec![], vec![], vec![bare_entry(0, 0), bare_entry(0, 0)]);
    assert_eq!(NuccAnm::from_parts(&twice, &[], &[]).err(), Some(NuccError::MalformedGraph));
    // An index outside its table, and unknown entries listed.
    let mut outside = wire_anm(clump(), vec![], vec![], vec![bare_entry(0, 0)]);
    outside.unk_entry_chunk_indices = vec![0];
    assert_eq!(NuccAnm::from_parts(&outside, &[], &[]).err(), Some(NuccError::CountMismatch));
}

#[test]
fn reference_outside_the_page_is_a_count_mismatch() {
    let clumps =
        vec![ChunkClump { clump_index: 0, bone_material_indices: vec![7], model_indices: vec![] }];
    let chunk = wire_anm(clumps, vec![], vec![], vec![]);
    assert_eq!(
        NuccAnm::from_parts(&chunk, &[], &refs(3)).err(),
        Some(NuccError::CountMismatch)
    );
}

#[test]
fn unknown_entry_format_is_unsupported() {
    let mut bytes = opacity_entry_bytes();
    bytes[5] = 3;
    assert_eq!(ChunkEntry::read(&bytes, 0).err(), Some(NuccError::UnsupportedFeature));
}

fn animation_payload() -> Vec<u8> {
    // Two clumps; the first has three bones, the second one.
    let mut p = Vec::new();
    p.extend_from_slice(&[0, 0, 0, 100, 0, 0, 0, 100]); // frame count, frame size
    p.extend_from_slice(&[0, 5, 0, 0]); // five entries, unknown
    p.extend_from_slice(&[0, 2, 0, 1, 0, 0, 0, 2]); // clumps, others, unknown entries, edges
    p.extend_from_slice(&[0, 0, 0, 0, 0, 3, 0, 1]); // clump 0: reference 0, 3 bones, 1 model
    p.extend_from_slice(&[0, 0, 0, 1, 0, 0, 0, 2, 0, 0, 0, 3, 0, 0, 0, 4]);
    p.extend_from_slice(&[0, 0, 0, 5, 0, 1, 0, 0, 0, 0, 0, 6]); // clump 1
    p.extend_from_slice(&[0, 0, 0, 4]); // other entry: identity 4
    p.extend_from_slice(&[0, 0, 0, 0, 0, 0, 0, 1]); // edge (0,0) -> (0,1)
    p.extend_from_slice(&[0, 0, 0, 1, 0, 0, 0, 2]); // edge (0,1) -> (0,2)
    p.extend_from_slice(&opacity_entry_bytes()); // (0,0)
    p.extend_from_slice(&[0, 0, 0, 1, 0, 1, 0, 0]); // (0,1), no curves
    p.extend_from_slice(&[0, 0, 0, 2, 0, 1, 0, 0]); // (0,2), no curves
    p.extend_from_slice(&[0, 1, 0, 0, 0, 1, 0, 0]); // (1,0), no curves
    p.extend_from_slice(&[0xFF, 0xFF, 0, 0, 0, 2, 0, 0]); // (-1,0), camera
    p
}

#[test]
fn animation_payload_is_read_and_written_back() {
    let payload = animation_payload();
    let chunk = NuccChunkAnm::read(&payload, 121).unwrap();
    assert_eq!(chunk.clumps.len(), 2);
    assert_eq!(chunk.entries.len(), 5);
    assert_eq!(chunk.coord_parents.len(), 2);
    assert_eq!(chunk.other_entry_chunk_indices, vec![4]);
    let mut out = Vec::new();
    chunk.write(&mut out).unwrap();
    assert_eq!(out, payload);
}

#[test]
fn animation_survives_unpack_and_repack() {
    let payload = animation_payload();
    let chunk = NuccChunkAnm::read(&payload, 121).unwrap();
    let infos: Vec<NuccStructInfo> =
        (0..5).map(|i| info("nuccChunkCamera", "c", &format!("cam{}", i))).collect();
    let references = refs(7);
    let anm = NuccAnm::from_parts(&chunk, &infos, &references).unwrap();
    assert_eq!(anm.clumps.len(), 3);
    // Written into a page whose tables already hold what the file had, the
    // animation gets the same indices again.
    let mut page_infos = Table::from_items(&infos).unwrap();
    let mut page_refs = Table::from_items(&references).unwrap();
    let again = anm.to_chunk(&mut page_infos, &mut page_refs).unwrap();
    assert_eq!(again, chunk);
    assert_eq!(page_infos.len(), 5);
    assert_eq!(page_refs.len(), 7);
    // Written into an empty page, the tables hold what the animation names,
    // each once, in the order of first use.
    let mut fresh_infos = Table::new();
    let mut fresh_refs = Table::new();
    let fresh = anm.to_chunk(&mut fresh_infos, &mut fresh_refs).unwrap();
    assert_eq!(fresh_refs.items(), &references);
    assert_eq!(fresh_infos.items(), &vec![infos[4].clone()]);
    assert_eq!(fresh.other_entry_chunk_indices, vec![0]);
    assert_eq!(fresh.entries, chunk.entries);
    assert_eq!(fresh.coord_parents, chunk.coord_parents);
}

#[test]
fn document_with_animation_is_written_the_same_twice() {
    let payload = animation_payload();
    let chunk = NuccChunkAnm::read(&payload, 121).unwrap();
    let infos: Vec<NuccStructInfo> =
        (0..5).map(|i| info("nuccChunkCamera", "c", &format!("cam{}", i))).collect();
    let mut anm = NuccAnm::from_parts(&chunk, &infos, &refs(7)).unwrap();
    anm.struct_info = info("nuccChunkAnm", "a.max", "walk");
    let doc = Xfbin {
        version: 121,
        pages: vec![XfbinPage { structs: vec![AnyStruct::Anm(anm)], ..XfbinPage::default() }],
    };
    let first = write_xfbin_bytes(doc).unwrap();
    let back = read_xfbin_bytes(first.clone()).unwrap();
    assert_eq!(back.pages.len(), 1);
    match &back.pages[0].structs[0] {
        AnyStruct::Anm(a) => {
            assert_eq!(a.struct_info, info("nuccChunkAnm", "a.max", "walk"));
            assert_eq!(a.frame_count, 100);
            assert_eq!(a.clumps.len(), 3);
            assert_eq!(a.clumps[0].root_entries.len(), 1);
            assert_eq!(a.clumps[0].root_entries[0].curves.len(), 1);
            assert_eq!(a.clumps[0].root_entries[0].children[0].children.len(), 1);
        }
        other => panic!("not an animation: {:?}", other),
    }
    let again = read_xfbin_bytes(first.clone()).unwrap();
    assert_eq!(back, again);
    assert_eq!(write_xfbin_bytes(back).unwrap(), first);
}

fn animation_document() -> Xfbin {
    let payload = animation_payload();
    let chunk = NuccChunkAnm::read(&payload, 121).unwrap();
    let infos: Vec<NuccStructInfo> =
        (0..5).map(|i| info("nuccChunkCamera", "c", &format!("cam{}", i))).collect();
    let mut anm = NuccAnm::from_parts(&chunk, &infos, &refs(7)).unwrap();
    anm.struct_info = info("nuccChunkAnm", "a.max", "walk");
    Xfbin {
        version: 121,
        pages: vec![XfbinPage { structs: vec![AnyStruct::Anm(anm)], ..XfbinPage::default() }],
    }
}

#[test]
fn written_animation_document_is_read_back_as_it_was() {
    let bytes = write_xfbin_bytes(animation_document()).unwrap();
    let back = read_xfbin_bytes(bytes).unwrap();
    assert_eq!(back.version, 121);
    assert_eq!(back.pages.len(), 1);
    assert_eq!(back.pages[0].structs, animation_document().pages[0].structs);
    // Null, Page, Index, the camera of the entry outside every clump, and
    // the animation itself.
    assert_eq!(back.pages[0].struct_infos.len(), 5);
    assert_eq!(back.pages[0].struct_references, refs(7));
}

#[test]
fn curve_is_read_back_with_the_interpolation_of_its_format() {
    let mut doc = animation_document();
    match &mut doc.pages[0].structs[0] {
        AnyStruct::Anm(a) => {
            let curve = &a.clumps[0].root_entries[0].curves[0];
            assert_eq!(curve.interp_type(), InterpolationType::Linear);
            let keyframes = curve.keyframes().duplicate();
            let other =
                Curve::try_new(Channel::Opacity, InterpolationType::Bezier, keyframes).unwrap();
            a.clumps[0].root_entries[0].curves[0] = other;
        }
        other => panic!("not an animation: {:?}", other),
    }
    let bytes = write_xfbin_bytes(doc).unwrap();
    let back = read_xfbin_bytes(bytes).unwrap();
    assert_eq!(back.pages[0].structs, animation_document().pages[0].structs);
}

#[test]
fn entry_without_slot_cannot_be_written() {
    let payload = animation_payload();
    let chunk = NuccChunkAnm::read(&payload, 121).unwrap();
    let infos: Vec<NuccStructInfo> =
        (0..5).map(|i| info("nuccChunkCamera", "c", &format!("cam{}", i))).collect();
    let mut anm = NuccAnm::from_parts(&chunk, &infos, &refs(7)).unwrap();
    anm.clumps[0].root_entries[0].entry_info = EntryInfo::StructRef(reference("stranger"));
    let mut page_infos = Table::new();
    let mut page_refs = Table::new();
    assert_eq!(
        anm.to_chunk(&mut page_infos, &mut page_refs).err(),
        Some(NuccError::MalformedGraph)
    );
}
