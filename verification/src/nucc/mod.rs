//! The logical side of a container: chunks with their identity resolved.

pub mod nucc_anm;
pub mod nucc_binary;
pub mod nucc_unknown;

use vstd::prelude::*;

use crate::error::NuccError;
use crate::nucc_chunk::AnyChunk;
use crate::nucc_chunk::AnyChunkView;
use crate::nucc_chunk::NuccChunkType;
use crate::table::Keyed;
use crate::xfbin_file::XfbinChunkMap;
use crate::nucc_chunk::nucc_chunk_binary::ChunkBinaryView;
use crate::nucc_chunk::nucc_chunk_unknown::ChunkUnknownView;
use crate::nucc_chunk::NuccChunkBinary;
use crate::nucc_chunk::NuccChunkUnknown;
use crate::table::Table;
use crate::utils::write_bytes;
use nucc_anm::pack::spec_anm_chunk;
use nucc_anm::spec_anm_struct;
use nucc_anm::AnmView;
use nucc_binary::BinaryView;
use nucc_unknown::UnknownView;

pub use nucc_anm::NuccAnm;
pub use nucc_binary::NuccBinary;
pub use nucc_unknown::NuccUnknown;

verus! {

/// Identity of a chunk: its type, the path of the file it came from, and
/// its name.
#[derive(Debug, PartialEq, Eq, Hash)]
pub struct NuccStructInfo {
    pub chunk_name: String,
    pub file_path: String,
    pub chunk_type: String,
}

/// A `NuccStructInfo` as three texts.
pub struct StructInfoView {
    pub chunk_name: Seq<char>,
    pub file_path: Seq<char>,
    pub chunk_type: Seq<char>,
}

impl View for NuccStructInfo {
    type V = StructInfoView;

    open spec fn view(&self) -> StructInfoView {
        StructInfoView {
            chunk_name: self.chunk_name@,
            file_path: self.file_path@,
            chunk_type: self.chunk_type@,
        }
    }
}

impl Clone for NuccStructInfo {
    fn clone(&self) -> (r: Self)
        ensures
            r@ == self@,
    {
        NuccStructInfo {
            chunk_name: self.chunk_name.clone(),
            file_path: self.file_path.clone(),
            chunk_type: self.chunk_type.clone(),
        }
    }
}

impl Default for NuccStructInfo {
    fn default() -> (r: Self)
        ensures
            r@ == (StructInfoView { chunk_name: seq![], file_path: seq![], chunk_type: seq![] }),
    {
        NuccStructInfo {
            chunk_name: String::new(),
            file_path: String::new(),
            chunk_type: String::new(),
        }
    }
}

/// A named reference from one chunk to another.
#[derive(Debug, PartialEq, Eq, Hash)]
pub struct NuccStructReference(pub String, pub NuccStructInfo);

/// A `NuccStructReference` as a text and the identity it points to.
pub struct StructReferenceView {
    pub name: Seq<char>,
    pub target: StructInfoView,
}

impl View for NuccStructReference {
    type V = StructReferenceView;

    open spec fn view(&self) -> StructReferenceView {
        StructReferenceView { name: self.0@, target: self.1@ }
    }
}

impl Clone for NuccStructReference {
    fn clone(&self) -> (r: Self)
        ensures
            r@ == self@,
    {
        NuccStructReference(self.0.clone(), self.1.clone())
    }
}

impl Default for NuccStructReference {
    fn default() -> (r: Self)
        ensures
            r@ == (StructReferenceView {
                name: seq![],
                target: StructInfoView { chunk_name: seq![], file_path: seq![], chunk_type: seq![] },
            }),
    {
        NuccStructReference(String::new(), NuccStructInfo::default())
    }
}

/// The views of the items of a sequence, in order.
pub open spec fn views<T: View>(s: Seq<T>) -> Seq<T::V> {
    Seq::new(s.len(), |i: int| s[i]@)
}

impl Keyed for NuccStructInfo {
    open spec fn spec_key(v: StructInfoView) -> Seq<Seq<char>> {
        seq![v.chunk_type, v.file_path, v.chunk_name]
    }

    fn key(&self) -> (r: Vec<String>) {
        let mut k: Vec<String> = Vec::new();
        k.push(self.chunk_type.clone());
        k.push(self.file_path.clone());
        k.push(self.chunk_name.clone());
        assert(views(k@) =~= Self::spec_key(self@));
        k
    }

    fn duplicate(&self) -> (r: Self) {
        self.clone()
    }

    proof fn lemma_key_injective(a: StructInfoView, b: StructInfoView) {
        let x = Self::spec_key(a);
        let y = Self::spec_key(b);
        assert(x[0] == y[0] && x[1] == y[1] && x[2] == y[2]);
    }
}

impl Keyed for NuccStructReference {
    open spec fn spec_key(v: StructReferenceView) -> Seq<Seq<char>> {
        seq![v.name, v.target.chunk_type, v.target.file_path, v.target.chunk_name]
    }

    fn key(&self) -> (r: Vec<String>) {
        let mut k: Vec<String> = Vec::new();
        k.push(self.0.clone());
        k.push(self.1.chunk_type.clone());
        k.push(self.1.file_path.clone());
        k.push(self.1.chunk_name.clone());
        assert(views(k@) =~= Self::spec_key(self@));
        k
    }

    fn duplicate(&self) -> (r: Self) {
        self.clone()
    }

    proof fn lemma_key_injective(a: StructReferenceView, b: StructReferenceView) {
        let x = Self::spec_key(a);
        let y = Self::spec_key(b);
        assert(x[0] == y[0] && x[1] == y[1] && x[2] == y[2] && x[3] == y[3]);
    }
}

/// What is needed to resolve the chunk map: its entries and the three
/// pools of strings.
pub struct XfbinChunkMapConverter<'a> {
    pub maps: Vec<XfbinChunkMap>,
    pub chunk_names: &'a [String],
    pub file_paths: &'a [String],
    pub chunk_types: &'a [String],
}

/// Whether each of the three numbers of a chunk map entry points into its
/// pool.
pub open spec fn spec_map_ok(map: XfbinChunkMap, names: int, paths: int, types: int) -> bool {
    map.chunk_name_index < names && map.file_path_index < paths && map.chunk_type_index < types
}

/// The identities that the chunk map stands for: each entry picks a name,
/// a path and a type string from the pools. An entry that points outside a
/// pool is a `CountMismatch`.
pub open spec fn spec_struct_infos(
    maps: Seq<XfbinChunkMap>,
    names: Seq<Seq<char>>,
    paths: Seq<Seq<char>>,
    types: Seq<Seq<char>>,
) -> Result<Seq<StructInfoView>, NuccError> {
    if exists|i: int|
        0 <= i < maps.len() && !spec_map_ok(
            #[trigger] maps[i],
            names.len() as int,
            paths.len() as int,
            types.len() as int,
        ) {
        Err(NuccError::CountMismatch)
    } else {
        Ok(
            Seq::new(
                maps.len(),
                |i: int|
                    StructInfoView {
                        chunk_name: names[maps[i].chunk_name_index as int],
                        file_path: paths[maps[i].file_path_index as int],
                        chunk_type: types[maps[i].chunk_type_index as int],
                    },
            ),
        )
    }
}

impl<'a> XfbinChunkMapConverter<'a> {
    /// Resolves the chunk map into identities.
    pub fn to_struct_infos(self) -> (r: Result<Vec<NuccStructInfo>, NuccError>)
        ensures
            r matches Ok(infos) ==> spec_struct_infos(
                self.maps@,
                views(self.chunk_names@),
                views(self.file_paths@),
                views(self.chunk_types@),
            ) == Ok::<Seq<StructInfoView>, NuccError>(views(infos@)),
            r matches Err(e) ==> spec_struct_infos(
                self.maps@,
                views(self.chunk_names@),
                views(self.file_paths@),
                views(self.chunk_types@),
            ) == Err::<Seq<StructInfoView>, NuccError>(e),
    {
        let mut infos: Vec<NuccStructInfo> = Vec::new();
        let mut i: usize = 0;
        let ghost names = views(self.chunk_names@);
        let ghost paths = views(self.file_paths@);
        let ghost types = views(self.chunk_types@);
        while i < self.maps.len()
            invariant
                i <= self.maps.len(),
                names == views(self.chunk_names@),
                paths == views(self.file_paths@),
                types == views(self.chunk_types@),
                infos.len() == i,
                forall|j: int|
                    0 <= j < i ==> spec_map_ok(
                        #[trigger] self.maps@[j],
                        names.len() as int,
                        paths.len() as int,
                        types.len() as int,
                    ),
                forall|j: int|
                    0 <= j < i ==> (#[trigger] infos@[j])@ == (StructInfoView {
                        chunk_name: names[self.maps@[j].chunk_name_index as int],
                        file_path: paths[self.maps@[j].file_path_index as int],
                        chunk_type: types[self.maps@[j].chunk_type_index as int],
                    }),
            decreases self.maps.len() - i,
        {
            let map = self.maps[i];
            if map.chunk_name_index as usize >= self.chunk_names.len()
                || map.file_path_index as usize >= self.file_paths.len()
                || map.chunk_type_index as usize >= self.chunk_types.len() {
                assert(!spec_map_ok(
                    self.maps@[i as int],
                    names.len() as int,
                    paths.len() as int,
                    types.len() as int,
                ));
                return Err(NuccError::CountMismatch);
            }
            infos.push(
                NuccStructInfo {
                    chunk_name: self.chunk_names[map.chunk_name_index as usize].clone(),
                    file_path: self.file_paths[map.file_path_index as usize].clone(),
                    chunk_type: self.chunk_types[map.chunk_type_index as usize].clone(),
                },
            );
            i += 1;
        }
        assert(views(infos@) =~= spec_struct_infos(self.maps@, names, paths, types)->Ok_0);
        Ok(infos)
    }
}

/// What is needed to resolve the references: the pairs of numbers, the
/// pool of names, and the identities.
pub struct XfbinChunkReferenceConverter<'a>(
    pub Vec<(u32, u32)>,
    pub &'a [String],
    pub &'a [NuccStructInfo],
);

/// The references that the pairs stand for: each picks a name from the
/// pool and an identity. A pair that points outside is a `CountMismatch`.
pub open spec fn spec_struct_references(
    pairs: Seq<(u32, u32)>,
    names: Seq<Seq<char>>,
    infos: Seq<StructInfoView>,
) -> Result<Seq<StructReferenceView>, NuccError> {
    if exists|i: int|
        0 <= i < pairs.len() && !((#[trigger] pairs[i]).0 < names.len() && pairs[i].1
            < infos.len()) {
        Err(NuccError::CountMismatch)
    } else {
        Ok(
            Seq::new(
                pairs.len(),
                |i: int|
                    StructReferenceView {
                        name: names[pairs[i].0 as int],
                        target: infos[pairs[i].1 as int],
                    },
            ),
        )
    }
}

impl<'a> XfbinChunkReferenceConverter<'a> {
    /// Resolves the pairs into references.
    pub fn to_struct_references(self) -> (r: Result<Vec<NuccStructReference>, NuccError>)
        ensures
            r matches Ok(refs) ==> spec_struct_references(self.0@, views(self.1@), views(self.2@))
                == Ok::<Seq<StructReferenceView>, NuccError>(views(refs@)),
            r matches Err(e) ==> spec_struct_references(self.0@, views(self.1@), views(self.2@))
                == Err::<Seq<StructReferenceView>, NuccError>(e),
    {
        let mut refs: Vec<NuccStructReference> = Vec::new();
        let mut i: usize = 0;
        let ghost names = views(self.1@);
        let ghost infos = views(self.2@);
        while i < self.0.len()
            invariant
                i <= self.0.len(),
                names == views(self.1@),
                infos == views(self.2@),
                refs.len() == i,
                forall|j: int|
                    0 <= j < i ==> (#[trigger] self.0@[j]).0 < names.len() && self.0@[j].1
                        < infos.len(),
                forall|j: int|
                    0 <= j < i ==> (#[trigger] refs@[j])@ == (StructReferenceView {
                        name: names[self.0@[j].0 as int],
                        target: infos[self.0@[j].1 as int],
                    }),
            decreases self.0.len() - i,
        {
            let pair = self.0[i];
            if pair.0 as usize >= self.1.len() || pair.1 as usize >= self.2.len() {
                assert(!(self.0@[i as int].0 < names.len() && self.0@[i as int].1 < infos.len()));
                return Err(NuccError::CountMismatch);
            }
            refs.push(
                NuccStructReference(
                    self.1[pair.0 as usize].clone(),
                    self.2[pair.1 as usize].clone(),
                ),
            );
            i += 1;
        }
        assert(views(refs@) =~= spec_struct_references(self.0@, names, infos)->Ok_0);
        Ok(refs)
    }
}

/// What every logical chunk carries: its identity.
pub trait NuccInfo {
    /// The identity of this chunk.
    spec fn spec_struct_info(&self) -> StructInfoView;

    fn struct_info(&self) -> (r: &NuccStructInfo)
        ensures
            r@ == self.spec_struct_info(),
    ;

    /// Gives the chunk another identity.
    fn set_struct_info(&mut self, info: NuccStructInfo)
        ensures
            final(self).spec_struct_info() == info@,
    ;
}

/// What every logical chunk can tell of itself.
pub trait NuccStruct: NuccInfo {
    /// The kind of this chunk.
    spec fn spec_chunk_type(&self) -> NuccChunkType;

    /// The version this chunk was written for.
    spec fn spec_version(&self) -> u16;

    fn chunk_type(&self) -> (t: NuccChunkType)
        ensures
            t == self.spec_chunk_type(),
    ;

    fn version(&self) -> (v: u16)
        ensures
            v == self.spec_version(),
    ;
}

/// A logical chunk of any kind.
#[derive(Debug, PartialEq, Eq)]
pub enum AnyStruct {
    Anm(NuccAnm),
    Binary(NuccBinary),
    Unknown(NuccUnknown),
}

/// An `AnyStruct` as plain values.
pub enum AnyStructView {
    Anm(AnmView),
    Binary(BinaryView),
    Unknown(UnknownView),
}

impl View for AnyStruct {
    type V = AnyStructView;

    open spec fn view(&self) -> AnyStructView {
        match self {
            AnyStruct::Anm(s) => AnyStructView::Anm(s@),
            AnyStruct::Binary(s) => AnyStructView::Binary(s@),
            AnyStruct::Unknown(s) => AnyStructView::Unknown(s@),
        }
    }
}

/// The identity of a logical chunk.
pub open spec fn spec_info_of(s: AnyStructView) -> StructInfoView {
    match s {
        AnyStructView::Anm(s) => s.struct_info,
        AnyStructView::Binary(s) => s.struct_info,
        AnyStructView::Unknown(s) => s.struct_info,
    }
}

/// A logical chunk under another identity.
pub open spec fn spec_with_info(s: AnyStructView, info: StructInfoView) -> AnyStructView {
    match s {
        AnyStructView::Anm(s) => AnyStructView::Anm(AnmView { struct_info: info, ..s }),
        AnyStructView::Binary(s) => AnyStructView::Binary(BinaryView { struct_info: info, ..s }),
        AnyStructView::Unknown(s) => AnyStructView::Unknown(
            UnknownView { struct_info: info, ..s },
        ),
    }
}

/// The kind of a logical chunk.
pub open spec fn spec_struct_kind(s: AnyStructView) -> NuccChunkType {
    match s {
        AnyStructView::Anm(_) => NuccChunkType::NuccChunkAnm,
        AnyStructView::Binary(_) => NuccChunkType::NuccChunkBinary,
        AnyStructView::Unknown(_) => NuccChunkType::NuccChunkUnknown,
    }
}

/// The version that a logical chunk was written for.
pub open spec fn spec_struct_version(s: AnyStructView) -> u16 {
    match s {
        AnyStructView::Anm(s) => s.version,
        AnyStructView::Binary(s) => s.version,
        AnyStructView::Unknown(s) => s.version,
    }
}

impl NuccInfo for AnyStruct {
    open spec fn spec_struct_info(&self) -> StructInfoView {
        spec_info_of(self@)
    }

    fn struct_info(&self) -> (r: &NuccStructInfo) {
        match self {
            AnyStruct::Anm(s) => s.struct_info(),
            AnyStruct::Binary(s) => s.struct_info(),
            AnyStruct::Unknown(s) => s.struct_info(),
        }
    }

    fn set_struct_info(&mut self, info: NuccStructInfo)
        ensures
            final(self)@ == spec_with_info(old(self)@, info@),
    {
        match self {
            AnyStruct::Anm(s) => s.set_struct_info(info),
            AnyStruct::Binary(s) => s.set_struct_info(info),
            AnyStruct::Unknown(s) => s.set_struct_info(info),
        }
    }
}

impl NuccStruct for AnyStruct {
    open spec fn spec_chunk_type(&self) -> NuccChunkType {
        spec_struct_kind(self@)
    }

    open spec fn spec_version(&self) -> u16 {
        spec_struct_version(self@)
    }

    fn chunk_type(&self) -> (t: NuccChunkType) {
        match self {
            AnyStruct::Anm(s) => s.chunk_type(),
            AnyStruct::Binary(s) => s.chunk_type(),
            AnyStruct::Unknown(s) => s.chunk_type(),
        }
    }

    fn version(&self) -> (v: u16) {
        match self {
            AnyStruct::Anm(s) => s.version(),
            AnyStruct::Binary(s) => s.version(),
            AnyStruct::Unknown(s) => s.version(),
        }
    }
}

/// What is needed to turn a wire chunk into a logical one: the chunk, and
/// the identities and references of its page.
pub struct NuccStructConverter<'a>(
    pub AnyChunk,
    pub &'a [NuccStructInfo],
    pub &'a [NuccStructReference],
);

/// The identity that a logical chunk has before any is assigned.
pub open spec fn spec_blank_info() -> StructInfoView {
    StructInfoView { chunk_name: seq![], file_path: seq![], chunk_type: seq![] }
}

/// The logical chunk that a wire chunk stands for, given the identities
/// and references of its page. Null chunks, page chunks and the index stand
/// for none: `UnsupportedFeature`. The logical chunk has no identity yet.
pub open spec fn spec_struct_of(
    chunk: AnyChunkView,
    infos: Seq<StructInfoView>,
    refs: Seq<StructReferenceView>,
) -> Result<AnyStructView, NuccError> {
    match chunk {
        AnyChunkView::Anm(c) => match spec_anm_struct(c, infos, refs) {
            Ok(s) => Ok(AnyStructView::Anm(s)),
            Err(e) => Err(e),
        },
        AnyChunkView::Binary(c) => Ok(
            AnyStructView::Binary(
                BinaryView { struct_info: spec_blank_info(), version: c.version, data: c.data },
            ),
        ),
        AnyChunkView::Unknown(c) => Ok(
            AnyStructView::Unknown(
                UnknownView {
                    struct_info: spec_blank_info(),
                    version: c.version,
                    data: c.data,
                    chunk_type: c.chunk_type,
                },
            ),
        ),
        _ => Err(NuccError::UnsupportedFeature),
    }
}

/// What is needed to turn a logical chunk into a wire chunk: the chunk, and
/// the tables of identities and references of its page, in which what the
/// chunk names is entered.
pub struct NuccChunkConverter<'a>(
    pub AnyStruct,
    pub &'a mut Table<NuccStructInfo>,
    pub &'a mut Table<NuccStructReference>,
);

/// The wire chunk that a logical chunk is written as, and the tables of the
/// page as the chunk leaves them.
pub open spec fn spec_chunk_of(
    s: AnyStructView,
    infos: Seq<StructInfoView>,
    refs: Seq<StructReferenceView>,
) -> Result<(AnyChunkView, Seq<StructInfoView>, Seq<StructReferenceView>), NuccError> {
    match s {
        AnyStructView::Anm(anm) => match spec_anm_chunk(anm, infos, refs) {
            Err(e) => Err(e),
            Ok((chunk, infos2, refs2)) => Ok((AnyChunkView::Anm(chunk), infos2, refs2)),
        },
        AnyStructView::Binary(b) => Ok(
            (
                AnyChunkView::Binary(ChunkBinaryView { version: b.version, data: b.data }),
                infos,
                refs,
            ),
        ),
        AnyStructView::Unknown(u) => Ok(
            (
                AnyChunkView::Unknown(
                    ChunkUnknownView { data: u.data, chunk_type: u.chunk_type, version: u.version },
                ),
                infos,
                refs,
            ),
        ),
    }
}

impl AnyStruct {
    /// The wire chunk that this chunk is written as. What the chunk names
    /// is entered in the tables of the page.
    pub fn to_chunk(
        &self,
        page_struct_infos: &mut Table<NuccStructInfo>,
        page_struct_references: &mut Table<NuccStructReference>,
    ) -> (r: Result<AnyChunk, NuccError>)
        requires
            old(page_struct_infos).wf(),
            old(page_struct_references).wf(),
        ensures
            final(page_struct_infos).wf(),
            final(page_struct_references).wf(),
            r matches Ok(chunk) ==> spec_chunk_of(
                self@,
                old(page_struct_infos)@,
                old(page_struct_references)@,
            ) == Ok::<(AnyChunkView, Seq<StructInfoView>, Seq<StructReferenceView>), NuccError>(
                (chunk@, final(page_struct_infos)@, final(page_struct_references)@),
            ),
            r matches Err(e) ==> spec_chunk_of(
                self@,
                old(page_struct_infos)@,
                old(page_struct_references)@,
            ) == Err::<(AnyChunkView, Seq<StructInfoView>, Seq<StructReferenceView>), NuccError>(
                e,
            ),
    {
        match self {
            AnyStruct::Anm(anm) => match anm.to_chunk(page_struct_infos, page_struct_references) {
                Ok(chunk) => Ok(AnyChunk::Anm(chunk)),
                Err(e) => Err(e),
            },
            AnyStruct::Binary(b) => {
                let mut data: Vec<u8> = Vec::new();
                write_bytes(&mut data, &b.data);
                assert(data@ =~= b.data@);
                Ok(AnyChunk::Binary(NuccChunkBinary { version: b.version, data }))
            },
            AnyStruct::Unknown(u) => {
                let mut data: Vec<u8> = Vec::new();
                write_bytes(&mut data, &u.data);
                assert(data@ =~= u.data@);
                Ok(
                    AnyChunk::Unknown(
                        NuccChunkUnknown {
                            data,
                            chunk_type: u.chunk_type.clone(),
                            version: u.version,
                        },
                    ),
                )
            },
        }
    }

    /// Turns a logical chunk into a wire chunk.
    pub fn into_chunk(converter: NuccChunkConverter) -> (r: Result<AnyChunk, NuccError>)
        requires
            old(converter.1).wf(),
            old(converter.2).wf(),
        ensures
            final(converter.1).wf(),
            final(converter.2).wf(),
            r matches Ok(chunk) ==> spec_chunk_of(
                converter.0@,
                old(converter.1)@,
                old(converter.2)@,
            ) == Ok::<(AnyChunkView, Seq<StructInfoView>, Seq<StructReferenceView>), NuccError>(
                (chunk@, final(converter.1)@, final(converter.2)@),
            ),
            r matches Err(e) ==> spec_chunk_of(
                converter.0@,
                old(converter.1)@,
                old(converter.2)@,
            ) == Err::<(AnyChunkView, Seq<StructInfoView>, Seq<StructReferenceView>), NuccError>(
                e,
            ),
    {
        let NuccChunkConverter(s, infos, refs) = converter;
        s.to_chunk(infos, refs)
    }

    /// Turns a wire chunk into a logical one.
    pub fn from_chunk(converter: NuccStructConverter) -> (r: Result<AnyStruct, NuccError>)
        ensures
            r matches Ok(s) ==> spec_struct_of(converter.0@, views(converter.1@), views(converter.2@))
                == Ok::<AnyStructView, NuccError>(s@),
            r matches Err(e) ==> spec_struct_of(
                converter.0@,
                views(converter.1@),
                views(converter.2@),
            ) == Err::<AnyStructView, NuccError>(e),
    {
        let NuccStructConverter(chunk, infos, refs) = converter;
        match chunk {
            AnyChunk::Anm(c) => match NuccAnm::from_parts(&c, infos, refs) {
                Ok(s) => Ok(AnyStruct::Anm(s)),
                Err(e) => Err(e),
            },
            AnyChunk::Binary(c) => Ok(AnyStruct::Binary(NuccBinary::from_chunk(c))),
            AnyChunk::Unknown(c) => Ok(AnyStruct::Unknown(NuccUnknown::from_chunk(c))),
            _ => Err(NuccError::UnsupportedFeature),
        }
    }
}

} // verus!
