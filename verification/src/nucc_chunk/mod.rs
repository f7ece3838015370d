//! The wire side of a container: chunks as they lie in the file.

pub mod nucc_chunk_anm;
pub mod nucc_chunk_binary;
pub mod nucc_chunk_index;
pub mod nucc_chunk_null;
pub mod nucc_chunk_page;
pub mod nucc_chunk_unknown;

use vstd::prelude::*;

use crate::error::NuccError;
use crate::utils::write_bytes;
use nucc_chunk_anm::entry::spec_entry_sized;
use nucc_chunk_anm::lemma_anm_round_trip;
use nucc_chunk_anm::spec_anm;
use nucc_chunk_anm::spec_anm_bytes;
use nucc_chunk_anm::ChunkAnmView;
use nucc_chunk_binary::lemma_binary_round_trip;
use nucc_chunk_binary::spec_binary;
use nucc_chunk_binary::spec_binary_bytes;
use nucc_chunk_binary::ChunkBinaryView;
use nucc_chunk_page::lemma_page_round_trip;
use nucc_chunk_page::spec_page;
use nucc_chunk_page::spec_page_bytes;
use nucc_chunk_unknown::ChunkUnknownView;

pub use nucc_chunk_anm::ClumpCoordIndex;
pub use nucc_chunk_anm::Curve;
pub use nucc_chunk_anm::CurveFormat;
pub use nucc_chunk_anm::CurveHeader;
pub use nucc_chunk_anm::Entry;
pub use nucc_chunk_anm::EntryFormat;
pub use nucc_chunk_anm::NuccChunkAnm;
pub use nucc_chunk_anm::ParentChildIndex;
pub use nucc_chunk_binary::NuccChunkBinary;
pub use nucc_chunk_index::NuccChunkIndex;
pub use nucc_chunk_null::NuccChunkNull;
pub use nucc_chunk_page::NuccChunkPage;
pub use nucc_chunk_unknown::NuccChunkUnknown;

verus! {

/// The kinds of chunk that the container knows.
#[derive(Debug, Clone, Copy, PartialEq, Eq, Structural)]
pub enum NuccChunkType {
    /// Not a type of its own: any type string that is not one of the others.
    NuccChunkUnknown,
    NuccChunkNull,
    NuccChunkPage,
    /// Does not occur as a chunk; it only has an entry in the index.
    NuccChunkIndex,
    NuccChunkAnm,
    NuccChunkBinary,
}

/// The type string of each kind, in camel case.
pub open spec fn spec_type_name(t: NuccChunkType) -> Seq<char> {
    match t {
        NuccChunkType::NuccChunkUnknown => "nuccChunkUnknown"@,
        NuccChunkType::NuccChunkNull => "nuccChunkNull"@,
        NuccChunkType::NuccChunkPage => "nuccChunkPage"@,
        NuccChunkType::NuccChunkIndex => "nuccChunkIndex"@,
        NuccChunkType::NuccChunkAnm => "nuccChunkAnm"@,
        NuccChunkType::NuccChunkBinary => "nuccChunkBinary"@,
    }
}

/// The kind that a type string selects: the kind with that name, and
/// `NuccChunkUnknown` for every other string.
pub open spec fn spec_type_of_name(name: Seq<char>) -> NuccChunkType {
    if name == "nuccChunkNull"@ {
        NuccChunkType::NuccChunkNull
    } else if name == "nuccChunkPage"@ {
        NuccChunkType::NuccChunkPage
    } else if name == "nuccChunkIndex"@ {
        NuccChunkType::NuccChunkIndex
    } else if name == "nuccChunkAnm"@ {
        NuccChunkType::NuccChunkAnm
    } else if name == "nuccChunkBinary"@ {
        NuccChunkType::NuccChunkBinary
    } else {
        NuccChunkType::NuccChunkUnknown
    }
}

impl Default for NuccChunkType {
    fn default() -> (r: Self)
        ensures
            r == NuccChunkType::NuccChunkUnknown,
    {
        NuccChunkType::NuccChunkUnknown
    }
}

/// Whether two strings hold the same text.
fn same_text(a: &str, b: &str) -> (r: bool)
    ensures
        r == (a@ == b@),
{
    let x: String = a.to_owned();
    let y: String = b.to_owned();
    x == y
}

impl NuccChunkType {
    /// The type string of this kind.
    pub fn to_string(&self) -> (r: String)
        ensures
            r@ == spec_type_name(*self),
    {
        match self {
            NuccChunkType::NuccChunkUnknown => "nuccChunkUnknown".to_owned(),
            NuccChunkType::NuccChunkNull => "nuccChunkNull".to_owned(),
            NuccChunkType::NuccChunkPage => "nuccChunkPage".to_owned(),
            NuccChunkType::NuccChunkIndex => "nuccChunkIndex".to_owned(),
            NuccChunkType::NuccChunkAnm => "nuccChunkAnm".to_owned(),
            NuccChunkType::NuccChunkBinary => "nuccChunkBinary".to_owned(),
        }
    }

    /// The kind that a type string selects.
    pub fn from_str(name: &str) -> (r: NuccChunkType)
        ensures
            r == spec_type_of_name(name@),
    {
        if same_text(name, "nuccChunkNull") {
            NuccChunkType::NuccChunkNull
        } else if same_text(name, "nuccChunkPage") {
            NuccChunkType::NuccChunkPage
        } else if same_text(name, "nuccChunkIndex") {
            NuccChunkType::NuccChunkIndex
        } else if same_text(name, "nuccChunkAnm") {
            NuccChunkType::NuccChunkAnm
        } else if same_text(name, "nuccChunkBinary") {
            NuccChunkType::NuccChunkBinary
        } else {
            NuccChunkType::NuccChunkUnknown
        }
    }
}

/// A name selects the kind that bears it.
pub proof fn lemma_type_name_round_trip(t: NuccChunkType)
    ensures
        spec_type_of_name(spec_type_name(t)) == t,
{
    reveal_strlit("nuccChunkUnknown");
    reveal_strlit("nuccChunkNull");
    reveal_strlit("nuccChunkPage");
    reveal_strlit("nuccChunkIndex");
    reveal_strlit("nuccChunkAnm");
    reveal_strlit("nuccChunkBinary");
    match t {
        NuccChunkType::NuccChunkUnknown => {
            assert("nuccChunkUnknown"@.len() == 16);
        },
        NuccChunkType::NuccChunkNull => {},
        NuccChunkType::NuccChunkPage => {
            assert("nuccChunkPage"@[9] == 'P');
        },
        NuccChunkType::NuccChunkIndex => {
            assert("nuccChunkIndex"@[9] == 'I');
        },
        NuccChunkType::NuccChunkAnm => {
            assert("nuccChunkAnm"@[9] == 'A');
        },
        NuccChunkType::NuccChunkBinary => {
            assert("nuccChunkBinary"@[9] == 'B');
        },
    }
}

/// A wire chunk of any kind.
#[derive(Debug, PartialEq, Eq)]
pub enum AnyChunk {
    Null(NuccChunkNull),
    Page(NuccChunkPage),
    Index(NuccChunkIndex),
    Anm(NuccChunkAnm),
    Binary(NuccChunkBinary),
    Unknown(NuccChunkUnknown),
}

/// An `AnyChunk` as plain values.
pub enum AnyChunkView {
    Null(u16),
    Page(NuccChunkPage),
    Index,
    Anm(ChunkAnmView),
    Binary(ChunkBinaryView),
    Unknown(ChunkUnknownView),
}

impl View for AnyChunk {
    type V = AnyChunkView;

    open spec fn view(&self) -> AnyChunkView {
        match self {
            AnyChunk::Null(c) => AnyChunkView::Null(c.0),
            AnyChunk::Page(c) => AnyChunkView::Page(*c),
            AnyChunk::Index(c) => AnyChunkView::Index,
            AnyChunk::Anm(c) => AnyChunkView::Anm(c@),
            AnyChunk::Binary(c) => AnyChunkView::Binary(c@),
            AnyChunk::Unknown(c) => AnyChunkView::Unknown(c@),
        }
    }
}

/// The kind of a chunk.
pub open spec fn spec_kind(chunk: AnyChunkView) -> NuccChunkType {
    match chunk {
        AnyChunkView::Null(_) => NuccChunkType::NuccChunkNull,
        AnyChunkView::Page(_) => NuccChunkType::NuccChunkPage,
        AnyChunkView::Index => NuccChunkType::NuccChunkIndex,
        AnyChunkView::Anm(_) => NuccChunkType::NuccChunkAnm,
        AnyChunkView::Binary(_) => NuccChunkType::NuccChunkBinary,
        AnyChunkView::Unknown(_) => NuccChunkType::NuccChunkUnknown,
    }
}

/// The version that a chunk was written for; the index has none and
/// answers 0.
pub open spec fn spec_version_of(chunk: AnyChunkView) -> u16 {
    match chunk {
        AnyChunkView::Null(version) => version,
        AnyChunkView::Page(c) => c.version,
        AnyChunkView::Index => 0,
        AnyChunkView::Anm(c) => c.version,
        AnyChunkView::Binary(c) => c.version,
        AnyChunkView::Unknown(c) => c.version,
    }
}

/// The chunk that a payload stands for under a type string. The type
/// string picks the kind; a null chunk and the index pass their payload
/// over, and a chunk of a type that is not known keeps it as it is.
pub open spec fn spec_read_struct(data: Seq<u8>, chunk_type: Seq<char>, version: u16) -> Result<
    AnyChunkView,
    NuccError,
> {
    match spec_type_of_name(chunk_type) {
        NuccChunkType::NuccChunkNull => Ok(AnyChunkView::Null(version)),
        NuccChunkType::NuccChunkPage => match spec_page(data, version) {
            Ok(c) => Ok(AnyChunkView::Page(c)),
            Err(e) => Err(e),
        },
        NuccChunkType::NuccChunkIndex => Ok(AnyChunkView::Index),
        NuccChunkType::NuccChunkAnm => match spec_anm(data, version) {
            Ok(c) => Ok(AnyChunkView::Anm(c)),
            Err(e) => Err(e),
        },
        NuccChunkType::NuccChunkBinary => match spec_binary(data, version) {
            Ok(c) => Ok(AnyChunkView::Binary(c)),
            Err(e) => Err(e),
        },
        NuccChunkType::NuccChunkUnknown => Ok(
            AnyChunkView::Unknown(ChunkUnknownView { data, chunk_type, version }),
        ),
    }
}

/// The payload of a chunk. A null chunk and the index have none.
pub open spec fn spec_write_struct(chunk: AnyChunkView) -> Result<Seq<u8>, NuccError> {
    match chunk {
        AnyChunkView::Null(_) => Ok(seq![]),
        AnyChunkView::Index => Ok(seq![]),
        AnyChunkView::Page(c) => Ok(spec_page_bytes(c)),
        AnyChunkView::Anm(c) => spec_anm_bytes(c),
        AnyChunkView::Binary(c) => spec_binary_bytes(c),
        AnyChunkView::Unknown(c) => Ok(c.data),
    }
}

impl NuccChunk for AnyChunk {
    open spec fn spec_chunk_type(&self) -> NuccChunkType {
        spec_kind(self@)
    }

    open spec fn spec_version(&self) -> u16 {
        spec_version_of(self@)
    }

    fn chunk_type(&self) -> (t: NuccChunkType) {
        match self {
            AnyChunk::Null(c) => c.chunk_type(),
            AnyChunk::Page(c) => c.chunk_type(),
            AnyChunk::Index(c) => c.chunk_type(),
            AnyChunk::Anm(c) => c.chunk_type(),
            AnyChunk::Binary(c) => c.chunk_type(),
            AnyChunk::Unknown(c) => c.chunk_type(),
        }
    }

    fn version(&self) -> (v: u16) {
        match self {
            AnyChunk::Null(c) => c.version(),
            AnyChunk::Page(c) => c.version(),
            AnyChunk::Index(c) => c.version(),
            AnyChunk::Anm(c) => c.version(),
            AnyChunk::Binary(c) => c.version(),
            AnyChunk::Unknown(c) => c.version(),
        }
    }
}

impl NuccChunkType {
    /// Reads the chunk that a payload stands for under a type string.
    pub fn read_struct(input: &Vec<u8>, chunk_type: &str, version: u16) -> (r: Result<
        AnyChunk,
        NuccError,
    >)
        ensures
            r matches Ok(c) ==> spec_read_struct(input@, chunk_type@, version) == Ok::<
                AnyChunkView,
                NuccError,
            >(c@),
            r matches Err(e) ==> spec_read_struct(input@, chunk_type@, version) == Err::<
                AnyChunkView,
                NuccError,
            >(e),
    {
        match NuccChunkType::from_str(chunk_type) {
            NuccChunkType::NuccChunkNull => Ok(AnyChunk::Null(NuccChunkNull(version))),
            NuccChunkType::NuccChunkPage => match NuccChunkPage::read(input, version) {
                Ok(c) => Ok(AnyChunk::Page(c)),
                Err(e) => Err(e),
            },
            NuccChunkType::NuccChunkIndex => Ok(AnyChunk::Index(NuccChunkIndex)),
            NuccChunkType::NuccChunkAnm => match NuccChunkAnm::read(input, version) {
                Ok(c) => Ok(AnyChunk::Anm(c)),
                Err(e) => Err(e),
            },
            NuccChunkType::NuccChunkBinary => match NuccChunkBinary::read(input, version) {
                Ok(c) => Ok(AnyChunk::Binary(c)),
                Err(e) => Err(e),
            },
            NuccChunkType::NuccChunkUnknown => {
                let mut data: Vec<u8> = Vec::new();
                write_bytes(&mut data, input);
                assert(data@ =~= input@);
                Ok(
                    AnyChunk::Unknown(
                        NuccChunkUnknown { data, chunk_type: chunk_type.to_owned(), version },
                    ),
                )
            },
        }
    }

    /// Writes the payload of a chunk.
    pub fn write_struct(chunk: &AnyChunk) -> (r: Result<Vec<u8>, NuccError>)
        ensures
            r matches Ok(bytes) ==> spec_write_struct(chunk@) == Ok::<Seq<u8>, NuccError>(bytes@),
            r matches Err(e) ==> spec_write_struct(chunk@) == Err::<Seq<u8>, NuccError>(e),
    {
        let mut output: Vec<u8> = Vec::new();
        match chunk {
            AnyChunk::Null(_) => {},
            AnyChunk::Index(_) => {},
            AnyChunk::Page(c) => {
                c.write(&mut output);
            },
            AnyChunk::Anm(c) => {
                match c.write(&mut output) {
                    Ok(()) => {},
                    Err(e) => { return Err(e); },
                }
            },
            AnyChunk::Binary(c) => {
                match c.write(&mut output) {
                    Ok(()) => {},
                    Err(e) => { return Err(e); },
                }
            },
            AnyChunk::Unknown(c) => {
                write_bytes(&mut output, &c.data);
            },
        }
        assert(output@ =~= spec_write_struct(chunk@)->Ok_0);
        Ok(output)
    }
}

/// Whether a chunk can be told from its payload: in an animation every
/// curve takes as many bytes as its header announces, and a chunk of a type
/// that is not known bears a type string that names none of the known
/// types.
pub open spec fn spec_readable(chunk: AnyChunkView) -> bool {
    match chunk {
        AnyChunkView::Anm(anm) => forall|i: int|
            0 <= i < anm.entries.len() ==> spec_entry_sized(#[trigger] anm.entries[i]),
        AnyChunkView::Unknown(unknown) => spec_type_of_name(unknown.chunk_type)
            == NuccChunkType::NuccChunkUnknown,
        _ => true,
    }
}

/// The type string under which a chunk is read back.
pub open spec fn spec_type_string(chunk: AnyChunkView) -> Seq<char> {
    match chunk {
        AnyChunkView::Unknown(unknown) => unknown.chunk_type,
        _ => spec_type_name(spec_kind(chunk)),
    }
}

/// A chunk is read back from its payload under its type string and its
/// version.
pub proof fn lemma_struct_round_trip(chunk: AnyChunkView)
    requires
        spec_write_struct(chunk) is Ok,
        spec_readable(chunk),
    ensures
        spec_read_struct(
            spec_write_struct(chunk)->Ok_0,
            spec_type_string(chunk),
            spec_version_of(chunk),
        ) == Ok::<AnyChunkView, NuccError>(chunk),
{
    lemma_type_name_round_trip(spec_kind(chunk));
    match chunk {
        AnyChunkView::Page(page) => {
            lemma_page_round_trip(page);
        },
        AnyChunkView::Anm(anm) => {
            lemma_anm_round_trip(anm, Seq::<u8>::empty());
            let bytes = spec_write_struct(chunk)->Ok_0;
            assert(bytes + Seq::<u8>::empty() =~= bytes);
        },
        AnyChunkView::Binary(binary) => {
            lemma_binary_round_trip(binary);
        },
        _ => {},
    }
}

/// What every wire chunk can tell of itself.
pub trait NuccChunk {
    /// The kind of this chunk.
    spec fn spec_chunk_type(&self) -> NuccChunkType;

    /// The version this chunk was written for.
    spec fn spec_version(&self) -> u16;

    fn chunk_type(&self) -> (t: NuccChunkType)
        ensures
            t == self.spec_chunk_type(),
    ;

    fn version(&self) -> (v: u16)
        ensures
            v == self.spec_version(),
    ;
}

} // verus!
