//! The typed records a resource pack loads into, and the error taxonomy
//! of a load.

use vstd::prelude::*;

verus! {

/// Descriptive metadata of a resource pack. Every field is optional: a
/// record with all fields absent is still valid.
#[derive(Debug, Clone, PartialEq, Eq)]
pub struct RespackInfo {
    pub name: Option<String>,
    pub author: Option<String>,
    pub description: Option<String>,
    pub link: Option<String>,
}

/// Mathematical model of a [`RespackInfo`]: each field as an optional
/// character sequence.
#[verifier::ext_equal]
pub struct RespackInfoView {
    pub name: Option<Seq<char>>,
    pub author: Option<Seq<char>>,
    pub description: Option<Seq<char>>,
    pub link: Option<Seq<char>>,
}

/// The view of an optional string: the character sequence, if present.
pub open spec fn opt_str_view(o: Option<String>) -> Option<Seq<char>> {
    match o {
        Some(s) => Some(s@),
        None => None,
    }
}

impl View for RespackInfo {
    type V = RespackInfoView;

    open spec fn view(&self) -> RespackInfoView {
        RespackInfoView {
            name: opt_str_view(self.name),
            author: opt_str_view(self.author),
            description: opt_str_view(self.description),
            link: opt_str_view(self.link),
        }
    }
}

/// The all-absent metadata record, used when an archive carries no
/// metadata document at all.
pub open spec fn default_info_view() -> RespackInfoView {
    RespackInfoView { name: None, author: None, description: None, link: None }
}

impl Default for RespackInfo {
    /// Metadata with every field absent.
    fn default() -> (r: RespackInfo)
        ensures
            r@ == default_info_view(),
    {
        RespackInfo { name: None, author: None, description: None, link: None }
    }
}

/// The data carried by a loaded resource pack.
#[derive(Debug, Clone, PartialEq, Eq)]
pub struct RespackData {
    pub info: RespackInfo,
}

/// A successfully loaded resource pack: where it came from, and the
/// metadata parsed out of it. Immutable after construction.
#[derive(Debug, Clone, PartialEq, Eq)]
pub struct Respack {
    pub path: String,
    pub data: RespackData,
}

/// Mathematical model of a [`Respack`].
#[verifier::ext_equal]
pub struct RespackView {
    pub path: Seq<char>,
    pub info: RespackInfoView,
}

impl View for Respack {
    type V = RespackView;

    open spec fn view(&self) -> RespackView {
        RespackView { path: self.path@, info: self.data.info@ }
    }
}

/// How reading the archive container failed.
#[derive(Debug, Clone, Copy, PartialEq, Eq, Structural)]
pub enum ArchiveError {
    /// The archive file could not be found.
    NotFound,
    /// The archive bytes could not be read.
    Io,
    /// The archive's central directory could not be parsed.
    CorruptArchive,
    /// One entry's data could not be read back.
    CorruptEntry,
}

/// How parsing the metadata document failed. Absent optional fields are
/// never an error; only a document that does not follow the metadata
/// grammar is.
#[derive(Debug, Clone, Copy, PartialEq, Eq, Structural)]
pub enum ParseError {
    /// The document is not well-formed under the metadata grammar.
    Malformed,
}

/// The failure of one whole load: either the container or the metadata
/// document was at fault.
#[derive(Debug, Clone, Copy, PartialEq, Eq, Structural)]
pub enum RespackError {
    Archive(ArchiveError),
    Parse(ParseError),
}

pub type RespackResult<T = ()> = Result<T, RespackError>;

impl ArchiveError {
    /// A human-readable description, for the error screen.
    pub fn describe(&self) -> (r: &'static str)
        ensures
            r@ == self.describe_spec(),
    {
        match self {
            ArchiveError::NotFound => "resource pack archive not found",
            ArchiveError::Io => "resource pack archive could not be read",
            ArchiveError::CorruptArchive => "resource pack archive is corrupt",
            ArchiveError::CorruptEntry => "an entry of the resource pack archive is corrupt",
        }
    }

    pub open spec fn describe_spec(&self) -> Seq<char> {
        match self {
            ArchiveError::NotFound => "resource pack archive not found"@,
            ArchiveError::Io => "resource pack archive could not be read"@,
            ArchiveError::CorruptArchive => "resource pack archive is corrupt"@,
            ArchiveError::CorruptEntry => "an entry of the resource pack archive is corrupt"@,
        }
    }
}

impl RespackError {
    /// A human-readable description, for the error screen.
    pub fn describe(&self) -> (r: &'static str)
        ensures
            r@ == self.describe_spec(),
    {
        match self {
            RespackError::Archive(e) => e.describe(),
            RespackError::Parse(ParseError::Malformed) => "resource pack metadata is malformed",
        }
    }

    pub open spec fn describe_spec(&self) -> Seq<char> {
        match self {
            RespackError::Archive(e) => e.describe_spec(),
            RespackError::Parse(ParseError::Malformed) => "resource pack metadata is malformed"@,
        }
    }
}

} // verus!
