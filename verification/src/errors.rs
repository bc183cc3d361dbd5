//! What can go wrong, by kind.

use vstd::prelude::*;
use vstd::string::StringExecFns;
use crate::bookmarks::Bookmark;
use crate::manifest::{HgParents, Type};
use crate::nodehash::{
    ChangesetId, ContentId, HgChangesetId, HgFileNodeId, HgManifestId, HgNodeHash, Sha256,
};
use crate::path::{MPath, PathError, RepoPath};

verus! {

/// The part of a repository's state that could not be opened.
#[derive(Clone, Copy, Debug, PartialEq, Eq, Structural)]
pub enum StateOpenError {
    Heads,
    Bookmarks,
    Blobstore,
    Changesets,
    Filenodes,
    BonsaiHgMapping,
}

impl StateOpenError {
    /// The name of the part, as it stands in messages.
    pub open spec fn name(self) -> Seq<char> {
        match self {
            StateOpenError::Heads => "heads"@,
            StateOpenError::Bookmarks => "bookmarks"@,
            StateOpenError::Blobstore => "blob store"@,
            StateOpenError::Changesets => "changesets"@,
            StateOpenError::Filenodes => "filenodes"@,
            StateOpenError::BonsaiHgMapping => "bonsai_hg_mapping"@,
        }
    }

    /// The name of the part, as it stands in messages.
    pub fn to_string(&self) -> (r: String)
        ensures
            r@ == self.name(),
    {
        match self {
            StateOpenError::Heads => String::from_str("heads"),
            StateOpenError::Bookmarks => String::from_str("bookmarks"),
            StateOpenError::Blobstore => String::from_str("blob store"),
            StateOpenError::Changesets => String::from_str("changesets"),
            StateOpenError::Filenodes => String::from_str("filenodes"),
            StateOpenError::BonsaiHgMapping => String::from_str("bonsai_hg_mapping"),
        }
    }
}

/// What can go wrong inside a repository.
#[derive(Debug)]
pub enum ErrorKind {
    MissingTypedKeyEntry(String),
    IncorrectAliasBlobContent(Sha256),
    StateOpen(StateOpenError),
    ChangesetMissing(HgChangesetId),
    ChangesetDeserializeFailed(String),
    ManifestDeserializeFailed(String),
    FileNodeDeserializeFailed(String),
    ManifestMissing(HgManifestId),
    NodeMissing(HgNodeHash),
    HgContentMissing(HgNodeHash, Type),
    ContentMissing(HgNodeHash),
    FileContentsDeserializeFailed(String),
    ContentBlobMissing(ContentId),
    /// The blob that came, as far as it came.
    BadUploadBlob(Vec<u8>),
    ParentsUnknown(HgParents),
    /// The node, and what the serializer said.
    SerializationFailed(HgNodeHash, String),
    BadRootManifest(Type),
    ManifestTypeMismatch(Type, Type),
    NodeGenerationFailed,
    DuplicateEntry(RepoPath),
    DuplicateManifest(HgNodeHash),
    MissingEntries(HgNodeHash),
    MissingFilenode(RepoPath, HgFileNodeId),
    MissingManifests,
    NotAManifest(HgNodeHash, Type),
    /// The path, the hash provided and the hash computed.
    InconsistentEntryHash(RepoPath, HgNodeHash, HgNodeHash),
    /// The hash provided and the hash computed.
    InconsistentChangesetHash(HgNodeHash, HgNodeHash),
    BookmarkNotFound(Bookmark),
    UnresolvedConflicts,
    UnchangedManifest,
    ManifestAlreadyAMerge(HgNodeHash, HgNodeHash),
    PathNotFound(MPath),
    NotADirectory,
    EmptyFilePath,
    SingleEntryConflict,
    MissingCachePool(String),
    BonsaiNotFound(ChangesetId),
    BonsaiMappingNotFound(HgChangesetId),
    UnexpectedRootPath,
    IncorrectCopyInfo { from_path: MPath, from_node: HgFileNodeId, to_path: MPath, to_node: HgFileNodeId },
    CaseConflict(MPath),
}

/// Why a piece of input was refused.
#[derive(Clone, Copy, Debug, PartialEq, Eq, Structural)]
pub enum InputFault {
    /// It is not a path.
    BadPath(PathError),
    /// It is not a hash of the length asked for, written in hexadecimal.
    BadHash,
}

/// What a request to the server can fail with.
#[derive(Debug)]
pub enum ServerError {
    /// The input, and what was wrong with it.
    InvalidInput(String, Option<InputFault>),
    NotFound(String),
    /// Stored data does not hash to the name it is stored under.
    DataCorruption { path: RepoPath, expected: HgNodeHash, actual: HgNodeHash },
    Conflict(String),
    ReadOnly(String),
    Timeout,
    InternalIO(String),
    ProtocolViolation(String),
}

} // verus!
