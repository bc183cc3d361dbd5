//! What the read-only API hands out: entries and changesets in a form
//! that can be written as text.

use vstd::prelude::*;
use vstd::utf8::{encode_utf8, valid_utf8};
use vstd::string::StringExecFns;
use crate::hex::to_hex;
use crate::manifest::{sha1, sha1_digest, sha1_input_limit, Type};
use crate::nodehash::{HgChangesetId, HgManifestId, HgNodeHash};
use crate::store::RepositoryId;
use crate::text::{
    copy_bytes, decimal_digits, is_ascii_bytes, lemma_decimal_digits_ascii, push_all,
    push_decimal, string_from_utf8, string_from_utf8_lossy, utf8_lossy,
};

verus! {

/// The kind of an entry, as the API names it.
#[derive(Clone, Copy, Debug, PartialEq, Eq, Structural)]
pub enum FileType {
    File,
    Tree,
    Executable,
    Symlink,
}

/// The kind of an entry, as the binary API names it.
#[derive(Clone, Copy, Debug, PartialEq, Eq, Structural)]
#[allow(non_camel_case_types)]
pub enum MononokeFileType {
    FILE,
    TREE,
    EXECUTABLE,
    SYMLINK,
}

impl From<Type> for FileType {
    fn from(ttype: Type) -> (r: FileType) {
        match ttype {
            Type::File(kind) => match kind {
                crate::manifest::FileType::Regular => FileType::File,
                crate::manifest::FileType::Executable => FileType::Executable,
                crate::manifest::FileType::Symlink => FileType::Symlink,
            },
            Type::Tree => FileType::Tree,
        }
    }
}

impl vstd::std_specs::convert::FromSpecImpl<Type> for FileType {
    open spec fn obeys_from_spec() -> bool {
        true
    }

    open spec fn from_spec(ttype: Type) -> FileType {
        match ttype {
            Type::File(kind) => match kind {
                crate::manifest::FileType::Regular => FileType::File,
                crate::manifest::FileType::Executable => FileType::Executable,
                crate::manifest::FileType::Symlink => FileType::Symlink,
            },
            Type::Tree => FileType::Tree,
        }
    }
}

impl From<FileType> for MononokeFileType {
    fn from(file_type: FileType) -> (r: MononokeFileType) {
        match file_type {
            FileType::File => MononokeFileType::FILE,
            FileType::Tree => MononokeFileType::TREE,
            FileType::Executable => MononokeFileType::EXECUTABLE,
            FileType::Symlink => MononokeFileType::SYMLINK,
        }
    }
}

impl vstd::std_specs::convert::FromSpecImpl<FileType> for MononokeFileType {
    open spec fn obeys_from_spec() -> bool {
        true
    }

    open spec fn from_spec(file_type: FileType) -> MononokeFileType {
        match file_type {
            FileType::File => MononokeFileType::FILE,
            FileType::Tree => MononokeFileType::TREE,
            FileType::Executable => MononokeFileType::EXECUTABLE,
            FileType::Symlink => MononokeFileType::SYMLINK,
        }
    }
}

/// Bytes that should be text are not well-formed UTF-8.
#[derive(Clone, Copy, Debug, PartialEq, Eq, Structural)]
pub struct Utf8Error;

/// An entry of a manifest, as the API hands it out.
#[derive(Debug, PartialEq, Eq)]
pub struct Entry {
    pub name: String,
    pub ttype: FileType,
    pub hash: String,
}

/// An entry of a manifest with the size and the SHA-1 digest of what it
/// names.
#[derive(Clone, Debug, PartialEq, Eq)]
pub struct EntryWithSizeAndContentHash {
    pub name: String,
    pub ttype: FileType,
    pub hash: String,
    /// The length of a file; the number of entries of a manifest.
    pub size: Option<usize>,
    /// The digest of a file's content, in hexadecimal; nothing for a
    /// manifest.
    pub content_sha1: Option<String>,
}

#[derive(Debug, PartialEq, Eq)]
pub struct MononokeNodeHash {
    pub hash: String,
}

#[derive(Debug, PartialEq, Eq)]
pub struct MononokeTreeHash {
    pub hash: String,
}

/// An entry of a manifest, as the binary API hands it out.
#[derive(Debug, PartialEq, Eq)]
pub struct MononokeFile {
    pub name: String,
    pub file_type: MononokeFileType,
    pub hash: MononokeNodeHash,
    pub size: Option<i64>,
    pub content_sha1: Option<String>,
}

/// What a manifest entry names, fetched.
#[derive(Debug)]
pub enum Content {
    File(Vec<u8>),
    Executable(Vec<u8>),
    Symlink(Vec<u8>),
    /// A manifest, by the number of its entries.
    Tree(usize),
}

/// Why an entry could not be given size and digest.
#[derive(Clone, Copy, Debug, PartialEq, Eq, Structural)]
pub enum MaterializeError {
    /// The entry has no name: "HgEntry has no name!?".
    NoName,
    /// The name is not well-formed UTF-8.
    BadName,
}

impl Entry {
    /// The entry as the API hands it out: its name as text (the root has
    /// the empty name), its kind, its hash in hexadecimal. A name that is
    /// not well-formed UTF-8 is an error.
    pub fn try_from(entry: &crate::manifest::Entry) -> (r: Result<Entry, Utf8Error>)
        ensures
            r is Ok <==> valid_utf8(entry_name_bytes(*entry)),
            r matches Ok(e) ==> encode_utf8(e.name@) == entry_name_bytes(*entry) && e.ttype
                == <FileType as vstd::std_specs::convert::FromSpec<Type>>::from_spec(entry.ttype)
                && encode_utf8(e.hash@) == to_hex(entry.hash@),
    {
        let name = match &entry.name {
            Some(n) => n.to_bytes(),
            None => Vec::new(),
        };
        let name = match string_from_utf8(name) {
            Some(s) => s,
            None => {
                return Err(Utf8Error);
            },
        };
        let ttype = FileType::from(entry.ttype);
        let hash = entry.hash.to_hex();
        Ok(Entry { name, ttype, hash })
    }
}

/// The bytes of an entry's name; none for the root.
pub open spec fn entry_name_bytes(entry: crate::manifest::Entry) -> Seq<u8> {
    match entry.name {
        Some(n) => n@,
        None => Seq::empty(),
    }
}

/// The digits of a repository's number, filled up with zeros to four
/// places; a minus sign counts as a place.
pub open spec fn padded_id(id: i32) -> Seq<u8> {
    if id >= 0 {
        zeros((4 - decimal_digits(id as nat).len()) as int) + decimal_digits(id as nat)
    } else {
        seq![45u8] + zeros((3 - decimal_digits((-id) as nat).len()) as int) + decimal_digits(
            (-id) as nat,
        )
    }
}

/// That many zeros; none for a number that is not positive.
pub open spec fn zeros(n: int) -> Seq<u8> {
    Seq::new(if n > 0 { n as nat } else { 0 }, |i: int| 48u8)
}

/// What the keys of a repository start with: `repo`, its number in at
/// least four places, a dot.
pub open spec fn repo_prefix(id: i32) -> Seq<u8> {
    encode_utf8("repo"@) + padded_id(id) + seq![46u8]
}

/// The cache key of an entry: the repository's prefix, a colon, the
/// entry's hash.
pub open spec fn cache_key(id: i32, hash: Seq<u8>) -> Seq<u8> {
    repo_prefix(id) + seq![58u8] + hash
}

fn push_zeros(out: &mut Vec<u8>, width: usize, have: usize)
    ensures
        final(out)@ == old(out)@ + zeros(width - have),
{
    let mut n: usize = have;
    assert(old(out)@ + zeros(0) =~= old(out)@);
    while n < width
        invariant
            have <= n <= width || (n == have && have > width),
            out@ == old(out)@ + zeros(n - have),
        decreases width - n,
    {
        out.push(48);
        assert(zeros(n + 1 - have) =~= zeros(n - have).push(48u8));
        n += 1;
    }
    assert(zeros(width - have) =~= zeros(n - have));
}

impl RepositoryId {
    /// What the keys of the repository start with.
    pub fn prefix(&self) -> (p: Vec<u8>)
        ensures
            p@ == repo_prefix(self.0),
            is_ascii_bytes(p@),
    {
        let mut digits: Vec<u8> = Vec::new();
        let mut out = copy_bytes("repo".as_bytes());
        if self.0 >= 0 {
            push_decimal(&mut digits, self.0 as u64);
            push_zeros(&mut out, 4, digits.len());
        } else {
            push_decimal(&mut digits, (0 - self.0 as i64) as u64);
            out.push(45);
            push_zeros(&mut out, 3, digits.len());
        }
        push_all(&mut out, digits.as_slice());
        out.push(46);
        proof {
            assert(out@ =~= repo_prefix(self.0));
            reveal_strlit("repo");
            vstd::utf8::is_ascii_chars_encode_utf8("repo"@);
            if self.0 >= 0 {
                lemma_decimal_digits_ascii(self.0 as nat);
            } else {
                lemma_decimal_digits_ascii((-self.0) as nat);
            }
        }
        out
    }
}

impl EntryWithSizeAndContentHash {
    /// The key under which the entry of a repository lies in the cache.
    pub fn get_cache_key(repoid: RepositoryId, hash: &str) -> (key: Vec<u8>)
        ensures
            key@ == cache_key(repoid.0, encode_utf8(hash@)),
    {
        let mut key = repoid.prefix();
        key.push(58);
        push_all(&mut key, hash.as_bytes());
        key
    }

    /// The entry with the size and the digest of what it names, given
    /// what was fetched for it. A file has its length and the SHA-1
    /// digest of its content; a manifest has the number of its entries
    /// and no digest. An entry without a name, or with a name that is not
    /// text, is an error.
    pub fn materialize_future(
        name: Option<Vec<u8>>,
        ttype: Type,
        hash: HgNodeHash,
        content: Content,
    ) -> (r: Result<EntryWithSizeAndContentHash, MaterializeError>)
        requires
            content_bytes(content).len() < sha1_input_limit(),
        ensures
            name is None ==> r == Err::<EntryWithSizeAndContentHash, MaterializeError>(
                MaterializeError::NoName,
            ),
            name matches Some(n) ==> (r is Ok <==> valid_utf8(n@)) && (r is Err ==> r == Err::<
                EntryWithSizeAndContentHash,
                MaterializeError,
            >(MaterializeError::BadName)),
            r matches Ok(e) ==> {
                &&& encode_utf8(e.name@) == name->0@
                &&& e.ttype == <FileType as vstd::std_specs::convert::FromSpec<Type>>::from_spec(
                    ttype,
                )
                &&& encode_utf8(e.hash@) == to_hex(hash@)
                &&& e.size == Some(
                    match content {
                        Content::Tree(n) => n,
                        _ => content_bytes(content).len() as usize,
                    },
                )
                &&& match content {
                    Content::Tree(n) => e.content_sha1 is None,
                    _ => e.content_sha1 matches Some(d) && encode_utf8(d@) == to_hex(
                        sha1(content_bytes(content)),
                    ),
                }
            },
    {
        let name = match name {
            Some(n) => n,
            None => {
                return Err(MaterializeError::NoName);
            },
        };
        let name = match string_from_utf8(name) {
            Some(s) => s,
            None => {
                return Err(MaterializeError::BadName);
            },
        };
        let (size, content_sha1) = match &content {
            Content::File(c) | Content::Executable(c) | Content::Symlink(c) => {
                let digest = sha1_digest(c.as_slice());
                (c.len(), Some(digest.to_hex()))
            },
            Content::Tree(n) => (*n, None),
        };
        Ok(
            EntryWithSizeAndContentHash {
                name,
                ttype: FileType::from(ttype),
                hash: hash.to_hex(),
                size: Some(size),
                content_sha1,
            },
        )
    }
}

/// The words that say that an entry was not found.
pub open spec fn not_found_message(hash: Seq<char>) -> Seq<char> {
    "Entry "@ + hash + " not found"@
}

impl EntryWithSizeAndContentHash {
    /// The entry that the cache or the computation behind it came up
    /// with; an error where they came up with none.
    pub fn found_or_not(entry: Option<EntryWithSizeAndContentHash>, hash: &str) -> (r: Result<
        EntryWithSizeAndContentHash,
        crate::errors::ServerError,
    >)
        ensures
            match entry {
                Some(e) => r == Ok::<EntryWithSizeAndContentHash, crate::errors::ServerError>(e),
                None => r matches Err(crate::errors::ServerError::NotFound(m)) && m@
                    == not_found_message(hash@),
            },
    {
        match entry {
            Some(e) => Ok(e),
            None => {
                let mut message = String::from_str("Entry ");
                message.append(hash);
                message.append(" not found");
                Err(crate::errors::ServerError::NotFound(message))
            },
        }
    }
}

/// The bytes of a file; none for a manifest.
pub open spec fn content_bytes(content: Content) -> Seq<u8> {
    match content {
        Content::File(c) => c@,
        Content::Executable(c) => c@,
        Content::Symlink(c) => c@,
        Content::Tree(n) => Seq::empty(),
    }
}

/// A size as the binary API writes it: in 64 bits with a sign.
pub open spec fn wire_size(size: usize) -> i64 {
    if size <= i64::MAX {
        size as i64
    } else {
        (size - 0x1_0000_0000_0000_0000) as i64
    }
}

impl MononokeFile {
    /// The entry as the binary API hands it out: name and kind; hash,
    /// size and digest are left empty.
    pub fn from_entry(entry: Entry) -> (r: MononokeFile)
        ensures
            r.name == entry.name,
            r.file_type == <MononokeFileType as vstd::std_specs::convert::FromSpec<
                FileType,
            >>::from_spec(entry.ttype),
            r.hash.hash@ == Seq::<char>::empty(),
            r.size is None,
            r.content_sha1 is None,
    {
        MononokeFile {
            name: entry.name,
            file_type: MononokeFileType::from(entry.ttype),
            hash: MononokeNodeHash { hash: String::new() },
            size: None,
            content_sha1: None,
        }
    }

    /// The entry as the binary API hands it out, with size and digest.
    pub fn from_entry_with_size(entry: EntryWithSizeAndContentHash) -> (r: MononokeFile)
        ensures
            r.name == entry.name,
            r.file_type == <MononokeFileType as vstd::std_specs::convert::FromSpec<
                FileType,
            >>::from_spec(entry.ttype),
            r.hash.hash == entry.hash,
            r.size == (match entry.size {
                Some(s) => Some(wire_size(s)),
                None => None,
            }),
            r.content_sha1 == entry.content_sha1,
    {
        let size = match entry.size {
            Some(s) => {
                let wide: u64 = s as u64;
                Some(
                    if wide <= 0x7fff_ffff_ffff_ffffu64 {
                        wide as i64
                    } else {
                        (wide as i128 - 0x1_0000_0000_0000_0000i128) as i64
                    },
                )
            },
            None => None,
        };
        MononokeFile {
            name: entry.name,
            file_type: MononokeFileType::from(entry.ttype),
            hash: MononokeNodeHash { hash: entry.hash },
            size,
            content_sha1: entry.content_sha1,
        }
    }
}

/// A point in time: seconds since 1970, and the offset of the time zone
/// it was written in, in seconds.
#[derive(Clone, Copy, Debug, PartialEq, Eq, Structural)]
pub struct DateTime {
    pub timestamp_secs: i64,
    pub tz_offset_secs: i32,
}

/// A changeset as the repository holds it.
#[derive(Debug)]
pub struct HgBlobChangeset {
    pub changesetid: HgChangesetId,
    pub manifestid: HgManifestId,
    pub user: Vec<u8>,
    pub time: DateTime,
    pub extra: Vec<(Vec<u8>, Vec<u8>)>,
    pub comments: Vec<u8>,
    pub p1: Option<HgNodeHash>,
    pub p2: Option<HgNodeHash>,
}

/// A changeset as the API hands it out.
#[derive(Debug, PartialEq, Eq)]
pub struct Changeset {
    pub commit_hash: String,
    pub manifest: String,
    pub comment: String,
    pub date: DateTime,
    pub author: String,
    pub parents: Vec<String>,
    /// The extras in the order stored; of two with the same name the
    /// later counts.
    pub extra: Vec<(String, Vec<u8>)>,
}

/// A changeset as the binary API hands it out.
#[derive(Debug, PartialEq, Eq)]
pub struct MononokeChangeset {
    pub commit_hash: String,
    pub message: String,
    pub date: i64,
    pub author: String,
    pub parents: Vec<String>,
    pub extra: Vec<(String, Vec<u8>)>,
    pub manifest: MononokeTreeHash,
}

/// The parents that are there, first parent first, in hexadecimal.
pub open spec fn parent_texts(p1: Option<HgNodeHash>, p2: Option<HgNodeHash>) -> Seq<Seq<u8>> {
    (match p1 {
        Some(p) => seq![to_hex(p@)],
        None => Seq::empty(),
    }) + (match p2 {
        Some(p) => seq![to_hex(p@)],
        None => Seq::empty(),
    })
}

impl Changeset {
    /// The changeset as the API hands it out: hashes in hexadecimal, the
    /// message and the author as text, the names of the extras read
    /// leniently. A message or an author that is not well-formed UTF-8
    /// is an error.
    pub fn try_from(changeset: &HgBlobChangeset) -> (r: Result<Changeset, Utf8Error>)
        ensures
            r is Ok <==> valid_utf8(changeset.comments@) && valid_utf8(changeset.user@),
            r matches Ok(c) ==> {
                &&& encode_utf8(c.commit_hash@) == to_hex(changeset.changesetid@)
                &&& encode_utf8(c.manifest@) == to_hex(changeset.manifestid@)
                &&& encode_utf8(c.comment@) == changeset.comments@
                &&& c.date == changeset.time
                &&& encode_utf8(c.author@) == changeset.user@
                &&& c.parents@.len() == parent_texts(changeset.p1, changeset.p2).len()
                &&& forall|i: int|
                    0 <= i < c.parents@.len() ==> encode_utf8((#[trigger] c.parents@[i])@)
                        == parent_texts(changeset.p1, changeset.p2)[i]
                &&& c.extra@.len() == changeset.extra@.len()
                &&& forall|i: int|
                    0 <= i < c.extra@.len() ==> (#[trigger] c.extra@[i]).0@ == utf8_lossy(
                        changeset.extra@[i].0@,
                    ) && c.extra@[i].1@ == changeset.extra@[i].1@
            },
    {
        let commit_hash = changeset.changesetid.to_hex();
        let manifest = changeset.manifestid.to_hex();
        let comment = match string_from_utf8(copy_bytes(changeset.comments.as_slice())) {
            Some(s) => s,
            None => {
                return Err(Utf8Error);
            },
        };
        let author = match string_from_utf8(copy_bytes(changeset.user.as_slice())) {
            Some(s) => s,
            None => {
                return Err(Utf8Error);
            },
        };
        let mut parents: Vec<String> = Vec::new();
        match changeset.p1 {
            Some(p) => {
                parents.push(p.to_hex());
            },
            None => {},
        }
        match changeset.p2 {
            Some(p) => {
                parents.push(p.to_hex());
            },
            None => {},
        }
        let mut extra: Vec<(String, Vec<u8>)> = Vec::new();
        let mut i: usize = 0;
        while i < changeset.extra.len()
            invariant
                i <= changeset.extra.len(),
                extra@.len() == i,
                forall|j: int|
                    0 <= j < i ==> (#[trigger] extra@[j]).0@ == utf8_lossy(
                        changeset.extra@[j].0@,
                    ) && extra@[j].1@ == changeset.extra@[j].1@,
            decreases changeset.extra.len() - i,
        {
            let name = string_from_utf8_lossy(changeset.extra[i].0.as_slice());
            let value = copy_bytes(changeset.extra[i].1.as_slice());
            extra.push((name, value));
            i += 1;
        }
        Ok(
            Changeset {
                commit_hash,
                manifest,
                comment,
                date: changeset.time,
                author,
                parents,
                extra,
            },
        )
    }
}

impl From<Changeset> for MononokeChangeset {
    fn from(changeset: Changeset) -> (r: MononokeChangeset) {
        MononokeChangeset {
            commit_hash: changeset.commit_hash,
            message: changeset.comment,
            date: changeset.date.timestamp_secs,
            author: changeset.author,
            parents: changeset.parents,
            extra: changeset.extra,
            manifest: MononokeTreeHash { hash: changeset.manifest },
        }
    }
}

impl vstd::std_specs::convert::FromSpecImpl<Changeset> for MononokeChangeset {
    open spec fn obeys_from_spec() -> bool {
        true
    }

    open spec fn from_spec(changeset: Changeset) -> MononokeChangeset {
        MononokeChangeset {
            commit_hash: changeset.commit_hash,
            message: changeset.comment,
            date: changeset.date.timestamp_secs,
            author: changeset.author,
            parents: changeset.parents,
            extra: changeset.extra,
            manifest: MononokeTreeHash { hash: changeset.manifest },
        }
    }
}

} // verus!
