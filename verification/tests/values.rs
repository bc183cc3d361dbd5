use mononoke::errors::{InputFault, ServerError, StateOpenError};
use mononoke::from_string::{
    get_changeset_id, get_filenode_id, get_mpath, get_nodehash, get_sha256_oid,
};
use mononoke::hex::{hex_decode, hex_encode};
use mononoke::manifest::{Entry as ManifestEntry, FileType as ManifestFileType, Type};
use mononoke::model::{
    Changeset, Content, DateTime, Entry, EntryWithSizeAndContentHash, FileType, HgBlobChangeset,
    MaterializeError, MononokeChangeset, MononokeFile, MononokeFileType, Utf8Error,
};
use mononoke::nodehash::{HgChangesetId, HgManifestId, HgNodeHash, Sha256};
use mononoke::path::{MPath, MPathElement, PathError, RepoPath};
use mononoke::store::RepositoryId;
use mononoke::text::{join_bytes, push_decimal, split_bytes};

fn hash(byte: u8) -> HgNodeHash {
    HgNodeHash([byte; 20])
}

fn elements(path: &MPath) -> Vec<Vec<u8>> {
    path.elements.iter().map(|e| e.0.clone()).collect()
}

#[test]
fn hashes_read_back_from_their_text() {
    let text = "a9473beb2eb03ddb1cccc3fbaeb8a4820f9cd157";
    let node = HgNodeHash::from_str(text).unwrap();
    assert_eq!(node.0[0], 0xa9);
    assert_eq!(node.0[19], 0x57);
    assert_eq!(node.to_hex(), text);
    assert_eq!(HgNodeHash::from_str(&text.to_uppercase()), Some(node));
    assert_eq!(HgNodeHash::from_bytes(&node.0), Some(node));
    assert_eq!(HgNodeHash::from_bytes(&node.0[1..]), None);
    assert_eq!(HgNodeHash::from_str(&text[1..]), None);
    assert_eq!(HgNodeHash::from_str(&format!("{}0", text)), None);
    assert_eq!(HgNodeHash::from_str(&text.replace("a", "g")), None);
    assert_eq!(HgNodeHash::from_str(""), None);
    assert!(HgNodeHash::null().is_null());
    assert!(!node.is_null());
    assert_eq!(HgNodeHash::null().to_hex(), "0".repeat(40));
    for byte in [0u8, 1, 0x0f, 0x10, 0x7f, 0x80, 0xff].iter() {
        let h = hash(*byte);
        assert_eq!(HgNodeHash::from_str(&h.to_hex()), Some(h));
    }
}

#[test]
fn hexadecimal_goes_both_ways() {
    assert_eq!(hex_encode(b""), b"".to_vec());
    assert_eq!(hex_encode(&[0x00, 0x0f, 0xa0, 0xff]), b"000fa0ff".to_vec());
    assert_eq!(hex_decode(b"000fa0ff"), Some(vec![0x00, 0x0f, 0xa0, 0xff]));
    assert_eq!(hex_decode(b"000FA0Ff"), Some(vec![0x00, 0x0f, 0xa0, 0xff]));
    assert_eq!(hex_decode(b""), Some(vec![]));
    assert_eq!(hex_decode(b"0"), None);
    assert_eq!(hex_decode(b"0g"), None);
    assert_eq!(hex_decode(b"+f"), None);
    let all: Vec<u8> = (0..=255).collect();
    assert_eq!(hex_decode(&hex_encode(&all)), Some(all));
}

#[test]
fn requests_name_typed_values() {
    let text = "0ed509bf086fadcb8a8a5384dc3b550729b0fc17";
    let node = HgNodeHash::from_str(text).unwrap();
    assert_eq!(get_nodehash(text).unwrap(), node);
    assert_eq!(get_changeset_id(text.to_string()).unwrap(), HgChangesetId::new(node));
    assert_eq!(get_filenode_id(text).unwrap().into_nodehash(), node);
    let oid = "ab".repeat(32);
    assert_eq!(get_sha256_oid(oid.clone()).unwrap(), Sha256([0xab; 32]));
    assert_eq!(get_sha256_oid(oid.clone()).unwrap().to_hex(), oid);
    assert_eq!(elements(&get_mpath("a/b/c.txt".to_string()).unwrap()), vec![
        b"a".to_vec(),
        b"b".to_vec(),
        b"c.txt".to_vec()
    ]);
}

fn invalid<T: std::fmt::Debug>(result: Result<T, ServerError>, input: &str, fault: InputFault) {
    match result {
        Err(ServerError::InvalidInput(text, Some(found))) => {
            assert_eq!(text, input);
            assert_eq!(found, fault);
        }
        other => panic!("unexpected result {:?}", other),
    }
}

#[test]
fn bad_requests_are_invalid_input() {
    invalid(get_nodehash("xyz"), "xyz", InputFault::BadHash);
    invalid(get_nodehash(""), "", InputFault::BadHash);
    invalid(get_filenode_id("12345"), "12345", InputFault::BadHash);
    let short = "ab".repeat(19);
    invalid(get_changeset_id(short.clone()), &short, InputFault::BadHash);
    let forty = "ab".repeat(20);
    invalid(get_sha256_oid(forty.clone()), &forty, InputFault::BadHash);
    let sixty_four = "ab".repeat(32);
    invalid(get_nodehash(&sixty_four), &sixty_four, InputFault::BadHash);
    invalid(get_mpath("".to_string()), "", InputFault::BadPath(PathError::Empty));
    invalid(get_mpath("//".to_string()), "//", InputFault::BadPath(PathError::Empty));
    invalid(
        get_mpath("a\0b".to_string()),
        "a\0b",
        InputFault::BadPath(PathError::ForbiddenByte),
    );
    invalid(
        get_mpath("a/\u{1}".to_string()),
        "a/\u{1}",
        InputFault::BadPath(PathError::ForbiddenByte),
    );
}

#[test]
fn paths_are_elements_between_slashes() {
    let path = MPath::new(b"dir//sub/file.rs/").unwrap();
    assert_eq!(elements(&path), vec![b"dir".to_vec(), b"sub".to_vec(), b"file.rs".to_vec()]);
    assert_eq!(path.to_vec(), b"dir/sub/file.rs".to_vec());
    assert_eq!(MPath::new(b"/x").unwrap().to_vec(), b"x".to_vec());
    assert_eq!(MPath::new(b"\xff\xfe").unwrap().to_vec(), b"\xff\xfe".to_vec());
    assert_eq!(MPath::new(b""), Err(PathError::Empty));
    assert_eq!(MPath::new(b"/"), Err(PathError::Empty));
    assert_eq!(MPath::new(b"a\nb"), Err(PathError::ForbiddenByte));
    assert_eq!(MPath::new(b"\n"), Err(PathError::ForbiddenByte));
    assert_eq!(path.duplicate(), path);

    assert!(MPathElement::new(b"name".to_vec()).is_some());
    assert!(MPathElement::new(b"".to_vec()).is_none());
    assert!(MPathElement::new(b"a/b".to_vec()).is_none());
    assert!(MPathElement::new(b"a\0".to_vec()).is_none());

    let name = MPathElement::new(b"leaf".to_vec()).unwrap();
    assert_eq!(
        MPath::join_element_opt(Some(&path), Some(&name)).unwrap().to_vec(),
        b"dir/sub/file.rs/leaf".to_vec()
    );
    assert_eq!(MPath::join_element_opt(None, Some(&name)).unwrap().to_vec(), b"leaf".to_vec());
    assert_eq!(MPath::join_element_opt(Some(&path), None), Some(path.duplicate()));
    assert_eq!(MPath::join_element_opt(None, None), None);
    assert!(RepoPath::RootPath.is_root());
    assert!(!RepoPath::FilePath(path.duplicate()).is_root());
    assert!(!RepoPath::DirectoryPath(path).is_root());
}

#[test]
fn text_is_split_joined_and_numbered() {
    assert_eq!(split_bytes(b"", b','), vec![b"".to_vec()]);
    assert_eq!(split_bytes(b"a", b','), vec![b"a".to_vec()]);
    assert_eq!(split_bytes(b",", b','), vec![b"".to_vec(), b"".to_vec()]);
    assert_eq!(
        split_bytes(b"a,,bc,", b','),
        vec![b"a".to_vec(), b"".to_vec(), b"bc".to_vec(), b"".to_vec()]
    );
    assert_eq!(join_bytes(&vec![], b", "), b"".to_vec());
    assert_eq!(join_bytes(&vec![b"a".to_vec()], b", "), b"a".to_vec());
    assert_eq!(
        join_bytes(&vec![b"a".to_vec(), b"".to_vec(), b"c".to_vec()], b", "),
        b"a, , c".to_vec()
    );
    for n in [0u64, 7, 9, 10, 11, 99, 100, 12345, u64::MAX].iter() {
        let mut out = b"n=".to_vec();
        push_decimal(&mut out, *n);
        assert_eq!(out, format!("n={}", n).into_bytes());
    }
}

#[test]
fn state_open_errors_name_the_part() {
    assert_eq!(StateOpenError::Heads.to_string(), "heads");
    assert_eq!(StateOpenError::Bookmarks.to_string(), "bookmarks");
    assert_eq!(StateOpenError::Blobstore.to_string(), "blob store");
    assert_eq!(StateOpenError::Changesets.to_string(), "changesets");
    assert_eq!(StateOpenError::Filenodes.to_string(), "filenodes");
    assert_eq!(StateOpenError::BonsaiHgMapping.to_string(), "bonsai_hg_mapping");
}

#[test]
fn entry_kinds_convert() {
    assert_eq!(FileType::from(Type::Tree), FileType::Tree);
    assert_eq!(FileType::from(Type::File(ManifestFileType::Regular)), FileType::File);
    assert_eq!(FileType::from(Type::File(ManifestFileType::Executable)), FileType::Executable);
    assert_eq!(FileType::from(Type::File(ManifestFileType::Symlink)), FileType::Symlink);
    assert_eq!(MononokeFileType::from(FileType::File), MononokeFileType::FILE);
    assert_eq!(MononokeFileType::from(FileType::Tree), MononokeFileType::TREE);
    assert_eq!(MononokeFileType::from(FileType::Executable), MononokeFileType::EXECUTABLE);
    assert_eq!(MononokeFileType::from(FileType::Symlink), MononokeFileType::SYMLINK);
}

fn manifest_entry(name: Option<&[u8]>, ttype: Type) -> ManifestEntry {
    ManifestEntry { name: name.map(|n| MPathElement(n.to_vec())), ttype, hash: hash(0xab) }
}

#[test]
fn entries_are_handed_out_as_text() {
    let entry = Entry::try_from(&manifest_entry(Some(b"README"), Type::File(ManifestFileType::Symlink)))
        .unwrap();
    assert_eq!(entry.name, "README");
    assert_eq!(entry.ttype, FileType::Symlink);
    assert_eq!(entry.hash, "ab".repeat(20));
    let root = Entry::try_from(&manifest_entry(None, Type::Tree)).unwrap();
    assert_eq!(root.name, "");
    assert_eq!(root.ttype, FileType::Tree);
    assert_eq!(
        Entry::try_from(&manifest_entry(Some(b"\xff"), Type::Tree)),
        Err(Utf8Error)
    );
    let file = MononokeFile::from_entry(entry);
    assert_eq!(file.name, "README");
    assert_eq!(file.file_type, MononokeFileType::SYMLINK);
    assert_eq!(file.hash.hash, "");
    assert_eq!(file.size, None);
    assert_eq!(file.content_sha1, None);
}

#[test]
fn entries_get_size_and_digest() {
    let entry = EntryWithSizeAndContentHash::materialize_future(
        Some(b"a.txt".to_vec()),
        Type::File(ManifestFileType::Regular),
        hash(0x12),
        Content::File(b"abc".to_vec()),
    )
    .unwrap();
    assert_eq!(entry.name, "a.txt");
    assert_eq!(entry.ttype, FileType::File);
    assert_eq!(entry.hash, "12".repeat(20));
    assert_eq!(entry.size, Some(3));
    assert_eq!(
        entry.content_sha1,
        Some("a9993e364706816aba3e25717850c26c9cd0d89d".to_string())
    );
    let empty = EntryWithSizeAndContentHash::materialize_future(
        Some(b"link".to_vec()),
        Type::File(ManifestFileType::Symlink),
        hash(0x12),
        Content::Symlink(vec![]),
    )
    .unwrap();
    assert_eq!(empty.size, Some(0));
    assert_eq!(
        empty.content_sha1,
        Some("da39a3ee5e6b4b0d3255bfef95601890afd80709".to_string())
    );
    let tree = EntryWithSizeAndContentHash::materialize_future(
        Some(b"dir".to_vec()),
        Type::Tree,
        hash(0x12),
        Content::Tree(17),
    )
    .unwrap();
    assert_eq!(tree.ttype, FileType::Tree);
    assert_eq!(tree.size, Some(17));
    assert_eq!(tree.content_sha1, None);
    assert_eq!(
        EntryWithSizeAndContentHash::materialize_future(
            None,
            Type::Tree,
            hash(1),
            Content::Tree(0)
        ),
        Err(MaterializeError::NoName)
    );
    assert_eq!(
        EntryWithSizeAndContentHash::materialize_future(
            Some(b"\xc3\x28".to_vec()),
            Type::Tree,
            hash(1),
            Content::Tree(0)
        ),
        Err(MaterializeError::BadName)
    );
    let file = MononokeFile::from_entry_with_size(entry);
    assert_eq!(file.name, "a.txt");
    assert_eq!(file.file_type, MononokeFileType::FILE);
    assert_eq!(file.hash.hash, "12".repeat(20));
    assert_eq!(file.size, Some(3));
    assert_eq!(
        file.content_sha1,
        Some("a9993e364706816aba3e25717850c26c9cd0d89d".to_string())
    );
}

#[test]
fn a_cache_without_the_entry_says_so() {
    let entry = EntryWithSizeAndContentHash::materialize_future(
        Some(b"dir".to_vec()),
        Type::Tree,
        hash(0x12),
        Content::Tree(2),
    )
    .unwrap();
    assert_eq!(
        EntryWithSizeAndContentHash::found_or_not(Some(entry.clone()), "abc").unwrap(),
        entry
    );
    match EntryWithSizeAndContentHash::found_or_not(None, "abc") {
        Err(ServerError::NotFound(message)) => assert_eq!(message, "Entry abc not found"),
        other => panic!("unexpected result {:?}", other),
    }
}

#[test]
fn cache_keys_start_with_the_repository() {
    assert_eq!(RepositoryId::new(1).prefix(), b"repo0001.".to_vec());
    assert_eq!(RepositoryId::new(0).prefix(), b"repo0000.".to_vec());
    assert_eq!(RepositoryId::new(1234).prefix(), b"repo1234.".to_vec());
    assert_eq!(RepositoryId::new(123456).prefix(), b"repo123456.".to_vec());
    assert_eq!(RepositoryId::new(-5).prefix(), b"repo-005.".to_vec());
    assert_eq!(RepositoryId::new(-12345).prefix(), b"repo-12345.".to_vec());
    assert_eq!(RepositoryId::new(i32::MIN).prefix(), b"repo-2147483648.".to_vec());
    assert_eq!(
        EntryWithSizeAndContentHash::get_cache_key(RepositoryId::new(7), "abcdef"),
        b"repo0007.:abcdef".to_vec()
    );
}

fn blob_changeset() -> HgBlobChangeset {
    HgBlobChangeset {
        changesetid: HgChangesetId::new(hash(0x01)),
        manifestid: HgManifestId::new(hash(0x02)),
        user: b"Some One <someone@example.com>".to_vec(),
        time: DateTime { timestamp_secs: 1_500_000_000, tz_offset_secs: -7200 },
        extra: vec![
            (b"branch".to_vec(), b"default".to_vec()),
            (b"bin\xff".to_vec(), b"\x00\xff".to_vec()),
        ],
        comments: "a message \u{2713}".as_bytes().to_vec(),
        p1: Some(hash(0x03)),
        p2: None,
    }
}

#[test]
fn changesets_are_handed_out_as_text() {
    let changeset = Changeset::try_from(&blob_changeset()).unwrap();
    assert_eq!(changeset.commit_hash, "01".repeat(20));
    assert_eq!(changeset.manifest, "02".repeat(20));
    assert_eq!(changeset.comment, "a message \u{2713}");
    assert_eq!(changeset.author, "Some One <someone@example.com>");
    assert_eq!(changeset.date, DateTime { timestamp_secs: 1_500_000_000, tz_offset_secs: -7200 });
    assert_eq!(changeset.parents, vec!["03".repeat(20)]);
    assert_eq!(
        changeset.extra,
        vec![
            ("branch".to_string(), b"default".to_vec()),
            ("bin\u{fffd}".to_string(), b"\x00\xff".to_vec()),
        ]
    );
    let wire = MononokeChangeset::from(changeset);
    assert_eq!(wire.commit_hash, "01".repeat(20));
    assert_eq!(wire.message, "a message \u{2713}");
    assert_eq!(wire.date, 1_500_000_000);
    assert_eq!(wire.author, "Some One <someone@example.com>");
    assert_eq!(wire.parents, vec!["03".repeat(20)]);
    assert_eq!(wire.manifest.hash, "02".repeat(20));
    assert_eq!(wire.extra.len(), 2);
}

#[test]
fn changesets_have_up_to_two_parents() {
    let mut blob = blob_changeset();
    blob.p1 = None;
    assert_eq!(Changeset::try_from(&blob).unwrap().parents, Vec::<String>::new());
    blob.p1 = Some(hash(4));
    blob.p2 = Some(hash(5));
    assert_eq!(
        Changeset::try_from(&blob).unwrap().parents,
        vec!["04".repeat(20), "05".repeat(20)]
    );
    blob.p1 = None;
    assert_eq!(Changeset::try_from(&blob).unwrap().parents, vec!["05".repeat(20)]);
}

#[test]
fn changesets_need_text_for_message_and_author() {
    let mut blob = blob_changeset();
    blob.comments = b"bad \xff".to_vec();
    assert_eq!(Changeset::try_from(&blob), Err(Utf8Error));
    let mut blob = blob_changeset();
    blob.user = b"\xc0".to_vec();
    assert_eq!(Changeset::try_from(&blob), Err(Utf8Error));
}
