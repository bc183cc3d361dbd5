use mononoke::admin::{
    check_status, choose_destination, data_dir, default_destination, hgrc, remove_dir,
    remove_dir_answered, CloneError, Destination, RemoveStep, CLONE_CMD, CLONE_DFLT_DIR,
};
use mononoke::ancestors::{ancestors_avoiding, changesets_to_send};
use mononoke::api::{
    download_large_file, get_blob_content, get_changeset, get_file_history, get_hg_file,
    get_raw_file, get_tree, health_check, is_ancestor, lfs_batch, list_directory, parse_u32,
    route, upload_large_file, BatchRequest, Method, MononokeQuery, MononokeRepoQuery,
    RequestObject, Revision, Route,
};
use mononoke::client::Phase;
use mononoke::errors::ErrorKind;
use mononoke::graph::ChangesetGraph;
use mononoke::hooks::{get_changed_files, ChangedFileType};
use mononoke::manifest::{ChangedEntry, Entry, EntryStatus, FileType, Type};
use mononoke::nodehash::{ChangesetId, HgNodeHash};
use mononoke::nodeset::NodeSet;
use mononoke::path::{MPath, MPathElement};
use mononoke::phases::get_all_phases;
use std::collections::HashSet;

fn s(text: &str) -> String {
    text.to_string()
}

#[test]
fn the_health_check_is_alive() {
    assert_eq!(health_check(), "I_AM_ALIVE");
    assert_eq!(route(Method::Get, b"/health_check"), Some(Route::HealthCheck));
    assert_eq!(route(Method::Post, b"/health_check"), None);
}

#[test]
fn paths_name_endpoints() {
    assert_eq!(
        route(Method::Get, b"/repo/raw/abc123/dir/file.txt"),
        Some(Route::GetRawFile { repo: s("repo"), changeset: s("abc123"), path: s("dir/file.txt") })
    );
    assert_eq!(
        route(Method::Get, b"/repo/raw/abc123/"),
        Some(Route::GetRawFile { repo: s("repo"), changeset: s("abc123"), path: s("") })
    );
    assert_eq!(
        route(Method::Get, b"/r/gethgfile/f00d"),
        Some(Route::GetHgFile { repo: s("r"), filenode: s("f00d") })
    );
    assert_eq!(
        route(Method::Get, b"/r/getfilehistory/f00d/a//b/"),
        Some(Route::GetFileHistory { repo: s("r"), filenode: s("f00d"), path: s("a//b/") })
    );
    assert_eq!(
        route(Method::Get, b"/r/is_ancestor/old/new"),
        Some(Route::IsAncestor { repo: s("r"), ancestor: s("old"), descendant: s("new") })
    );
    assert_eq!(
        route(Method::Get, b"/r/list/abc/some/dir"),
        Some(Route::ListDirectory { repo: s("r"), changeset: s("abc"), path: s("some/dir") })
    );
    assert_eq!(
        route(Method::Get, b"/r/blob/abc"),
        Some(Route::GetBlobContent { repo: s("r"), hash: s("abc") })
    );
    assert_eq!(
        route(Method::Get, b"/r/tree/abc"),
        Some(Route::GetTree { repo: s("r"), hash: s("abc") })
    );
    assert_eq!(
        route(Method::Get, b"/r/changeset/abc"),
        Some(Route::GetChangeset { repo: s("r"), hash: s("abc") })
    );
    assert_eq!(
        route(Method::Get, b"/r/lfs/download/0123"),
        Some(Route::DownloadLargeFile { repo: s("r"), oid: s("0123") })
    );
    assert_eq!(
        route(Method::Post, b"/r/objects/batch"),
        Some(Route::LfsBatch { repo: s("r") })
    );
    assert_eq!(
        route(Method::Put, b"/r/lfs/upload/0123"),
        Some(Route::UploadLargeFile { repo: s("r"), oid: s("0123") })
    );
}

#[test]
fn other_paths_name_nothing() {
    for path in [
        &b""[..],
        b"/",
        b"health_check",
        b"/repo",
        b"/repo/",
        b"/repo/raw",
        b"/repo/raw/abc",
        b"//raw/abc/file",
        b"/repo/raw//file",
        b"/repo/gethgfile/a/b",
        b"/repo/gethgfile/",
        b"/repo/is_ancestor/a",
        b"/repo/is_ancestor/a/",
        b"/repo/is_ancestor/a/b/c",
        b"/repo/blob/a/b",
        b"/repo/lfs/download",
        b"/repo/lfs/download/",
        b"/repo/lfs/upload/abc",
        b"/repo/objects/batch",
        b"/repo/objects/batch/x",
        b"/repo/unknown/abc",
        b"/repo/raw/\xff/file",
        b"/repo/raw/abc/\xff",
        b"/\xff/blob/abc",
    ]
    .iter()
    {
        assert_eq!(route(Method::Get, path), None, "{:?}", path);
    }
    assert_eq!(route(Method::Put, b"/r/lfs/download/0123"), None);
    assert_eq!(route(Method::Get, b"/r/lfs/upload/0123"), None);
    assert_eq!(route(Method::Post, b"/r/blob/abc"), None);
    assert_eq!(route(Method::Put, b"/r/objects/batch"), None);
}

#[test]
fn numbers_are_read_in_32_bits() {
    assert_eq!(parse_u32("0"), Some(0));
    assert_eq!(parse_u32("7"), Some(7));
    assert_eq!(parse_u32("0042"), Some(42));
    assert_eq!(parse_u32("+42"), Some(42));
    assert_eq!(parse_u32("4294967295"), Some(u32::MAX));
    assert_eq!(parse_u32("4294967296"), None);
    assert_eq!(parse_u32("99999999999999999999999999"), None);
    assert_eq!(parse_u32(""), None);
    assert_eq!(parse_u32("+"), None);
    assert_eq!(parse_u32("-1"), None);
    assert_eq!(parse_u32("++1"), None);
    assert_eq!(parse_u32("1+"), None);
    assert_eq!(parse_u32(" 1"), None);
    assert_eq!(parse_u32("1e3"), None);
    assert_eq!(parse_u32("\u{663}"), None);
    for text in ["0", "12", "+5", "007", "4294967295", "4294967296", "", "x", "-0"].iter() {
        assert_eq!(parse_u32(text), text.parse::<u32>().ok());
    }
}

#[test]
fn endpoints_ask_the_repository() {
    assert_eq!(
        get_raw_file(s("r"), s("abc"), s("a/b")),
        MononokeQuery {
            repo: s("r"),
            kind: MononokeRepoQuery::GetRawFile {
                revision: Revision::CommitHash(s("abc")),
                path: s("a/b")
            },
        }
    );
    assert_eq!(
        get_hg_file(s("r"), s("f")).kind,
        MononokeRepoQuery::GetHgFile { filenode: s("f") }
    );
    assert_eq!(
        get_file_history(s("r"), s("f"), s("p"), Some("10")).kind,
        MononokeRepoQuery::GetFileHistory { filenode: s("f"), path: s("p"), depth: Some(10) }
    );
    assert_eq!(
        get_file_history(s("r"), s("f"), s("p"), Some("ten")).kind,
        MononokeRepoQuery::GetFileHistory { filenode: s("f"), path: s("p"), depth: None }
    );
    assert_eq!(
        get_file_history(s("r"), s("f"), s("p"), None).kind,
        MononokeRepoQuery::GetFileHistory { filenode: s("f"), path: s("p"), depth: None }
    );
    assert_eq!(
        list_directory(s("r"), s("abc"), s("")).kind,
        MononokeRepoQuery::ListDirectory { revision: Revision::CommitHash(s("abc")), path: s("") }
    );
    assert_eq!(
        get_blob_content(s("r"), s("h")).kind,
        MononokeRepoQuery::GetBlobContent { hash: s("h") }
    );
    assert_eq!(get_tree(s("r"), s("h")).kind, MononokeRepoQuery::GetTree { hash: s("h") });
    assert_eq!(
        get_changeset(s("r"), s("h")).kind,
        MononokeRepoQuery::GetChangeset { revision: Revision::CommitHash(s("h")) }
    );
    assert_eq!(
        download_large_file(s("r"), s("oid")).kind,
        MononokeRepoQuery::DownloadLargeFile { oid: s("oid") }
    );
    assert_eq!(
        upload_large_file(s("r"), s("oid"), b"body".to_vec()),
        MononokeQuery {
            repo: s("r"),
            kind: MononokeRepoQuery::UploadLargeFile { oid: s("oid"), body: b"body".to_vec() },
        }
    );
    let request = || BatchRequest {
        operation: s("download"),
        transfers: vec![s("basic")],
        objects: vec![RequestObject { oid: s("abc"), size: 12 }],
    };
    assert_eq!(
        lfs_batch(&s("r"), request(), Some(s("https://host/"))),
        MononokeQuery {
            repo: s("r"),
            kind: MononokeRepoQuery::LfsBatch {
                repo_name: s("r"),
                req: request(),
                lfs_url: Some(s("https://host/")),
            },
        }
    );
}

#[test]
fn is_ancestor_decodes_its_names() {
    assert_eq!(
        is_ancestor(s("r"), "master%2Fstable", "feature%20one%"),
        MononokeQuery {
            repo: s("r"),
            kind: MononokeRepoQuery::IsAncestor {
                ancestor: Revision::CommitHash(s("master/stable")),
                descendant: Revision::CommitHash(s("feature one%")),
            },
        }
    );
    assert_eq!(
        is_ancestor(s("r"), "%ff", "abc").kind,
        MononokeRepoQuery::IsAncestor {
            ancestor: Revision::CommitHash(s("\u{fffd}")),
            descendant: Revision::CommitHash(s("abc")),
        }
    );
}

fn cs(byte: u8) -> ChangesetId {
    ChangesetId::new(HgNodeHash([byte; 20]))
}

/// ```text
/// 1 - 2 - 3 - 4 - 7 - 8
///      \         /
///       5 ----- 6       9 (alone)
/// ```
fn graph() -> ChangesetGraph {
    let mut graph = ChangesetGraph::new();
    for (id, parents) in [
        (1u8, vec![]),
        (2, vec![1u8]),
        (3, vec![2]),
        (4, vec![3]),
        (5, vec![2]),
        (6, vec![5]),
        (7, vec![4, 6]),
        (8, vec![7]),
        (9, vec![]),
    ]
    .iter()
    {
        let parents: Vec<ChangesetId> = parents.iter().map(|p| cs(*p)).collect();
        graph.add_changeset(cs(*id), &parents).unwrap();
    }
    graph
}

fn ids(set: NodeSet) -> HashSet<u8> {
    set.to_vec().into_iter().map(|h| h.0[0]).collect()
}

fn set(ids: &[u8]) -> HashSet<u8> {
    ids.iter().cloned().collect()
}

#[test]
fn a_bundle_holds_what_the_client_lacks() {
    let graph = graph();
    let send = |heads: &[u8], common: &[u8]| {
        let heads: Vec<ChangesetId> = heads.iter().map(|h| cs(*h)).collect();
        let common: Vec<ChangesetId> = common.iter().map(|h| cs(*h)).collect();
        ids(changesets_to_send(&graph, &heads, &common).unwrap())
    };
    assert_eq!(send(&[8], &[]), set(&[1, 2, 3, 4, 5, 6, 7, 8]));
    assert_eq!(send(&[8], &[4]), set(&[5, 6, 7, 8]));
    assert_eq!(send(&[8], &[4, 6]), set(&[7, 8]));
    assert_eq!(send(&[8], &[8]), set(&[]));
    assert_eq!(send(&[4], &[8]), set(&[]));
    assert_eq!(send(&[4, 6], &[2]), set(&[3, 4, 5, 6]));
    assert_eq!(send(&[6, 9], &[3]), set(&[5, 6, 9]));
    assert_eq!(send(&[], &[3]), set(&[]));
    assert_eq!(send(&[3, 3], &[9]), set(&[1, 2, 3]));
}

#[test]
fn a_bundle_needs_known_changesets() {
    let graph = graph();
    match changesets_to_send(&graph, &vec![cs(8), cs(77)], &vec![cs(1)]) {
        Err(ErrorKind::ChangesetMissing(id)) => assert_eq!(id.into_nodehash(), cs(77).0),
        other => panic!("unexpected result {:?}", other),
    }
    match changesets_to_send(&graph, &vec![cs(77)], &vec![cs(88)]) {
        Err(ErrorKind::ChangesetMissing(id)) => assert_eq!(id.into_nodehash(), cs(88).0),
        other => panic!("unexpected result {:?}", other),
    }
    let mut stop = NodeSet::new();
    stop.insert(cs(7).0);
    assert_eq!(
        ids(ancestors_avoiding(&graph, &vec![cs(8)], &stop).unwrap()),
        set(&[8])
    );
    stop.insert(cs(8).0);
    assert_eq!(ids(ancestors_avoiding(&graph, &vec![cs(8)], &stop).unwrap()), set(&[]));
}

#[test]
fn ancestors_of_public_heads_are_public() {
    let graph = graph();
    let all: Vec<ChangesetId> = (1..=9).map(cs).collect();
    let phases = |heads: &[u8]| -> Vec<Phase> {
        let heads: Vec<ChangesetId> = heads.iter().map(|h| cs(*h)).collect();
        let phases = get_all_phases(&graph, &heads, &all).unwrap();
        assert_eq!(phases.iter().map(|(id, _)| *id).collect::<Vec<_>>(), all);
        phases.into_iter().map(|(_, phase)| phase).collect()
    };
    let p = Phase::Public;
    let d = Phase::Draft;
    assert_eq!(phases(&[]), vec![d; 9]);
    assert_eq!(phases(&[4]), vec![p, p, p, p, d, d, d, d, d]);
    assert_eq!(phases(&[6]), vec![p, p, d, d, p, p, d, d, d]);
    assert_eq!(phases(&[7, 9]), vec![p, p, p, p, p, p, p, d, p]);
    match get_all_phases(&graph, &vec![cs(50)], &all) {
        Err(ErrorKind::ChangesetMissing(id)) => assert_eq!(id.into_nodehash(), cs(50).0),
        other => panic!("unexpected result {:?}", other),
    }
    assert_eq!(
        get_all_phases(&graph, &vec![cs(2)], &vec![cs(77), cs(1)]).unwrap(),
        vec![(cs(77), d), (cs(1), p)]
    );
}

fn element(name: &str) -> MPathElement {
    MPathElement::new(name.as_bytes().to_vec()).unwrap()
}

fn file(name: &[u8]) -> Entry {
    Entry {
        name: Some(MPathElement(name.to_vec())),
        ttype: Type::File(FileType::Regular),
        hash: HgNodeHash([1; 20]),
    }
}

#[test]
fn hooks_see_changed_files() {
    let changed = vec![
        ChangedEntry {
            dirname: Some(MPath::new(b"dir/sub").unwrap()),
            status: EntryStatus::Added(file(b"new.rs")),
        },
        ChangedEntry { dirname: None, status: EntryStatus::Deleted(file(b"gone")) },
        ChangedEntry {
            dirname: Some(MPath::new(b"d").unwrap()),
            status: EntryStatus::Modified { to_entry: file(b"to\xff"), from_entry: file(b"from") },
        },
    ];
    assert_eq!(
        changed[0].get_full_path().unwrap().elements,
        vec![element("dir"), element("sub"), element("new.rs")]
    );
    assert_eq!(
        get_changed_files(&changed),
        vec![
            (s("dir/sub/new.rs"), ChangedFileType::Added),
            (s("gone"), ChangedFileType::Deleted),
            (s("d/to\u{fffd}"), ChangedFileType::Modified),
        ]
    );
    assert_eq!(get_changed_files(&vec![]), vec![]);
    let nowhere = ChangedEntry {
        dirname: None,
        status: EntryStatus::Added(Entry { name: None, ttype: Type::Tree, hash: HgNodeHash([1; 20]) }),
    };
    assert_eq!(nowhere.get_full_path(), None);
}

#[test]
fn a_clone_needs_a_free_destination() {
    let dir = || s("/data/users/me/mononoke-config");
    assert_eq!(remove_dir(dir(), false, false, 0, false), Ok(RemoveStep::Nothing));
    assert_eq!(remove_dir(dir(), false, true, 5, true), Ok(RemoveStep::Nothing));
    assert_eq!(remove_dir(dir(), true, true, 0, false), Ok(RemoveStep::Remove));
    assert_eq!(remove_dir(dir(), true, true, 3, true), Ok(RemoveStep::Ask));
    assert_eq!(remove_dir(dir(), true, true, 3, false), Err(CloneError::NotEmpty(dir())));
    assert_eq!(remove_dir(dir(), true, false, 0, true), Err(CloneError::ExpectedDir(dir())));
    assert_eq!(remove_dir_answered(dir(), true), Ok(RemoveStep::Remove));
    assert_eq!(remove_dir_answered(dir(), false), Err(CloneError::NotEmpty(dir())));
}

#[test]
fn a_clone_goes_where_it_is_told() {
    assert_eq!(data_dir("me"), "/data/users/me");
    assert_eq!(default_destination("me"), "/data/users/me/mononoke-config");
    assert_eq!(CLONE_CMD, "clone");
    assert_eq!(CLONE_DFLT_DIR, "mononoke-config");
    assert_eq!(
        choose_destination(Some(s("/tmp/x")), true, s("/d")),
        Destination::Use(s("/tmp/x"))
    );
    assert_eq!(choose_destination(None, true, s("/d")), Destination::Ask(s("/d")));
    assert_eq!(choose_destination(None, false, s("/d")), Destination::Use(s("/d")));
    assert!(hgrc().contains("[treemanifest]\ntreeonly=True\nserver=True\n"));
    assert!(hgrc().starts_with("\n[extensions]\ntreemanifest=\nfastmanifest=!\n"));
}

#[test]
fn commands_must_end_well() {
    assert_eq!(check_status(true, Some(0), "hg clone"), Ok(()));
    assert_eq!(
        check_status(false, Some(255), "hg clone"),
        Err(CloneError::NonZeroExit(s("hg clone"), 255))
    );
    assert_eq!(
        check_status(false, None, "hg clone"),
        Err(CloneError::KilledBySignal(s("hg clone")))
    );
}
