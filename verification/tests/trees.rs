use mononoke::client::RepoClient;
use mononoke::errors::{InputFault, ServerError};
use mononoke::getpack::{
    convert_parents_to_remotefilelog_format, HgFileHistoryEntry, LfsParams, PackedFile, Part,
    BUFFER_SIZE,
};
use mononoke::gettreepack::{
    fetch_treepack_part_input, filter_used_hashes, get_changed_manifests_stream, GettreepackArgs,
    TreePruner,
};
use mononoke::manifest::{
    calculate_hg_node_id, can_hash, verify_node_hash, ChangedEntry, Entry, EntryStatus, FileType,
    HgParents, Type,
};
use mononoke::nodehash::{HgChangesetId, HgFileNodeId, HgNodeHash};
use mononoke::nodeset::NodeSet;
use mononoke::path::{MPath, MPathElement, PathError, RepoPath};

fn hash(byte: u8) -> HgNodeHash {
    HgNodeHash([byte; 20])
}

fn from_hex(hex: &str) -> HgNodeHash {
    HgNodeHash::from_str(hex).unwrap()
}

fn element(name: &str) -> MPathElement {
    MPathElement::new(name.as_bytes().to_vec()).unwrap()
}

fn path(text: &str) -> MPath {
    MPath::new(text.as_bytes()).unwrap()
}

fn tree(name: Option<&str>, byte: u8) -> Entry {
    Entry { name: name.map(element), ttype: Type::Tree, hash: hash(byte) }
}

fn file(name: &str, byte: u8) -> Entry {
    Entry { name: Some(element(name)), ttype: Type::File(FileType::Regular), hash: hash(byte) }
}

fn args(rootdir: &str, mfnodes: usize, base: usize) -> GettreepackArgs {
    GettreepackArgs {
        rootdir: rootdir.as_bytes().to_vec(),
        mfnodes: (0..mfnodes).map(|i| hash(i as u8 + 1)).collect(),
        basemfnodes: (0..base).map(|i| hash(i as u8 + 0x80)).collect(),
        directories: vec![],
        depth: None,
    }
}

#[test]
fn gettreepack_plans_a_request() {
    let client = RepoClient::new(25, false);
    let plan = client.gettreepack_untimed(&args("", 1, 2), 124).unwrap();
    assert_eq!(plan.fetchdepth, 1 << 17);
    assert_eq!(plan.basemfnode, hash(0x80));
    assert_eq!(plan.rootpath, None);
    assert!(!plan.share_visited);
    assert!(plan.validate_hash);

    let mut deep = args("a//b/", 3, 0);
    deep.depth = Some(1);
    let plan = client.gettreepack_untimed(&deep, 25).unwrap();
    assert_eq!(plan.fetchdepth, 1);
    assert_eq!(plan.basemfnode, HgNodeHash::null());
    assert_eq!(plan.rootpath, Some(path("a/b")));
    assert!(plan.share_visited);
    assert!(!plan.validate_hash);

    let plan = client.gettreepack(&args("", 0, 0)).unwrap();
    assert!(!plan.share_visited);
    assert_eq!(plan.fetchdepth, 131072);
}

#[test]
fn gettreepack_refuses_directories_and_bad_roots() {
    let client = RepoClient::new(0, false);
    let mut with_dirs = args("", 1, 0);
    with_dirs.directories = vec![b"dir".to_vec()];
    match client.gettreepack_untimed(&with_dirs, 0) {
        Err(ServerError::InvalidInput(message, None)) => {
            assert_eq!(message, "directories param is not supported")
        }
        other => panic!("unexpected result {:?}", other),
    }
    assert!(client.gettreepack(&with_dirs).is_err());
    match client.gettreepack_untimed(&args("a\nb", 1, 0), 0) {
        Err(ServerError::InvalidInput(input, Some(fault))) => {
            assert_eq!(input, "a\nb");
            assert_eq!(fault, InputFault::BadPath(PathError::ForbiddenByte));
        }
        other => panic!("unexpected result {:?}", other),
    }
    match client.gettreepack_untimed(&args("///", 1, 0), 0) {
        Err(ServerError::InvalidInput(input, Some(fault))) => {
            assert_eq!(input, "///");
            assert_eq!(fault, InputFault::BadPath(PathError::Empty));
        }
        other => panic!("unexpected result {:?}", other),
    }
}

fn added(dir: Option<&str>, entry: Entry) -> ChangedEntry {
    ChangedEntry { dirname: dir.map(path), status: EntryStatus::Added(entry) }
}

#[test]
fn pruners_drop_files_deletions_and_what_was_visited() {
    let mut plain = TreePruner::trees_only(None);
    assert!(plain.keep(&added(None, tree(Some("a"), 1))));
    assert!(plain.keep(&added(None, tree(Some("a"), 1))));
    assert!(!plain.keep(&added(None, file("f", 2))));
    let deleted = ChangedEntry { dirname: None, status: EntryStatus::Deleted(tree(Some("a"), 3)) };
    assert!(!plain.keep(&deleted));
    let modified = ChangedEntry {
        dirname: Some(path("x")),
        status: EntryStatus::Modified { to_entry: tree(Some("a"), 4), from_entry: tree(Some("a"), 5) },
    };
    assert!(plain.keep(&modified));

    let mut shared = TreePruner::trees_only(Some(NodeSet::new()));
    assert!(shared.keep(&added(None, tree(Some("a"), 1))));
    assert!(!shared.keep(&added(Some("elsewhere"), tree(Some("b"), 1))));
    assert!(!shared.keep(&added(None, file("f", 2))));
    assert!(shared.keep(&added(None, tree(Some("f"), 2))));
    assert!(shared.keep(&modified));
    assert!(!shared.keep(&modified));
    assert!(!shared.keep(&deleted));
    assert_eq!(shared.visited.unwrap().to_vec(), vec![hash(1), hash(2), hash(4)]);

    let mut lenient = TreePruner { drop_files: false, drop_deleted: false, visited: None };
    assert!(lenient.keep(&added(None, file("f", 2))));
    assert!(lenient.keep(&deleted));
}

#[test]
fn changed_manifests_end_with_the_root() {
    let changed = || {
        vec![
            added(Some("a"), tree(Some("b"), 1)),
            ChangedEntry {
                dirname: None,
                status: EntryStatus::Modified {
                    to_entry: tree(Some("c"), 2),
                    from_entry: tree(Some("c"), 3),
                },
            },
        ]
    };
    let out = get_changed_manifests_stream(tree(None, 9), Some(path("root")), changed(), 2);
    assert_eq!(
        out,
        vec![
            (tree(Some("b"), 1), Some(path("a"))),
            (tree(Some("c"), 2), None),
            (tree(None, 9), Some(path("root"))),
        ]
    );
    let out = get_changed_manifests_stream(tree(None, 9), None, changed(), 1);
    assert_eq!(out, vec![(tree(None, 9), None)]);
    let out = get_changed_manifests_stream(tree(None, 9), None, vec![], 131072);
    assert_eq!(out, vec![(tree(None, 9), None)]);
}

#[test]
fn each_hash_goes_out_once() {
    let hashes = vec![hash(1), hash(2), hash(1), hash(3), hash(3), hash(1), hash(4)];
    assert_eq!(filter_used_hashes(&hashes), vec![0, 1, 3, 6]);
    assert_eq!(filter_used_hashes(&vec![]), Vec::<usize>::new());
    assert_eq!(tree(Some("a"), 1).get_type(), Type::Tree);
    assert_eq!(file("f", 2).get_type(), Type::File(FileType::Regular));
    assert_eq!(file("f", 2).get_hash(), hash(2));
}

#[test]
fn nodes_are_named_by_sha1_of_parents_and_content() {
    let p1 = from_hex("a9473beb2eb03ddb1cccc3fbaeb8a4820f9cd157");
    let p2 = from_hex("0ed509bf086fadcb8a8a5384dc3b550729b0fc17");
    assert_eq!(
        calculate_hg_node_id(b"hello", &HgParents::Neither),
        from_hex("7fac34a232926c628f2d890d3eed95be7ab57f34")
    );
    assert_eq!(
        calculate_hg_node_id(b"hello", &HgParents::One(p1)),
        from_hex("3318ba8b9aa68a61d188514abe52faff9414fe28")
    );
    assert_eq!(
        calculate_hg_node_id(b"hello", &HgParents::Two(p1, p2)),
        from_hex("4b86debe7332317b8ccadfa38bfaa75a87c52157")
    );
    assert_eq!(
        calculate_hg_node_id(b"hello", &HgParents::Two(p2, p1)),
        from_hex("4b86debe7332317b8ccadfa38bfaa75a87c52157")
    );
    let good = from_hex("3318ba8b9aa68a61d188514abe52faff9414fe28");
    assert_eq!(verify_node_hash(&good, b"hello", &HgParents::One(p1)), Ok(()));
    assert_eq!(verify_node_hash(&p2, b"hello", &HgParents::One(p1)), Err(good));
    assert!(can_hash(0));
    assert!(can_hash(1 << 40));
    assert_eq!(HgParents::new(Some(p1), Some(p1)), HgParents::One(p1));
    assert_eq!(HgParents::new(None, Some(p2)), HgParents::One(p2));
    assert_eq!(HgParents::new(Some(p1), Some(p2)), HgParents::Two(p1, p2));
    assert_eq!(HgParents::new(None, None), HgParents::Neither);
    assert_eq!(HgParents::Two(p1, p2).get_nodes(), (Some(p1), Some(p2)));
    assert_eq!(HgParents::One(p1).get_nodes(), (Some(p1), None));
}

#[test]
fn treepack_parts_are_checked_against_their_hash() {
    let p1 = from_hex("a9473beb2eb03ddb1cccc3fbaeb8a4820f9cd157");
    let good = from_hex("3318ba8b9aa68a61d188514abe52faff9414fe28");
    let entry = |hash| Entry { name: Some(element("dir")), ttype: Type::Tree, hash };
    let link = HgChangesetId::new(hash(0x77));

    let input = fetch_treepack_part_input(
        entry(good),
        Some(path("base")),
        HgParents::One(p1),
        Some(link),
        b"hello".to_vec(),
        true,
    )
    .unwrap();
    assert_eq!(input.node, good);
    assert_eq!(input.p1, Some(p1));
    assert_eq!(input.p2, None);
    assert_eq!(input.content, b"hello".to_vec());
    assert_eq!(input.name, Some(element("dir")));
    assert_eq!(input.linknode, hash(0x77));
    assert_eq!(input.basepath, Some(path("base")));

    match fetch_treepack_part_input(
        entry(hash(5)),
        Some(path("base")),
        HgParents::One(p1),
        None,
        b"hello".to_vec(),
        true,
    ) {
        Err(ServerError::DataCorruption { path: at, expected, actual }) => {
            assert_eq!(at, RepoPath::DirectoryPath(path("base/dir")));
            assert_eq!(expected, good);
            assert_eq!(actual, hash(5));
        }
        other => panic!("unexpected result {:?}", other),
    }

    // a wrong hash passes where nothing is checked
    let input = fetch_treepack_part_input(
        entry(hash(5)),
        None,
        HgParents::Neither,
        None,
        b"hello".to_vec(),
        false,
    )
    .unwrap();
    assert_eq!(input.linknode, HgNodeHash::null());
    assert_eq!((input.p1, input.p2), (None, None));

    // the root is let through
    let root = Entry { name: None, ttype: Type::Tree, hash: hash(5) };
    assert!(fetch_treepack_part_input(
        root,
        None,
        HgParents::One(p1),
        None,
        b"hello".to_vec(),
        true
    )
    .is_ok());

    // a file is reported as a file
    let wrong_file = Entry {
        name: Some(element("f")),
        ttype: Type::File(FileType::Executable),
        hash: hash(5),
    };
    match fetch_treepack_part_input(wrong_file, None, HgParents::Neither, None, vec![], true) {
        Err(ServerError::DataCorruption { path: at, .. }) => {
            assert_eq!(at, RepoPath::FilePath(path("f")))
        }
        other => panic!("unexpected result {:?}", other),
    }
}

#[test]
fn parents_are_written_for_shallow_clients() {
    let null = HgNodeHash::null();
    let none = None;
    assert_eq!(
        convert_parents_to_remotefilelog_format(&HgParents::Neither, &none),
        (null, null, None)
    );
    assert_eq!(
        convert_parents_to_remotefilelog_format(&HgParents::One(hash(1)), &none),
        (hash(1), null, None)
    );
    assert_eq!(
        convert_parents_to_remotefilelog_format(&HgParents::Two(hash(1), hash(2)), &none),
        (hash(1), hash(2), None)
    );
    let copied = Some((path("old/name"), HgFileNodeId::new(hash(9))));
    assert_eq!(
        convert_parents_to_remotefilelog_format(&HgParents::Neither, &copied),
        (hash(9), null, Some(path("old/name")))
    );
    assert_eq!(
        convert_parents_to_remotefilelog_format(&HgParents::Two(hash(1), hash(2)), &copied),
        (hash(9), hash(1), Some(path("old/name")))
    );
}

#[test]
fn getpackv1_packs_history_then_data() {
    let client = RepoClient::new(0, false);
    let files = vec![
        PackedFile {
            path: path("dir/a"),
            contents: vec![
                (HgFileNodeId::new(hash(1)), b"one".to_vec()),
                (HgFileNodeId::new(hash(2)), b"".to_vec()),
            ],
            history: vec![HgFileHistoryEntry {
                filenode: HgFileNodeId::new(hash(1)),
                parents: HgParents::One(hash(3)),
                linknode: HgChangesetId::new(hash(4)),
                copyfrom: Some((path("dir/b"), HgFileNodeId::new(hash(5)))),
            }],
        },
        PackedFile { path: path("c"), contents: vec![], history: vec![] },
    ];
    let parts = client.getpackv1(&files);
    assert_eq!(parts.len(), 8);
    match &parts[0] {
        Part::HistoryMeta { path: at, entry_count } => {
            assert_eq!(at, &path("dir/a"));
            assert_eq!(*entry_count, 1);
        }
        other => panic!("unexpected part {:?}", other),
    }
    match &parts[1] {
        Part::History(entry) => {
            assert_eq!(entry.node, hash(1));
            assert_eq!(entry.p1, hash(5));
            assert_eq!(entry.p2, hash(3));
            assert_eq!(entry.linknode, hash(4));
            assert_eq!(entry.copy_from, Some(path("dir/b")));
        }
        other => panic!("unexpected part {:?}", other),
    }
    match &parts[2] {
        Part::DataMeta { path: at, entry_count } => {
            assert_eq!(at, &path("dir/a"));
            assert_eq!(*entry_count, 2);
        }
        other => panic!("unexpected part {:?}", other),
    }
    match (&parts[3], &parts[4]) {
        (Part::Data(first), Part::Data(second)) => {
            assert_eq!(first.node, hash(1));
            assert_eq!(first.delta_base, HgNodeHash::null());
            assert_eq!(first.delta, b"one".to_vec());
            assert_eq!(second.node, hash(2));
            assert_eq!(second.delta, b"".to_vec());
        }
        other => panic!("unexpected parts {:?}", other),
    }
    assert!(matches!(&parts[5], Part::HistoryMeta { entry_count: 0, .. }));
    assert!(matches!(&parts[6], Part::DataMeta { entry_count: 0, .. }));
    assert!(matches!(&parts[7], Part::End));
    let nothing = client.getpackv1(&vec![]);
    assert_eq!(nothing.len(), 1);
    assert!(matches!(&nothing[0], Part::End));
}

#[test]
fn getfiles_asks_for_file_versions() {
    let client = RepoClient::new(40, false);
    let params = vec![(hash(1), path("a/b")), (hash(2), path("c"))];
    let plan = client.getfiles_untimed(&params, 139);
    assert_eq!(
        plan.requests,
        vec![
            (HgFileNodeId::new(hash(1)), path("a/b")),
            (HgFileNodeId::new(hash(2)), path("c")),
        ]
    );
    assert!(plan.validate_hash);
    assert!(!client.getfiles_untimed(&params, 140).validate_hash);
    assert_eq!(plan.buffer_size, 100);
    assert_eq!(plan.timeout_secs, 90 * 60);
    assert_eq!(BUFFER_SIZE, 100);
    let never = RepoClient::new(0, false).getfiles(&params);
    assert!(!never.validate_hash);
    assert_eq!(never.requests.len(), 2);
    assert!(RepoClient::new(100, false).getfiles(&vec![]).validate_hash);
}

#[test]
fn large_files_go_out_as_pointers() {
    let lfs = LfsParams { threshold: Some(1000) };
    assert!(!lfs.is_lfs(999));
    assert!(!lfs.is_lfs(1000));
    assert!(lfs.is_lfs(1001));
    let off = LfsParams { threshold: None };
    assert!(!off.is_lfs(u64::MAX));
}
