use mononoke::errors::ErrorKind;
use mononoke::genbfs::{process_bfs_layer, GenerationNumberBFS};
use mononoke::graph::{AddError, ChangesetGraph};
use mononoke::nodehash::{ChangesetId, HgNodeHash};
use mononoke::nodeset::NodeSet;

fn cs(hex: &str) -> ChangesetId {
    ChangesetId::new(HgNodeHash::from_str(hex).unwrap())
}

fn chain(graph: &mut ChangesetGraph, oldest_first: &[&str], base: Option<&str>) {
    let mut parent = base.map(cs);
    for hex in oldest_first {
        let parents: Vec<ChangesetId> = parent.iter().cloned().collect();
        graph.add_changeset(cs(hex), &parents).unwrap();
        parent = Some(cs(hex));
    }
}

fn reaches(graph: &ChangesetGraph, src: &str, dst: &str) -> bool {
    GenerationNumberBFS::new()
        .query_reachability(graph, cs(src), cs(dst))
        .unwrap()
}

const LINEAR_NEWEST_FIRST: [&str; 8] = [
    "a9473beb2eb03ddb1cccc3fbaeb8a4820f9cd157",
    "0ed509bf086fadcb8a8a5384dc3b550729b0fc17",
    "eed3a8c0ec67b6a6fe2eb3543334df3f0b4f202b",
    "cb15ca4a43a59acff5388cea9648c162afde8372",
    "d0a361e9022d226ae52f689667bd7d212a19cfe0",
    "607314ef579bd2407752361ba1b0c1729d08b281",
    "3e0e761030db6e479a7fb58b12881883f9f8c63f",
    "2d7d4ba9ce0a6ffd222de7785b249ead9c51c536",
];

fn linear() -> ChangesetGraph {
    let mut graph = ChangesetGraph::new();
    let oldest_first: Vec<&str> = LINEAR_NEWEST_FIRST.iter().rev().cloned().collect();
    chain(&mut graph, &oldest_first, None);
    graph
}

#[test]
fn linear_reachability() {
    let graph = linear();
    let ordered = LINEAR_NEWEST_FIRST;
    for i in 0..ordered.len() {
        for j in i..ordered.len() {
            let src = ordered[i];
            let dst = ordered[j];
            assert!(reaches(&graph, src, dst));
            assert_eq!(reaches(&graph, dst, src), src == dst);
        }
    }
}

const MERGE_ROOT: &str = "15c40d0abc36d47fb51c8eaec51ac7aad31f669c";
const MERGE_BRANCH_1: [&str; 3] = [
    "3cda5c78aa35f0f5b09780d971197b51cad4613a",
    "1d8a907f7b4bf50c6a09c16361e2205047ecc5e5",
    "16839021e338500b3cf7c9b871c8a07351697d68",
];
const MERGE_BRANCH_2: [&str; 8] = [
    "d7542c9db7f4c77dab4b315edd328edf1514952f",
    "b65231269f651cfe784fd1d97ef02a049a37b8a0",
    "4f7f3fd428bec1a48f9314414b063c706d9c1aed",
    "795b8133cf375f6d68d27c6c23db24cd5d0cd00f",
    "bc7b4d0f858c19e2474b03e442b8495fd7aeef33",
    "fc2cef43395ff3a7b28159007f63d6529d2f41ca",
    "5d43888a3c972fe68c224f93d41b30e9f888df7c",
    "264f01429683b3dd8042cb3979e8bf37007118bc",
];
const MERGE_NODE: &str = "6d0c1c30df4acb4e64cb4c4868d4c974097da055";

fn merge_uneven() -> ChangesetGraph {
    let mut graph = ChangesetGraph::new();
    chain(&mut graph, &[MERGE_ROOT], None);
    chain(&mut graph, &MERGE_BRANCH_1, Some(MERGE_ROOT));
    chain(&mut graph, &MERGE_BRANCH_2, Some(MERGE_ROOT));
    graph
        .add_changeset(
            cs(MERGE_NODE),
            &vec![cs(MERGE_BRANCH_1[2]), cs(MERGE_BRANCH_2[7])],
        )
        .unwrap();
    graph
}

#[test]
fn merge_uneven_reachability() {
    let graph = merge_uneven();
    for left in MERGE_BRANCH_1.iter() {
        for right in MERGE_BRANCH_2.iter() {
            assert!(!reaches(&graph, left, right));
            assert!(!reaches(&graph, right, left));
        }
    }
    for node in MERGE_BRANCH_1.iter().chain(MERGE_BRANCH_2.iter()) {
        assert!(reaches(&graph, node, MERGE_ROOT));
        assert!(!reaches(&graph, MERGE_ROOT, node));
        assert!(reaches(&graph, MERGE_NODE, node));
        assert!(!reaches(&graph, node, MERGE_NODE));
    }
    for i in 0..MERGE_BRANCH_1.len() {
        for j in i..MERGE_BRANCH_1.len() {
            assert!(reaches(&graph, MERGE_BRANCH_1[j], MERGE_BRANCH_1[i]));
            assert_eq!(reaches(&graph, MERGE_BRANCH_1[i], MERGE_BRANCH_1[j]), i == j);
        }
    }
    assert!(reaches(&graph, MERGE_NODE, MERGE_ROOT));
    assert!(!reaches(&graph, MERGE_ROOT, MERGE_NODE));
}

const WIDE_ROOT: &str = "ecba698fee57eeeef88ac3dcc3b623ede4af47bd";
const WIDE_B1: &str = "9e8521affb7f9d10e9551a99c526e69909042b20";
const WIDE_B2: &str = "4685e9e62e4885d477ead6964a7600c750e39b03";
const WIDE_B1_1: &str = "b6a8169454af58b4b72b3665f9aa0d25529755ff";
const WIDE_B1_2: &str = "c27ef5b7f15e9930e5b93b1f32cc2108a2aabe12";
const WIDE_B2_1: &str = "04decbb0d1a65789728250ddea2fe8d00248e01c";
const WIDE_B2_2: &str = "49f53ab171171b3180e125b918bd1cf0af7e5449";

fn branch_wide() -> ChangesetGraph {
    let mut graph = ChangesetGraph::new();
    chain(&mut graph, &[WIDE_ROOT], None);
    chain(&mut graph, &[WIDE_B1], Some(WIDE_ROOT));
    chain(&mut graph, &[WIDE_B2], Some(WIDE_ROOT));
    chain(&mut graph, &[WIDE_B1_1], Some(WIDE_B1));
    chain(&mut graph, &[WIDE_B1_2], Some(WIDE_B1));
    chain(&mut graph, &[WIDE_B2_1], Some(WIDE_B2));
    chain(&mut graph, &[WIDE_B2_2], Some(WIDE_B2));
    graph
}

#[test]
fn branch_wide_reachability() {
    let graph = branch_wide();
    // all nodes can reach the root
    for above in [WIDE_B1, WIDE_B2, WIDE_B1_1, WIDE_B1_2, WIDE_B2_1, WIDE_B2_2].iter() {
        assert!(reaches(&graph, above, WIDE_ROOT));
        assert!(!reaches(&graph, WIDE_ROOT, above));
    }
    // nodes in different branches cannot reach each other
    assert!(!reaches(&graph, WIDE_B1, WIDE_B2));
    assert!(!reaches(&graph, WIDE_B2, WIDE_B1));
    assert!(!reaches(&graph, WIDE_B1_1, WIDE_B1_2));
    assert!(!reaches(&graph, WIDE_B1_2, WIDE_B1_1));
    assert!(!reaches(&graph, WIDE_B1_1, WIDE_B2));
    assert!(!reaches(&graph, WIDE_B2_1, WIDE_B1));
    assert!(!reaches(&graph, WIDE_B1_1, WIDE_B2_1));
    assert!(!reaches(&graph, WIDE_B2_2, WIDE_B1_2));
    // branch nodes can reach their common root
    assert!(reaches(&graph, WIDE_B1_1, WIDE_B1));
    assert!(reaches(&graph, WIDE_B1_2, WIDE_B1));
    assert!(reaches(&graph, WIDE_B2_1, WIDE_B2));
    assert!(reaches(&graph, WIDE_B2_2, WIDE_B2));
}

#[test]
fn three_commit_line_reaches_back_only() {
    let c1 = "1111111111111111111111111111111111111111";
    let c2 = "2222222222222222222222222222222222222222";
    let c3 = "3333333333333333333333333333333333333333";
    let mut graph = ChangesetGraph::new();
    chain(&mut graph, &[c1, c2, c3], None);
    assert!(reaches(&graph, c3, c1));
    assert!(!reaches(&graph, c1, c3));
    assert!(reaches(&graph, c2, c2));
}

#[test]
fn generations_count_from_the_root() {
    let graph = merge_uneven();
    assert_eq!(graph.get_generation_number(&cs(MERGE_ROOT)), Some(1));
    assert_eq!(graph.get_generation_number(&cs(MERGE_BRANCH_1[2])), Some(4));
    assert_eq!(graph.get_generation_number(&cs(MERGE_BRANCH_2[7])), Some(9));
    assert_eq!(graph.get_generation_number(&cs(MERGE_NODE)), Some(10));
    assert_eq!(graph.get_generation_number(&cs(WIDE_ROOT)), None);
    assert_eq!(graph.len(), 13);
    assert_eq!(
        graph.get_parents(&cs(MERGE_NODE)),
        Some(vec![cs(MERGE_BRANCH_1[2]), cs(MERGE_BRANCH_2[7])])
    );
}

#[test]
fn graph_refuses_unknown_parents_and_repeats() {
    let mut graph = linear();
    let tip = cs(LINEAR_NEWEST_FIRST[0]);
    let stranger = cs(WIDE_ROOT);
    assert_eq!(graph.add_changeset(tip, &vec![]), Err(AddError::Present));
    assert_eq!(
        graph.add_changeset(cs(WIDE_B1), &vec![tip, stranger]),
        Err(AddError::ParentMissing(stranger))
    );
    assert_eq!(graph.len(), 8);
    assert!(!graph.contains(&cs(WIDE_B1)));
}

#[test]
fn missing_changesets_are_reported() {
    let graph = linear();
    let bfs = GenerationNumberBFS::new();
    let known = cs(LINEAR_NEWEST_FIRST[3]);
    let stranger = cs(WIDE_ROOT);
    match bfs.query_reachability(&graph, stranger, known) {
        Err(ErrorKind::ChangesetMissing(id)) => assert_eq!(id.into_nodehash(), stranger.0),
        other => panic!("unexpected result {:?}", other),
    }
    match bfs.query_reachability(&graph, known, stranger) {
        Err(ErrorKind::ChangesetMissing(id)) => assert_eq!(id.into_nodehash(), stranger.0),
        other => panic!("unexpected result {:?}", other),
    }
    match bfs.query_reachability(&graph, stranger, stranger) {
        Err(ErrorKind::ChangesetMissing(id)) => assert_eq!(id.into_nodehash(), stranger.0),
        other => panic!("unexpected result {:?}", other),
    }
}

#[test]
fn a_layer_keeps_unseen_parents_of_high_generation() {
    let a = cs(WIDE_B1);
    let b = cs(WIDE_B2);
    let c = cs(WIDE_B1_1);
    let d = cs(WIDE_B1_2);
    let mut layer = NodeSet::new();
    layer.insert(a.0);
    let mut seen = NodeSet::new();
    seen.insert(b.0);
    let parents = vec![(b, 9), (c, 5), (d, 4), (a, 7), (c, 5)];
    let (next, seen) = process_bfs_layer(&layer, seen, &parents, 5);
    assert_eq!(next.to_vec(), vec![c.0]);
    assert_eq!(seen.to_vec(), vec![b.0, a.0]);
}
