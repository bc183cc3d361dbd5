use mononoke::between::BetweenWalk;
use mononoke::bookmarks::{Bookmark, Bookmarks};
use mononoke::bundle2::{
    is_mandatory, next_stage, part_kind, step, Action, Event, ParserState, PartKind, Stage,
};
use mononoke::caps::parse_utf8_getbundle_caps;
use mononoke::client::{
    format_nodes_list, format_utf8_bytes_list, generate_resp_buf, getfiles_timeout_duration,
    process_stream_timeout_error, process_timeout_error, timeout_duration, LookupStep, Phase,
    RepoClient, RepoReadOnly, StreamTimeoutError, TimeoutError,
};
use mononoke::errors::ServerError;
use mononoke::getbundle::GetbundleArgs;
use mononoke::nodehash::{ChangesetId, HgChangesetId, HgNodeHash};
use mononoke::streaming::build_file_header;
use std::collections::HashMap;

fn hash(byte: u8) -> HgNodeHash {
    HgNodeHash([byte; 20])
}

fn hex(byte: u8) -> String {
    format!("{:02x}", byte).repeat(20)
}

fn client() -> RepoClient {
    RepoClient::new(0, false)
}

#[test]
fn hello_announces_bundle2() {
    let res = client().hello();
    assert_eq!(res.len(), 1);
    assert_eq!(res[0].0, "capabilities");
    let caps = &res[0].1;
    for cap in [
        "lookup",
        "known",
        "getbundle",
        "gettreepack",
        "remotefilelog",
        "pushkey",
        "treeonly",
        "knownnodes",
        "streamreqs=generaldelta,lz4revlog,revlogv1",
    ]
    .iter()
    {
        assert!(caps.contains(&cap.to_string()), "missing {}", cap);
    }
    let bundle2 = caps.iter().find(|c| c.starts_with("bundle2=")).unwrap();
    assert_eq!(caps.last(), Some(bundle2));
    let (name, subcaps) = parse_utf8_getbundle_caps(bundle2.as_bytes()).unwrap();
    assert_eq!(name, "bundle2");
    let subcaps: HashMap<String, Vec<String>> = subcaps.entries.into_iter().collect();
    assert_eq!(subcaps["changegroup"], vec!["01".to_string(), "02".to_string()]);
    assert_eq!(subcaps["phases"], vec!["heads".to_string()]);
    assert_eq!(subcaps["HG20"], Vec::<String>::new());
    assert!(subcaps.contains_key("b2x:infinitepush"));
    assert!(subcaps.contains_key("pushkey"));
    assert!(!subcaps.contains_key("listkeys"));
}

fn lookup(key: &str, exists: bool, bookmark_target: Option<HgChangesetId>) -> Vec<u8> {
    let client = client();
    let mut step = client.lookup(key);
    loop {
        step = match step {
            LookupStep::CheckChangeset(cs, bookmark) => {
                client.lookup_changeset_checked(cs, bookmark, exists)
            }
            LookupStep::ResolveBookmark(bookmark) => {
                LookupStep::Reply(client.lookup_bookmark_resolved(&bookmark, bookmark_target))
            }
            LookupStep::Reply(buf) => return buf,
        };
    }
}

#[test]
fn lookup_answers_for_hashes_and_bookmarks() {
    let deadbeef = "deadbeef".repeat(5);
    assert_eq!(
        lookup(&deadbeef, false, None),
        format!("0 {} not found\n", deadbeef).into_bytes()
    );
    assert_eq!(
        lookup(&deadbeef, true, None),
        format!("1 {}\n", deadbeef).into_bytes()
    );
    let target = HgChangesetId::new(hash(0xab));
    assert_eq!(
        lookup(&deadbeef, false, Some(target)),
        format!("1 {}\n", hex(0xab)).into_bytes()
    );
    assert_eq!(
        lookup("master", true, Some(target)),
        format!("1 {}\n", hex(0xab)).into_bytes()
    );
    assert_eq!(lookup("master", true, None), b"0 master not found\n".to_vec());
    assert_eq!(lookup("m\u{e4}ster", true, Some(target)), b"0 invalid input\n".to_vec());
    assert_eq!(lookup("", false, None), b"0  not found\n".to_vec());
    assert_eq!(
        lookup(&"DEADBEEF".repeat(5), true, None),
        format!("1 {}\n", deadbeef).into_bytes()
    );
}

#[test]
fn lookup_replies_are_framed() {
    assert_eq!(generate_resp_buf(true, b"abc"), b"1 abc\n".to_vec());
    assert_eq!(generate_resp_buf(false, b""), b"0 \n".to_vec());
}

fn between(chain_top_first: &[HgNodeHash], top: HgNodeHash, bottom: HgNodeHash) -> Vec<HgNodeHash> {
    let mut walks = client().between(&vec![(top, bottom)]);
    let mut walk: BetweenWalk = walks.pop().unwrap();
    while let Some(cs) = walk.pending() {
        let at = chain_top_first
            .iter()
            .position(|h| *h == cs.into_nodehash())
            .unwrap();
        walk.advance(chain_top_first.get(at + 1).cloned());
    }
    walk.finish()
}

#[test]
fn between_samples_at_doubling_distances() {
    // c[0] is c20, c[19] is c1
    let c: Vec<HgNodeHash> = (0..20u8).map(|i| hash(20 - i)).collect();
    let c20 = c[0];
    let c1 = c[19];
    assert_eq!(
        between(&c, c20, c1),
        vec![hash(20), hash(19), hash(17), hash(13), hash(5)]
    );
    // without a bottom on the chain the walk ends at the root
    assert_eq!(
        between(&c, c20, hash(0xee)),
        vec![hash(20), hash(19), hash(17), hash(13), hash(5)]
    );
    assert_eq!(between(&c, c20, c20), Vec::<HgNodeHash>::new());
    assert_eq!(between(&c, HgNodeHash::null(), c1), Vec::<HgNodeHash>::new());
    assert_eq!(between(&c, c[18], c1), vec![hash(2)]);
    assert_eq!(between(&c, c[17], c1), vec![hash(3), hash(2)]);
    assert_eq!(between(&c, c[16], c1), vec![hash(4), hash(3)]);
    assert_eq!(between(&c, c[15], c1), vec![hash(5), hash(4), hash(2)]);
}

#[test]
fn between_answers_each_pair() {
    let pairs = vec![(hash(3), hash(1)), (hash(9), hash(9))];
    let walks = client().between(&pairs);
    assert_eq!(walks.len(), 2);
    assert_eq!(walks[0].pending(), Some(HgChangesetId::new(hash(3))));
    assert_eq!(walks[1].pending(), None);
    assert_eq!(client().between(&vec![]).len(), 0);
}

#[test]
fn known_wants_public_changesets() {
    let hg = |b: u8| HgChangesetId::new(hash(b));
    let bcs = |b: u8| ChangesetId::new(hash(b));
    let mapping = vec![(hg(1), bcs(101)), (hg(2), bcs(102)), (hg(3), bcs(103))];
    let phases = vec![
        (bcs(101), Phase::Public),
        (bcs(102), Phase::Draft),
        (bcs(103), Phase::Public),
        (bcs(104), Phase::Public),
    ];
    let nodes = vec![hg(1), hg(2), hg(3), hg(4), hg(1)];
    let client = client();
    assert_eq!(client.known_bonsai_ids(&mapping), vec![bcs(101), bcs(102), bcs(103)]);
    assert_eq!(
        client.known(&nodes, &mapping, &phases),
        vec![true, false, true, false, true]
    );
    assert_eq!(
        client.knownnodes(&nodes, &mapping),
        vec![true, true, true, false, true]
    );
    assert_eq!(client.known(&vec![], &mapping, &phases), Vec::<bool>::new());
    assert_eq!(client.knownnodes(&vec![], &mapping), Vec::<bool>::new());
    assert_eq!(client.known(&nodes, &vec![], &vec![]), vec![false; 5]);
}

#[test]
fn heads_come_once() {
    let found = vec![hash(1), hash(2), hash(1), hash(3), hash(2)];
    let heads = client().heads(&found);
    assert_eq!(heads.to_vec(), vec![hash(1), hash(2), hash(3)]);
    assert_eq!(heads.len(), 3);
    assert!(client().heads(&vec![]).is_empty());
}

#[test]
fn listkeys_lists_bookmarks_only() {
    let bookmarks = vec![
        (Bookmark::new("master").unwrap(), HgChangesetId::new(hash(0x11))),
        (Bookmark::new("stable").unwrap(), HgChangesetId::new(hash(0x22))),
    ];
    assert_eq!(
        client().listkeys("bookmarks", &bookmarks),
        vec![
            (b"master".to_vec(), hex(0x11).into_bytes()),
            (b"stable".to_vec(), hex(0x22).into_bytes()),
        ]
    );
    assert_eq!(client().listkeys("phases", &bookmarks), vec![]);
    assert_eq!(client().listkeys("", &bookmarks), vec![]);
    assert!(Bookmark::new("caf\u{e9}").is_none());
}

#[test]
fn bookmarks_move_by_compare_and_swap() {
    let master = Bookmark::new("master").unwrap();
    let stable = Bookmark::new("stable").unwrap();
    let at = |b: u8| Some(HgChangesetId::new(hash(b)));
    let mut bookmarks = Bookmarks::new();
    assert_eq!(bookmarks.get_bookmark(&master), None);
    assert!(!bookmarks.set_bookmark(&master, at(1), at(2)));
    assert_eq!(bookmarks.get_bookmark(&master), None);
    assert!(bookmarks.set_bookmark(&master, None, at(1)));
    assert!(bookmarks.set_bookmark(&stable, None, at(7)));
    assert!(!bookmarks.set_bookmark(&master, None, at(3)));
    assert!(!bookmarks.set_bookmark(&master, at(2), at(3)));
    assert_eq!(bookmarks.get_bookmark(&master), at(1));
    assert!(bookmarks.set_bookmark(&master, at(1), at(2)));
    assert_eq!(bookmarks.get_bookmark(&master), at(2));
    assert_eq!(bookmarks.get_bookmark(&stable), at(7));
    assert_eq!(
        bookmarks.list_bookmarks(),
        vec![
            (Bookmark::new("master").unwrap(), HgChangesetId::new(hash(2))),
            (Bookmark::new("stable").unwrap(), HgChangesetId::new(hash(7))),
        ]
    );
    assert!(bookmarks.set_bookmark(&stable, at(7), None));
    assert_eq!(bookmarks.get_bookmark(&stable), None);
    assert_eq!(bookmarks.list_bookmarks().len(), 1);
    assert!(bookmarks.set_bookmark(&stable, None, at(8)));
    assert_eq!(bookmarks.list_bookmarks().len(), 2);
}

#[test]
fn unbundle_needs_a_writable_repository() {
    let client = client();
    assert!(client.unbundle(Some(RepoReadOnly::ReadWrite)).is_ok());
    match client.unbundle(Some(RepoReadOnly::ReadOnly("locked for maintenance".to_string()))) {
        Err(ServerError::ReadOnly(reason)) => assert_eq!(reason, "locked for maintenance"),
        other => panic!("unexpected result {:?}", other),
    }
    match client.unbundle(None) {
        Err(ServerError::ReadOnly(reason)) => {
            assert_eq!(reason, "Failed to fetch repo lock status")
        }
        other => panic!("unexpected result {:?}", other),
    }
}

#[test]
fn commands_time_out() {
    assert_eq!(timeout_duration(), 900);
    assert_eq!(getfiles_timeout_duration(), 5400);
    assert!(matches!(
        process_timeout_error(TimeoutError::Elapsed),
        ServerError::Timeout
    ));
    assert!(matches!(
        process_timeout_error(TimeoutError::Inner(ServerError::Conflict("x".to_string()))),
        ServerError::Conflict(_)
    ));
    assert!(matches!(
        process_stream_timeout_error(StreamTimeoutError::Timeout),
        ServerError::Timeout
    ));
    assert!(matches!(
        process_stream_timeout_error(StreamTimeoutError::Error(ServerError::InternalIO(
            "x".to_string()
        ))),
        ServerError::InternalIO(_)
    ));
}

#[test]
fn lists_are_formatted_for_the_log() {
    assert_eq!(format_nodes_list(&vec![]), "");
    assert_eq!(format_nodes_list(&vec![hash(0x0a)]), hex(0x0a));
    assert_eq!(
        format_nodes_list(&vec![hash(0x0a), hash(0xff), hash(0)]),
        format!("{} {} {}", hex(0x0a), hex(0xff), hex(0))
    );
    assert_eq!(format_utf8_bytes_list(&vec![]), "");
    assert_eq!(
        format_utf8_bytes_list(&vec![b"bookmarks".to_vec(), b"phases".to_vec()]),
        "bookmarks,phases"
    );
    assert_eq!(
        format_utf8_bytes_list(&vec![b"a\xffb".to_vec(), b"".to_vec(), b"c".to_vec()]),
        "a\u{fffd}b,,c"
    );
}

#[test]
fn clients_learn_the_host() {
    assert_eq!(client().clienttelemetry(Some("host17".to_string())), "host17");
    assert_eq!(client().clienttelemetry(None), "<no hostname found>");
}

#[test]
fn raw_bundles_are_kept_on_request() {
    assert!(RepoClient::new(10, true).should_preserve_raw_bundle2());
    assert!(!RepoClient::new(10, false).should_preserve_raw_bundle2());
}

#[test]
fn hash_validation_is_sampled() {
    let client = RepoClient::new(30, false);
    assert!(client.validates_hash(0));
    assert!(client.validates_hash(29));
    assert!(!client.validates_hash(30));
    assert!(client.validates_hash(129));
    assert!(!client.validates_hash(199));
    let never = RepoClient::new(0, false);
    let always = RepoClient::new(100, false);
    for _ in 0..200 {
        assert!(!never.sample_validate_hash());
        assert!(always.sample_validate_hash());
        assert!(!never.sample_validate_hash_ratio());
        assert!(always.sample_validate_hash_ratio());
    }
    let half = RepoClient::new(50, false);
    let drawn: Vec<bool> = (0..400).map(|_| half.sample_validate_hash()).collect();
    assert!(drawn.contains(&true));
    assert!(drawn.contains(&false));
    let drawn: Vec<bool> = (0..400).map(|_| half.sample_validate_hash_ratio()).collect();
    assert!(drawn.contains(&true));
    assert!(drawn.contains(&false));
}

#[test]
fn the_changelog_streams_out() {
    let index = vec![b"iii".to_vec(), b"II".to_vec()];
    let data = vec![b"dddd".to_vec(), b"".to_vec(), b"DDD".to_vec()];
    let out = client().stream_out_shallow(5, 7, &index, &data);
    assert_eq!(
        out,
        vec![
            b"0\n".to_vec(),
            b"2 12\n".to_vec(),
            b"00changelog.i\x005\n".to_vec(),
            b"iii".to_vec(),
            b"II".to_vec(),
            b"00changelog.d\x007\n".to_vec(),
            b"dddd".to_vec(),
            b"".to_vec(),
            b"DDD".to_vec(),
        ]
    );
    let nothing = client().stream_out_shallow(0, 0, &vec![], &vec![]);
    assert_eq!(
        nothing,
        vec![
            b"0\n".to_vec(),
            b"2 0\n".to_vec(),
            b"00changelog.i\x000\n".to_vec(),
            b"00changelog.d\x000\n".to_vec(),
        ]
    );
    assert_eq!(
        build_file_header("00changelog.d", 1234567890),
        b"00changelog.d\x001234567890\n".to_vec()
    );
}

fn getbundle_args(phases: bool, bundlecaps: &[&[u8]], listkeys: &[&[u8]]) -> GetbundleArgs {
    GetbundleArgs {
        heads: vec![hash(9), hash(8)],
        common: vec![hash(1)],
        bundlecaps: bundlecaps.iter().map(|c| c.to_vec()).collect(),
        listkeys: listkeys.iter().map(|c| c.to_vec()).collect(),
        phases,
    }
}

#[test]
fn getbundle_sends_phases_when_the_client_takes_heads() {
    let client = client();
    let with_heads: &[u8] = b"bundle2=HG20%0Aphases%3Dheads";
    let with_other: &[u8] = b"bundle2=HG20%0Aphases%3Dbinary%2Cfoo";
    let without: &[u8] = b"bundle2=HG20%0Achangegroup%3D01%2C02";
    let other_cap: &[u8] = b"HG20";
    let broken: &[u8] = b"bundle2=%FF";

    let plan = client.getbundle(&getbundle_args(true, &[other_cap, with_heads], &[]));
    assert!(plan.use_phases);
    assert_eq!(plan.heads, vec![HgChangesetId::new(hash(9)), HgChangesetId::new(hash(8))]);
    assert_eq!(plan.common, vec![HgChangesetId::new(hash(1))]);
    assert!(!plan.list_bookmarks);
    assert!(!plan.compressed);

    assert!(!client.create_bundle(&getbundle_args(true, &[with_other], &[])).use_phases);
    assert!(!client.create_bundle(&getbundle_args(true, &[with_other, with_heads], &[])).use_phases);
    assert!(client.create_bundle(&getbundle_args(true, &[without, with_heads], &[])).use_phases);
    assert!(client.create_bundle(&getbundle_args(true, &[broken, with_heads], &[])).use_phases);
    assert!(client.create_bundle(&getbundle_args(true, &[without], &[])).use_phases);
    assert!(client.create_bundle(&getbundle_args(true, &[], &[])).use_phases);
    assert!(!client.create_bundle(&getbundle_args(false, &[with_heads], &[])).use_phases);
    assert!(!client.create_bundle(&getbundle_args(false, &[], &[])).use_phases);
}

#[test]
fn getbundle_lists_bookmarks_on_request() {
    let client = client();
    assert!(client.create_bundle(&getbundle_args(false, &[], &[b"bookmarks"])).list_bookmarks);
    assert!(
        client
            .create_bundle(&getbundle_args(false, &[], &[b"phases", b"bookmarks"]))
            .list_bookmarks
    );
    assert!(!client.create_bundle(&getbundle_args(false, &[], &[b"phases"])).list_bookmarks);
    assert!(!client.create_bundle(&getbundle_args(false, &[], &[b"bookmark"])).list_bookmarks);
}

fn read(events: Vec<Event>) -> (ParserState, Vec<Action>) {
    let mut state = ParserState::Idle;
    let mut actions = vec![];
    for event in events.iter() {
        let (next, action) = step(state, event);
        state = next;
        actions.push(action);
    }
    (state, actions)
}

fn part(name: &str) -> Event {
    Event::PartHeader(name.as_bytes().to_vec())
}

#[test]
fn a_bundle_is_read_part_by_part() {
    let (state, actions) = read(vec![
        Event::Start,
        Event::StreamHeader,
        part("replycaps"),
        Event::PayloadEnd,
        part("CHANGEGROUP"),
        Event::PayloadEnd,
        part("b2x:treegroup2"),
        Event::PayloadEnd,
        part("some-advisory-part"),
        Event::PayloadEnd,
        part("B2X:INFINITEPUSH"),
        Event::PayloadEnd,
        part("b2x:rebase"),
        Event::PayloadEnd,
        part("pushkey"),
        Event::PayloadEnd,
        Event::EndMarker,
    ]);
    assert_eq!(state, ParserState::End);
    assert_eq!(
        actions,
        vec![
            Action::Continue,
            Action::Continue,
            Action::Handle(PartKind::Replycaps),
            Action::Continue,
            Action::Handle(PartKind::Changegroup),
            Action::Continue,
            Action::Handle(PartKind::Treegroup2),
            Action::Continue,
            Action::Skip,
            Action::Continue,
            Action::Handle(PartKind::Infinitepush),
            Action::Continue,
            Action::Handle(PartKind::Rebase),
            Action::Continue,
            Action::Handle(PartKind::Pushkey),
            Action::Continue,
            Action::Finish,
        ]
    );
    let (state, actions) = read(vec![Event::Start, Event::StreamHeader, Event::EndMarker]);
    assert_eq!(state, ParserState::End);
    assert_eq!(actions.last(), Some(&Action::Finish));
}

#[test]
fn an_unknown_part_that_must_be_understood_ends_the_reading() {
    let (state, actions) =
        read(vec![Event::Start, Event::StreamHeader, part("Unknown:Part"), Event::PayloadEnd]);
    assert_eq!(state, ParserState::Aborted);
    assert_eq!(actions[2], Action::AbortUnknownPart);
    assert_eq!(actions[3], Action::AbortOutOfOrder);
    assert!(is_mandatory(b"Unknown:Part"));
    assert!(is_mandatory(b"changegrouP"));
    assert!(!is_mandatory(b"unknown:part"));
    assert!(!is_mandatory(b""));
    assert_eq!(part_kind(b"PushKey"), Some(PartKind::Pushkey));
    assert_eq!(part_kind(b"pushkeys"), None);
    assert_eq!(part_kind(b""), None);
}

#[test]
fn pieces_out_of_order_end_the_reading() {
    for events in vec![
        vec![Event::StreamHeader],
        vec![Event::Start, Event::Start],
        vec![Event::Start, part("changegroup")],
        vec![Event::Start, Event::StreamHeader, Event::PayloadEnd],
        vec![Event::Start, Event::StreamHeader, part("pushkey"), part("pushkey")],
        vec![Event::Start, Event::StreamHeader, part("pushkey"), Event::EndMarker],
        vec![Event::Start, Event::StreamHeader, Event::EndMarker, Event::EndMarker],
        vec![Event::Start, Event::StreamHeader, Event::EndMarker, Event::Start],
    ] {
        let (state, actions) = read(events);
        assert_eq!(state, ParserState::Aborted);
        assert_eq!(actions.last(), Some(&Action::AbortOutOfOrder));
    }
}

#[test]
fn a_push_goes_through_its_stages() {
    let mut stage = Stage::Drain;
    let mut seen = vec![stage];
    while stage != Stage::Done {
        stage = next_stage(stage, true);
        seen.push(stage);
    }
    assert_eq!(
        seen,
        vec![
            Stage::Drain,
            Stage::Upload,
            Stage::VerifyHashes,
            Stage::UpdateBookmarks,
            Stage::UpdatePhases,
            Stage::Done,
        ]
    );
    for stage in seen {
        assert_eq!(next_stage(stage, false), Stage::Aborted);
    }
    assert_eq!(next_stage(Stage::Aborted, true), Stage::Aborted);
    assert_eq!(next_stage(Stage::Done, true), Stage::Done);
}
