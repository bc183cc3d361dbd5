//! The read-only API: what each endpoint asks of a repository.

use vstd::prelude::*;
use vstd::utf8::{encode_utf8, valid_utf8};
use crate::caps::percent_decoded;
use crate::text::{
    bytes_eq, copy_bytes, join, join_bytes, split, split_bytes, string_from_utf8, utf8_lossy,
    views,
};

verus! {

/// How a request names a changeset.
#[derive(Debug, PartialEq, Eq)]
pub enum Revision {
    CommitHash(String),
    Bookmark(String),
}

/// One object of a batch request for large files.
#[derive(Debug, PartialEq, Eq)]
pub struct RequestObject {
    pub oid: String,
    pub size: u64,
}

/// A batch request for large files.
#[derive(Debug, PartialEq, Eq)]
pub struct BatchRequest {
    pub operation: String,
    pub transfers: Vec<String>,
    pub objects: Vec<RequestObject>,
}

/// What an endpoint asks of a repository.
#[derive(Debug, PartialEq, Eq)]
pub enum MononokeRepoQuery {
    GetRawFile { revision: Revision, path: String },
    GetHgFile { filenode: String },
    GetFileHistory { filenode: String, path: String, depth: Option<u32> },
    GetBlobContent { hash: String },
    ListDirectory { revision: Revision, path: String },
    GetTree { hash: String },
    GetChangeset { revision: Revision },
    IsAncestor { ancestor: Revision, descendant: Revision },
    DownloadLargeFile { oid: String },
    LfsBatch { repo_name: String, req: BatchRequest, lfs_url: Option<String> },
    UploadLargeFile { oid: String, body: Vec<u8> },
}

/// A question to one repository.
#[derive(Debug, PartialEq, Eq)]
pub struct MononokeQuery {
    pub repo: String,
    pub kind: MononokeRepoQuery,
}

/// The answer of the health check.
pub fn health_check() -> (body: &'static str)
    ensures
        body@ == "I_AM_ALIVE"@,
{
    "I_AM_ALIVE"
}

/// `GET /{repo}/raw/{changeset}/{path}`
pub fn get_raw_file(repo: String, changeset: String, path: String) -> (q: MononokeQuery)
    ensures
        q == (MononokeQuery {
            repo,
            kind: MononokeRepoQuery::GetRawFile { revision: Revision::CommitHash(changeset), path },
        }),
{
    MononokeQuery {
        repo,
        kind: MononokeRepoQuery::GetRawFile { revision: Revision::CommitHash(changeset), path },
    }
}

/// `GET /{repo}/gethgfile/{filenode}`
pub fn get_hg_file(repo: String, filenode: String) -> (q: MononokeQuery)
    ensures
        q == (MononokeQuery { repo, kind: MononokeRepoQuery::GetHgFile { filenode } }),
{
    MononokeQuery { repo, kind: MononokeRepoQuery::GetHgFile { filenode } }
}

/// The value of decimal digits.
pub open spec fn digits_value(s: Seq<u8>) -> nat
    decreases s.len(),
{
    if s.len() == 0 {
        0
    } else {
        digits_value(s.drop_last()) * 10 + (s.last() - 48) as nat
    }
}

pub open spec fn all_digits(s: Seq<u8>) -> bool {
    forall|i: int| 0 <= i < s.len() ==> 48 <= #[trigger] s[i] <= 57
}

/// The digits of a number written in text: the text without a plus sign
/// in front.
pub open spec fn number_body(s: Seq<u8>) -> Seq<u8> {
    if s.len() > 0 && s[0] == 43 {
        s.skip(1)
    } else {
        s
    }
}

/// The number that the text writes in 32 bits: decimal digits, at least
/// one, with or without a plus sign in front. Nothing for any other text
/// and for a number that does not fit.
pub open spec fn parsed_u32(s: Seq<u8>) -> Option<u32> {
    if number_body(s).len() > 0 && all_digits(number_body(s)) && digits_value(number_body(s))
        <= u32::MAX {
        Some(digits_value(number_body(s)) as u32)
    } else {
        None
    }
}

proof fn lemma_digits_grow(s: Seq<u8>, i: int)
    requires
        all_digits(s),
        0 <= i <= s.len(),
    ensures
        digits_value(s.take(i)) <= digits_value(s),
    decreases s.len() - i,
{
    if i < s.len() {
        let t = s.take(i + 1);
        assert(t.drop_last() =~= s.take(i));
        assert(t.last() == s[i]);
        lemma_digits_grow(s, i + 1);
    } else {
        assert(s.take(i) =~= s);
    }
}

/// The number that the text writes in 32 bits.
pub fn parse_u32(text: &str) -> (r: Option<u32>)
    ensures
        r == parsed_u32(encode_utf8(text@)),
{
    let s = text.as_bytes();
    let start: usize = if s.len() > 0 && s[0] == 43 {
        1
    } else {
        0
    };
    let ghost body = number_body(s@);
    if s.len() == start {
        return None;
    }
    let mut acc: u64 = 0;
    let mut i: usize = start;
    assert(body.take(0) =~= Seq::<u8>::empty());
    while i < s.len()
        invariant
            start <= i <= s.len(),
            start <= 1,
            s@ == encode_utf8(text@),
            body == number_body(s@),
            body == s@.skip(start as int),
            all_digits(body.take(i - start)),
            acc == digits_value(body.take(i - start)),
            acc <= u32::MAX,
        decreases s.len() - i,
    {
        let b = s[i];
        proof {
            let t = body.take(i - start + 1);
            assert(t.drop_last() =~= body.take(i - start));
            assert(t.last() == b);
        }
        if b < 48 || b > 57 {
            assert(!all_digits(body)) by {
                assert(body[i - start] == b);
            }
            return None;
        }
        acc = acc * 10 + (b - 48) as u64;
        proof {
            assert forall|j: int| 0 <= j < i - start + 1 implies 48 <= #[trigger] body.take(
                i - start + 1,
            )[j] <= 57 by {
                if j < i - start {
                    assert(body.take(i - start)[j] == body[j]);
                }
            }
        }
        if acc > 0xffff_ffff {
            proof {
                if all_digits(body) {
                    lemma_digits_grow(body, i - start + 1);
                }
            }
            return None;
        }
        i += 1;
    }
    assert(body.take(s.len() - start) =~= body);
    Some(acc as u32)
}

/// `GET /{repo}/getfilehistory/{filenode}/{path}?depth=N`: a depth that
/// is no number counts as no depth.
pub fn get_file_history(repo: String, filenode: String, path: String, depth: Option<&str>) -> (q:
    MononokeQuery)
    ensures
        q == (MononokeQuery {
            repo,
            kind: MononokeRepoQuery::GetFileHistory {
                filenode,
                path,
                depth: match depth {
                    Some(d) => parsed_u32(encode_utf8(d@)),
                    None => None,
                },
            },
        }),
{
    let depth = match depth {
        Some(d) => parse_u32(d),
        None => None,
    };
    MononokeQuery { repo, kind: MononokeRepoQuery::GetFileHistory { filenode, path, depth } }
}

/// `percent_encoding::percent_decode` followed by `decode_utf8_lossy`:
/// the bytes are percent-decoded and read leniently as UTF-8.
#[verifier::external_body]
fn percent_decode_utf8_lossy(input: &[u8]) -> (r: String)
    ensures
        r@ == utf8_lossy(percent_decoded(input@)),
{
    percent_encoding::percent_decode(input).decode_utf8_lossy().into_owned()
}

/// `GET /{repo}/is_ancestor/{ancestor}/{descendant}`: the two names are
/// percent-decoded.
pub fn is_ancestor(repo: String, ancestor: &str, descendant: &str) -> (q: MononokeQuery)
    ensures
        q.repo == repo,
        q.kind matches MononokeRepoQuery::IsAncestor {
            ancestor: Revision::CommitHash(a),
            descendant: Revision::CommitHash(d),
        } && a@ == utf8_lossy(percent_decoded(encode_utf8(ancestor@))) && d@ == utf8_lossy(
            percent_decoded(encode_utf8(descendant@)),
        ),
{
    let ancestor_parsed = percent_decode_utf8_lossy(ancestor.as_bytes());
    let descendant_parsed = percent_decode_utf8_lossy(descendant.as_bytes());
    MononokeQuery {
        repo,
        kind: MononokeRepoQuery::IsAncestor {
            ancestor: Revision::CommitHash(ancestor_parsed),
            descendant: Revision::CommitHash(descendant_parsed),
        },
    }
}

/// `GET /{repo}/list/{changeset}/{path}`
pub fn list_directory(repo: String, changeset: String, path: String) -> (q: MononokeQuery)
    ensures
        q == (MononokeQuery {
            repo,
            kind: MononokeRepoQuery::ListDirectory {
                revision: Revision::CommitHash(changeset),
                path,
            },
        }),
{
    MononokeQuery {
        repo,
        kind: MononokeRepoQuery::ListDirectory { revision: Revision::CommitHash(changeset), path },
    }
}

/// `GET /{repo}/blob/{hash}`
pub fn get_blob_content(repo: String, hash: String) -> (q: MononokeQuery)
    ensures
        q == (MononokeQuery { repo, kind: MononokeRepoQuery::GetBlobContent { hash } }),
{
    MononokeQuery { repo, kind: MononokeRepoQuery::GetBlobContent { hash } }
}

/// `GET /{repo}/tree/{hash}`
pub fn get_tree(repo: String, hash: String) -> (q: MononokeQuery)
    ensures
        q == (MononokeQuery { repo, kind: MononokeRepoQuery::GetTree { hash } }),
{
    MononokeQuery { repo, kind: MononokeRepoQuery::GetTree { hash } }
}

/// `GET /{repo}/changeset/{hash}`
pub fn get_changeset(repo: String, hash: String) -> (q: MononokeQuery)
    ensures
        q == (MononokeQuery {
            repo,
            kind: MononokeRepoQuery::GetChangeset { revision: Revision::CommitHash(hash) },
        }),
{
    MononokeQuery {
        repo,
        kind: MononokeRepoQuery::GetChangeset { revision: Revision::CommitHash(hash) },
    }
}

/// `GET /{repo}/lfs/download/{oid}`
pub fn download_large_file(repo: String, oid: String) -> (q: MononokeQuery)
    ensures
        q == (MononokeQuery { repo, kind: MononokeRepoQuery::DownloadLargeFile { oid } }),
{
    MononokeQuery { repo, kind: MononokeRepoQuery::DownloadLargeFile { oid } }
}

/// `POST /{repo}/objects/batch`: the request, the repository's name, and
/// the address that the client is to fetch the objects from, where the
/// request came with one.
pub fn lfs_batch(repo: &String, req: BatchRequest, lfs_url: Option<String>) -> (q: MononokeQuery)
    ensures
        q.repo@ == repo@,
        q.kind matches MononokeRepoQuery::LfsBatch { repo_name, req: r, lfs_url: u } && repo_name@
            == repo@ && r == req && u == lfs_url,
{
    MononokeQuery {
        repo: repo.clone(),
        kind: MononokeRepoQuery::LfsBatch { req, repo_name: repo.clone(), lfs_url },
    }
}

/// `PUT /{repo}/lfs/upload/{oid}`
pub fn upload_large_file(repo: String, oid: String, body: Vec<u8>) -> (q: MononokeQuery)
    ensures
        q == (MononokeQuery { repo, kind: MononokeRepoQuery::UploadLargeFile { oid, body } }),
{
    MononokeQuery { repo, kind: MononokeRepoQuery::UploadLargeFile { oid, body } }
}


/// The endpoints of the API.
#[derive(Debug, PartialEq, Eq)]
pub enum Route {
    HealthCheck,
    GetRawFile { repo: String, changeset: String, path: String },
    GetHgFile { repo: String, filenode: String },
    GetFileHistory { repo: String, filenode: String, path: String },
    IsAncestor { repo: String, ancestor: String, descendant: String },
    ListDirectory { repo: String, changeset: String, path: String },
    GetBlobContent { repo: String, hash: String },
    GetTree { repo: String, hash: String },
    GetChangeset { repo: String, hash: String },
    DownloadLargeFile { repo: String, oid: String },
    LfsBatch { repo: String },
    UploadLargeFile { repo: String, oid: String },
}

/// The methods that endpoints answer to.
#[derive(Clone, Copy, Debug, PartialEq, Eq, Structural)]
pub enum Method {
    Get,
    Post,
    Put,
}

/// An endpoint as plain values: its number in the list of endpoints, and
/// the parts of the path that it takes.
pub struct RouteView {
    pub endpoint: int,
    pub parts: Seq<Seq<u8>>,
}

/// The segments of a path from the given one on, with slashes between
/// them.
pub open spec fn rest_of(segments: Seq<Seq<u8>>, from: int) -> Seq<u8> {
    join(segments.skip(from), seq![47u8])
}

/// Whether the segment is the given word.
pub open spec fn is_word(segment: Seq<u8>, word: Seq<char>) -> bool {
    segment == encode_utf8(word)
}

/// The endpoint that a method and a path name, if any. A path is cut at
/// its slashes; the first segment is empty, the second names the
/// repository and the third the operation. The segments that name
/// something are not empty; a path at the end of a route is what is left
/// and may hold slashes.
pub open spec fn routed(method: Method, path: Seq<u8>) -> Option<RouteView> {
    let s = split(path, 47);
    if s.len() < 2 || s[0].len() != 0 {
        None
    } else if s.len() == 2 {
        if is_word(s[1], "health_check"@) && method == Method::Get {
            Some(RouteView { endpoint: 0, parts: Seq::empty() })
        } else {
            None
        }
    } else if s[1].len() == 0 || s.len() < 4 || s[3].len() == 0 {
        None
    } else if method == Method::Get && is_word(s[2], "raw"@) && s.len() >= 5 {
        Some(RouteView { endpoint: 1, parts: seq![s[1], s[3], rest_of(s, 4)] })
    } else if method == Method::Get && is_word(s[2], "gethgfile"@) && s.len() == 4 {
        Some(RouteView { endpoint: 2, parts: seq![s[1], s[3]] })
    } else if method == Method::Get && is_word(s[2], "getfilehistory"@) && s.len() >= 5 {
        Some(RouteView { endpoint: 3, parts: seq![s[1], s[3], rest_of(s, 4)] })
    } else if method == Method::Get && is_word(s[2], "is_ancestor"@) && s.len() == 5 && s[4].len()
        > 0 {
        Some(RouteView { endpoint: 4, parts: seq![s[1], s[3], s[4]] })
    } else if method == Method::Get && is_word(s[2], "list"@) && s.len() >= 5 {
        Some(RouteView { endpoint: 5, parts: seq![s[1], s[3], rest_of(s, 4)] })
    } else if method == Method::Get && is_word(s[2], "blob"@) && s.len() == 4 {
        Some(RouteView { endpoint: 6, parts: seq![s[1], s[3]] })
    } else if method == Method::Get && is_word(s[2], "tree"@) && s.len() == 4 {
        Some(RouteView { endpoint: 7, parts: seq![s[1], s[3]] })
    } else if method == Method::Get && is_word(s[2], "changeset"@) && s.len() == 4 {
        Some(RouteView { endpoint: 8, parts: seq![s[1], s[3]] })
    } else if method == Method::Get && is_word(s[2], "lfs"@) && is_word(s[3], "download"@)
        && s.len() == 5 && s[4].len() > 0 {
        Some(RouteView { endpoint: 9, parts: seq![s[1], s[4]] })
    } else if method == Method::Post && is_word(s[2], "objects"@) && is_word(s[3], "batch"@)
        && s.len() == 4 {
        Some(RouteView { endpoint: 10, parts: seq![s[1]] })
    } else if method == Method::Put && is_word(s[2], "lfs"@) && is_word(s[3], "upload"@) && s.len()
        == 5 && s[4].len() > 0 {
        Some(RouteView { endpoint: 11, parts: seq![s[1], s[4]] })
    } else {
        None
    }
}

impl View for Route {
    type V = RouteView;

    open spec fn view(&self) -> RouteView {
        match *self {
            Route::HealthCheck => RouteView { endpoint: 0, parts: Seq::empty() },
            Route::GetRawFile { repo, changeset, path } => RouteView {
                endpoint: 1,
                parts: seq![encode_utf8(repo@), encode_utf8(changeset@), encode_utf8(path@)],
            },
            Route::GetHgFile { repo, filenode } => RouteView {
                endpoint: 2,
                parts: seq![encode_utf8(repo@), encode_utf8(filenode@)],
            },
            Route::GetFileHistory { repo, filenode, path } => RouteView {
                endpoint: 3,
                parts: seq![encode_utf8(repo@), encode_utf8(filenode@), encode_utf8(path@)],
            },
            Route::IsAncestor { repo, ancestor, descendant } => RouteView {
                endpoint: 4,
                parts: seq![encode_utf8(repo@), encode_utf8(ancestor@), encode_utf8(descendant@)],
            },
            Route::ListDirectory { repo, changeset, path } => RouteView {
                endpoint: 5,
                parts: seq![encode_utf8(repo@), encode_utf8(changeset@), encode_utf8(path@)],
            },
            Route::GetBlobContent { repo, hash } => RouteView {
                endpoint: 6,
                parts: seq![encode_utf8(repo@), encode_utf8(hash@)],
            },
            Route::GetTree { repo, hash } => RouteView {
                endpoint: 7,
                parts: seq![encode_utf8(repo@), encode_utf8(hash@)],
            },
            Route::GetChangeset { repo, hash } => RouteView {
                endpoint: 8,
                parts: seq![encode_utf8(repo@), encode_utf8(hash@)],
            },
            Route::DownloadLargeFile { repo, oid } => RouteView {
                endpoint: 9,
                parts: seq![encode_utf8(repo@), encode_utf8(oid@)],
            },
            Route::LfsBatch { repo } => RouteView { endpoint: 10, parts: seq![encode_utf8(repo@)] },
            Route::UploadLargeFile { repo, oid } => RouteView {
                endpoint: 11,
                parts: seq![encode_utf8(repo@), encode_utf8(oid@)],
            },
        }
    }
}

fn is(segment: &Vec<u8>, word: &str) -> (r: bool)
    ensures
        r == is_word(segment@, word@),
{
    bytes_eq(segment.as_slice(), word.as_bytes())
}

fn text_of(bytes: &[u8]) -> (r: Option<String>)
    ensures
        r is Some <==> valid_utf8(bytes@),
        r matches Some(s) ==> encode_utf8(s@) == bytes@,
{
    string_from_utf8(copy_bytes(bytes))
}

fn rest(segments: &Vec<Vec<u8>>, from: usize) -> (r: Vec<u8>)
    requires
        from <= segments@.len(),
    ensures
        r@ == rest_of(views(segments@), from as int),
{
    let mut tail: Vec<Vec<u8>> = Vec::new();
    let mut i: usize = from;
    while i < segments.len()
        invariant
            from <= i <= segments.len(),
            views(tail@) == views(segments@).subrange(from as int, i as int),
        decreases segments.len() - i,
    {
        let piece = copy_bytes(segments[i].as_slice());
        proof {
            assert(views(tail@.push(piece)) =~= views(tail@).push(piece@));
            assert(views(segments@).subrange(from as int, i + 1) =~= views(segments@).subrange(
                from as int,
                i as int,
            ).push(segments@[i as int]@));
        }
        tail.push(piece);
        i += 1;
    }
    let slash: [u8; 1] = [47u8];
    proof {
        assert(slash@ =~= seq![47u8]);
        assert(views(segments@).subrange(from as int, segments@.len() as int) =~= views(
            segments@,
        ).skip(from as int));
    }
    join_bytes(&tail, slash.as_slice())
}


/// Whether every part is well-formed UTF-8.
pub open spec fn all_text(parts: Seq<Seq<u8>>) -> bool {
    forall|i: int| 0 <= i < parts.len() ==> valid_utf8(#[trigger] parts[i])
}

/// The endpoint that a method and a path name, if any, with the parts of
/// the path that it takes as text. A path whose parts are not text names
/// no endpoint.
#[verifier::rlimit(40)]
pub fn route(method: Method, path: &[u8]) -> (r: Option<Route>)
    ensures
        r is Some <==> routed(method, path@) is Some && all_text(routed(method, path@)->0.parts),
        r matches Some(found) ==> found@ == routed(method, path@)->0,
{
    let s = split_bytes(path, 47);
    let ghost v = views(s@);
    assert(forall|i: int| 0 <= i < s@.len() ==> v[i] == (#[trigger] s@[i])@);
    if s.len() < 2 || s[0].len() != 0 {
        return None;
    }
    if s.len() == 2 {
        return if is(&s[1], "health_check") && method == Method::Get {
            assert(all_text(Seq::<Seq<u8>>::empty()));
            Some(Route::HealthCheck)
        } else {
            None
        };
    }
    if s[1].len() == 0 || s.len() < 4 || s[3].len() == 0 {
        return None;
    }
    let repo = text_of(s[1].as_slice());
    let third = text_of(s[3].as_slice());
    let is_get = method == Method::Get;
    if is_get && is(&s[2], "raw") && s.len() >= 5 {
        let tail = text_of(rest(&s, 4).as_slice());
        let ghost parts = seq![v[1], v[3], rest_of(v, 4)];
        assert(all_text(parts) <==> valid_utf8(parts[0]) && valid_utf8(parts[1]) && valid_utf8(
            parts[2],
        ));
        return match (repo, third, tail) {
            (Some(repo), Some(changeset), Some(path)) => Some(
                Route::GetRawFile { repo, changeset, path },
            ),
            _ => None,
        };
    }
    if is_get && is(&s[2], "gethgfile") && s.len() == 4 {
        let ghost parts = seq![v[1], v[3]];
        assert(all_text(parts) <==> valid_utf8(parts[0]) && valid_utf8(parts[1]));
        return match (repo, third) {
            (Some(repo), Some(filenode)) => Some(Route::GetHgFile { repo, filenode }),
            _ => None,
        };
    }
    if is_get && is(&s[2], "getfilehistory") && s.len() >= 5 {
        let tail = text_of(rest(&s, 4).as_slice());
        let ghost parts = seq![v[1], v[3], rest_of(v, 4)];
        assert(all_text(parts) <==> valid_utf8(parts[0]) && valid_utf8(parts[1]) && valid_utf8(
            parts[2],
        ));
        return match (repo, third, tail) {
            (Some(repo), Some(filenode), Some(path)) => Some(
                Route::GetFileHistory { repo, filenode, path },
            ),
            _ => None,
        };
    }
    if is_get && is(&s[2], "is_ancestor") && s.len() == 5 && s[4].len() > 0 {
        let fifth = text_of(s[4].as_slice());
        let ghost parts = seq![v[1], v[3], v[4]];
        assert(all_text(parts) <==> valid_utf8(parts[0]) && valid_utf8(parts[1]) && valid_utf8(
            parts[2],
        ));
        return match (repo, third, fifth) {
            (Some(repo), Some(ancestor), Some(descendant)) => Some(
                Route::IsAncestor { repo, ancestor, descendant },
            ),
            _ => None,
        };
    }
    if is_get && is(&s[2], "list") && s.len() >= 5 {
        let tail = text_of(rest(&s, 4).as_slice());
        let ghost parts = seq![v[1], v[3], rest_of(v, 4)];
        assert(all_text(parts) <==> valid_utf8(parts[0]) && valid_utf8(parts[1]) && valid_utf8(
            parts[2],
        ));
        return match (repo, third, tail) {
            (Some(repo), Some(changeset), Some(path)) => Some(
                Route::ListDirectory { repo, changeset, path },
            ),
            _ => None,
        };
    }
    if is_get && is(&s[2], "blob") && s.len() == 4 {
        let ghost parts = seq![v[1], v[3]];
        assert(all_text(parts) <==> valid_utf8(parts[0]) && valid_utf8(parts[1]));
        return match (repo, third) {
            (Some(repo), Some(hash)) => Some(Route::GetBlobContent { repo, hash }),
            _ => None,
        };
    }
    if is_get && is(&s[2], "tree") && s.len() == 4 {
        let ghost parts = seq![v[1], v[3]];
        assert(all_text(parts) <==> valid_utf8(parts[0]) && valid_utf8(parts[1]));
        return match (repo, third) {
            (Some(repo), Some(hash)) => Some(Route::GetTree { repo, hash }),
            _ => None,
        };
    }
    if is_get && is(&s[2], "changeset") && s.len() == 4 {
        let ghost parts = seq![v[1], v[3]];
        assert(all_text(parts) <==> valid_utf8(parts[0]) && valid_utf8(parts[1]));
        return match (repo, third) {
            (Some(repo), Some(hash)) => Some(Route::GetChangeset { repo, hash }),
            _ => None,
        };
    }
    if is_get && is(&s[2], "lfs") && is(&s[3], "download") && s.len() == 5 && s[4].len() > 0 {
        let fifth = text_of(s[4].as_slice());
        let ghost parts = seq![v[1], v[4]];
        assert(all_text(parts) <==> valid_utf8(parts[0]) && valid_utf8(parts[1]));
        return match (repo, fifth) {
            (Some(repo), Some(oid)) => Some(Route::DownloadLargeFile { repo, oid }),
            _ => None,
        };
    }
    if method == Method::Post && is(&s[2], "objects") && is(&s[3], "batch") && s.len() == 4 {
        let ghost parts = seq![v[1]];
        assert(all_text(parts) <==> valid_utf8(parts[0]));
        return match repo {
            Some(repo) => Some(Route::LfsBatch { repo }),
            None => None,
        };
    }
    if method == Method::Put && is(&s[2], "lfs") && is(&s[3], "upload") && s.len() == 5 && s[4].len()
        > 0 {
        let fifth = text_of(s[4].as_slice());
        let ghost parts = seq![v[1], v[4]];
        assert(all_text(parts) <==> valid_utf8(parts[0]) && valid_utf8(parts[1]));
        return match (repo, fifth) {
            (Some(repo), Some(oid)) => Some(Route::UploadLargeFile { repo, oid }),
            _ => None,
        };
    }
    None
}

} // verus!
