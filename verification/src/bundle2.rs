//! Reading a pushed bundle: the order in which its pieces come, and what
//! to do with each part.

use vstd::prelude::*;
use vstd::utf8::encode_utf8;
use crate::text::bytes_eq;

verus! {

/// Where the reader of a bundle stands.
#[derive(Clone, Copy, Debug, PartialEq, Eq, Structural)]
pub enum ParserState {
    /// Nothing has been read.
    Idle,
    /// The header of the stream is being read.
    ReadStreamHeader,
    /// The header of the next part is being read.
    ReadPartHeader,
    /// The payload of a part is being read.
    ReadPartPayload,
    /// The bundle has been read to its end.
    End,
    /// Reading was given up.
    Aborted,
}

/// The parts that the server knows.
#[derive(Clone, Copy, Debug, PartialEq, Eq, Structural)]
pub enum PartKind {
    Changegroup,
    Treegroup2,
    Pushkey,
    Infinitepush,
    Rebase,
    Replycaps,
}

/// What the reader has just come upon.
#[derive(Debug)]
pub enum Event {
    /// The stream begins.
    Start,
    /// The header of the stream has been read.
    StreamHeader,
    /// The header of a part has been read: this is the type it names.
    PartHeader(Vec<u8>),
    /// The empty header that ends the parts has been read.
    EndMarker,
    /// The payload of the part has been read to its end.
    PayloadEnd,
}

/// What to do about what the reader came upon.
#[derive(Clone, Copy, Debug, PartialEq, Eq, Structural)]
pub enum Action {
    /// Read on.
    Continue,
    /// Take the payload that follows as a part of this kind.
    Handle(PartKind),
    /// Pass over the payload that follows.
    Skip,
    /// Give up: a part that must be understood is not.
    AbortUnknownPart,
    /// Give up: the pieces come in no order that a bundle has.
    AbortOutOfOrder,
    /// The bundle is complete.
    Finish,
}

/// An upper-case letter as the lower-case one; any other byte as it is.
pub open spec fn lower(b: u8) -> u8 {
    if 65 <= b <= 90 {
        (b + 32) as u8
    } else {
        b
    }
}

/// The type of a part in lower case: types are told apart without regard
/// to case.
pub open spec fn lowered(name: Seq<u8>) -> Seq<u8> {
    Seq::new(name.len(), |i: int| lower(name[i]))
}

/// A part must be understood when its type has an upper-case letter.
pub open spec fn mandatory(name: Seq<u8>) -> bool {
    exists|i: int| 0 <= i < name.len() && 65 <= #[trigger] name[i] <= 90
}

/// The kind of part that a type names, if the server knows it.
pub open spec fn known_part(name: Seq<u8>) -> Option<PartKind> {
    let n = lowered(name);
    if n == encode_utf8("changegroup"@) {
        Some(PartKind::Changegroup)
    } else if n == encode_utf8("b2x:treegroup2"@) {
        Some(PartKind::Treegroup2)
    } else if n == encode_utf8("pushkey"@) {
        Some(PartKind::Pushkey)
    } else if n == encode_utf8("b2x:infinitepush"@) {
        Some(PartKind::Infinitepush)
    } else if n == encode_utf8("b2x:rebase"@) {
        Some(PartKind::Rebase)
    } else if n == encode_utf8("replycaps"@) {
        Some(PartKind::Replycaps)
    } else {
        None
    }
}

/// What to do with a part of the given type: a known part is handled; an
/// unknown one is passed over, unless it must be understood.
pub open spec fn part_action(name: Seq<u8>) -> Action {
    match known_part(name) {
        Some(kind) => Action::Handle(kind),
        None => if mandatory(name) {
            Action::AbortUnknownPart
        } else {
            Action::Skip
        },
    }
}

/// Where the reader stands next, and what to do, for each state and
/// event. A bundle is a stream header, then parts, each a header and a
/// payload, then the end marker; anything else is out of order.
pub open spec fn next(state: ParserState, event: Event) -> (ParserState, Action) {
    match (state, event) {
        (ParserState::Idle, Event::Start) => (ParserState::ReadStreamHeader, Action::Continue),
        (ParserState::ReadStreamHeader, Event::StreamHeader) => (
            ParserState::ReadPartHeader,
            Action::Continue,
        ),
        (ParserState::ReadPartHeader, Event::PartHeader(name)) => if part_action(name@)
            == Action::AbortUnknownPart {
            (ParserState::Aborted, Action::AbortUnknownPart)
        } else {
            (ParserState::ReadPartPayload, part_action(name@))
        },
        (ParserState::ReadPartHeader, Event::EndMarker) => (ParserState::End, Action::Finish),
        (ParserState::ReadPartPayload, Event::PayloadEnd) => (
            ParserState::ReadPartHeader,
            Action::Continue,
        ),
        _ => (ParserState::Aborted, Action::AbortOutOfOrder),
    }
}

fn to_lower(name: &[u8]) -> (r: Vec<u8>)
    ensures
        r@ == lowered(name@),
{
    let mut out: Vec<u8> = Vec::new();
    let mut i: usize = 0;
    while i < name.len()
        invariant
            i <= name.len(),
            out@.len() == i,
            forall|j: int| 0 <= j < i ==> out@[j] == lower(name@[j]),
        decreases name.len() - i,
    {
        let b = name[i];
        if 65 <= b && b <= 90 {
            out.push(b + 32);
        } else {
            out.push(b);
        }
        i += 1;
    }
    assert(out@ =~= lowered(name@));
    out
}

/// Whether a part of this type must be understood.
pub fn is_mandatory(name: &[u8]) -> (r: bool)
    ensures
        r == mandatory(name@),
{
    let mut i: usize = 0;
    while i < name.len()
        invariant
            i <= name.len(),
            forall|j: int| 0 <= j < i ==> !(65 <= #[trigger] name@[j] <= 90),
        decreases name.len() - i,
    {
        if 65 <= name[i] && name[i] <= 90 {
            return true;
        }
        i += 1;
    }
    false
}

/// The kind of part that a type names, if the server knows it.
pub fn part_kind(name: &[u8]) -> (r: Option<PartKind>)
    ensures
        r == known_part(name@),
{
    let n = to_lower(name);
    if bytes_eq(n.as_slice(), "changegroup".as_bytes()) {
        Some(PartKind::Changegroup)
    } else if bytes_eq(n.as_slice(), "b2x:treegroup2".as_bytes()) {
        Some(PartKind::Treegroup2)
    } else if bytes_eq(n.as_slice(), "pushkey".as_bytes()) {
        Some(PartKind::Pushkey)
    } else if bytes_eq(n.as_slice(), "b2x:infinitepush".as_bytes()) {
        Some(PartKind::Infinitepush)
    } else if bytes_eq(n.as_slice(), "b2x:rebase".as_bytes()) {
        Some(PartKind::Rebase)
    } else if bytes_eq(n.as_slice(), "replycaps".as_bytes()) {
        Some(PartKind::Replycaps)
    } else {
        None
    }
}

/// Where the reader stands next, and what to do.
pub fn step(state: ParserState, event: &Event) -> (r: (ParserState, Action))
    ensures
        r == next(state, *event),
{
    match (state, event) {
        (ParserState::Idle, Event::Start) => (ParserState::ReadStreamHeader, Action::Continue),
        (ParserState::ReadStreamHeader, Event::StreamHeader) => (
            ParserState::ReadPartHeader,
            Action::Continue,
        ),
        (ParserState::ReadPartHeader, Event::PartHeader(name)) => {
            match part_kind(name.as_slice()) {
                Some(kind) => (ParserState::ReadPartPayload, Action::Handle(kind)),
                None => if is_mandatory(name.as_slice()) {
                    (ParserState::Aborted, Action::AbortUnknownPart)
                } else {
                    (ParserState::ReadPartPayload, Action::Skip)
                },
            }
        },
        (ParserState::ReadPartHeader, Event::EndMarker) => (ParserState::End, Action::Finish),
        (ParserState::ReadPartPayload, Event::PayloadEnd) => (
            ParserState::ReadPartHeader,
            Action::Continue,
        ),
        _ => (ParserState::Aborted, Action::AbortOutOfOrder),
    }
}

/// Once reading is over or given up, it stays so: whatever comes, the
/// reader gives up.
pub proof fn lemma_end_is_final(state: ParserState, event: Event)
    requires
        state == ParserState::End || state == ParserState::Aborted,
    ensures
        next(state, event).0 == ParserState::Aborted,
{
}

/// The stages of resolving a push, in order.
#[derive(Clone, Copy, Debug, PartialEq, Eq, Structural)]
pub enum Stage {
    /// The parts are read into memory.
    Drain,
    /// File content and manifests are uploaded.
    Upload,
    /// The hashes of the changesets are computed again and compared.
    VerifyHashes,
    /// The bookmarks are moved.
    UpdateBookmarks,
    /// The phases are brought up to date.
    UpdatePhases,
    /// The push is through.
    Done,
    /// The push was given up: nothing of it shows.
    Aborted,
}

/// The stage after a stage that went well; a stage that failed gives the
/// push up.
pub fn next_stage(stage: Stage, succeeded: bool) -> (r: Stage)
    ensures
        r == (if !succeeded {
            Stage::Aborted
        } else {
            match stage {
                Stage::Drain => Stage::Upload,
                Stage::Upload => Stage::VerifyHashes,
                Stage::VerifyHashes => Stage::UpdateBookmarks,
                Stage::UpdateBookmarks => Stage::UpdatePhases,
                Stage::UpdatePhases => Stage::Done,
                Stage::Done => Stage::Done,
                Stage::Aborted => Stage::Aborted,
            }
        }),
{
    if !succeeded {
        return Stage::Aborted;
    }
    match stage {
        Stage::Drain => Stage::Upload,
        Stage::Upload => Stage::VerifyHashes,
        Stage::VerifyHashes => Stage::UpdateBookmarks,
        Stage::UpdateBookmarks => Stage::UpdatePhases,
        Stage::UpdatePhases => Stage::Done,
        Stage::Done => Stage::Done,
        Stage::Aborted => Stage::Aborted,
    }
}

} // verus!
