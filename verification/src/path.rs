//! Paths inside a repository: byte strings, one element per directory
//! level.

use vstd::prelude::*;
use crate::text::{copy_bytes, join, join_bytes, lemma_split_pieces, split, split_bytes, views};

verus! {

/// A byte that no path may hold: NUL, 0x01 or a line feed.
pub open spec fn forbidden_byte(b: u8) -> bool {
    b == 0 || b == 1 || b == 10
}

/// An element is not empty and holds neither a slash nor a forbidden byte.
pub open spec fn valid_element(e: Seq<u8>) -> bool {
    &&& e.len() > 0
    &&& forall|i: int| 0 <= i < e.len() ==> (#[trigger] e[i]) != 47 && !forbidden_byte(e[i])
}

/// The elements that the text of a path names: the pieces between
/// slashes, empty pieces left out.
pub open spec fn path_elements(p: Seq<u8>) -> Seq<Seq<u8>> {
    split(p, 47).filter(|e: Seq<u8>| e.len() > 0)
}

pub open spec fn has_forbidden_byte(p: Seq<u8>) -> bool {
    exists|i: int| 0 <= i < p.len() && forbidden_byte(#[trigger] p[i])
}

/// One level of a path: the name of a file or directory.
#[derive(Clone, Debug, PartialEq, Eq, Hash)]
pub struct MPathElement(pub Vec<u8>);

impl View for MPathElement {
    type V = Seq<u8>;

    open spec fn view(&self) -> Seq<u8> {
        self.0@
    }
}

/// A path with at least one element.
#[derive(Clone, Debug, PartialEq, Eq, Hash)]
pub struct MPath {
    pub elements: Vec<MPathElement>,
}

impl View for MPath {
    type V = Seq<Seq<u8>>;

    open spec fn view(&self) -> Seq<Seq<u8>> {
        self.elements@.map_values(|e: MPathElement| e@)
    }
}

/// Why a byte string is not a path.
#[derive(Clone, Copy, Debug, PartialEq, Eq, Structural)]
pub enum PathError {
    /// It holds NUL, 0x01 or a line feed.
    ForbiddenByte,
    /// It names no element.
    Empty,
}

/// A place in a repository: the root, a directory or a file.
#[derive(Clone, Debug, PartialEq, Eq, Hash)]
pub enum RepoPath {
    RootPath,
    DirectoryPath(MPath),
    FilePath(MPath),
}

impl MPathElement {
    /// The element with the given bytes, if they make a valid element.
    pub fn new(bytes: Vec<u8>) -> (r: Option<MPathElement>)
        ensures
            r is Some <==> valid_element(bytes@),
            r matches Some(e) ==> e@ == bytes@,
    {
        if bytes.len() == 0 {
            return None;
        }
        let mut i: usize = 0;
        while i < bytes.len()
            invariant
                i <= bytes.len(),
                forall|j: int| 0 <= j < i ==> (#[trigger] bytes@[j]) != 47 && !forbidden_byte(bytes@[j]),
            decreases bytes.len() - i,
        {
            let b = bytes[i];
            if b == 47 || b == 0 || b == 1 || b == 10 {
                return None;
            }
            i += 1;
        }
        Some(MPathElement(bytes))
    }

    pub fn to_bytes(&self) -> (r: Vec<u8>)
        ensures
            r@ == self@,
    {
        copy_bytes(self.0.as_slice())
    }

    pub fn duplicate(&self) -> (r: MPathElement)
        ensures
            r@ == self@,
    {
        MPathElement(copy_bytes(self.0.as_slice()))
    }
}

impl MPath {
    /// Every element is valid, and there is at least one.
    pub open spec fn wf(&self) -> bool {
        &&& self@.len() > 0
        &&& forall|i: int| 0 <= i < self@.len() ==> valid_element(#[trigger] self@[i])
    }

    /// Reads a path from its text: elements separated by slashes, where
    /// doubled, leading and trailing slashes count for nothing.
    pub fn new(p: &[u8]) -> (r: Result<MPath, PathError>)
        ensures
            r matches Ok(path) ==> path.wf() && path@ == path_elements(p@),
            r is Ok <==> !has_forbidden_byte(p@) && path_elements(p@).len() > 0,
            r == Err::<MPath, PathError>(PathError::ForbiddenByte) <==> has_forbidden_byte(p@),
    {
        let mut i: usize = 0;
        while i < p.len()
            invariant
                i <= p.len(),
                forall|j: int| 0 <= j < i ==> !forbidden_byte(#[trigger] p@[j]),
            decreases p.len() - i,
        {
            let b = p[i];
            if b == 0 || b == 1 || b == 10 {
                return Err(PathError::ForbiddenByte);
            }
            i += 1;
        }
        let pieces = split_bytes(p, 47);
        let ghost keep = |e: Seq<u8>| e.len() > 0;
        let mut elements: Vec<MPathElement> = Vec::new();
        let mut k: usize = 0;
        proof {
            lemma_split_pieces(p@, 47);
            assert(views(pieces@).take(0) =~= Seq::<Seq<u8>>::empty());
            reveal(Seq::filter);
        }
        while k < pieces.len()
            invariant
                k <= pieces.len(),
                views(pieces@) == split(p@, 47),
                keep == (|e: Seq<u8>| e.len() > 0),
                elements@.map_values(|e: MPathElement| e@) == views(pieces@).take(k as int).filter(
                    keep,
                ),
                forall|j: int| 0 <= j < elements@.len() ==> valid_element(#[trigger] elements@[j]@),
                forall|j: int| 0 <= j < p@.len() ==> !forbidden_byte(#[trigger] p@[j]),
                forall|a: int, b: int|
                    0 <= a < split(p@, 47).len() && 0 <= b < split(p@, 47)[a].len() ==> {
                        &&& (#[trigger] split(p@, 47)[a][b]) != 47
                        &&& p@.contains(split(p@, 47)[a][b])
                    },
            decreases pieces.len() - k,
        {
            let ghost piece = pieces@[k as int]@;
            proof {
                let t = views(pieces@).take(k + 1);
                assert(t =~= views(pieces@).take(k as int).push(piece));
                views(pieces@).take(k as int).lemma_filter_push(piece, keep);
                assert(piece == split(p@, 47)[k as int]);
            }
            if pieces[k].len() > 0 {
                let e = MPathElement(copy_bytes(pieces[k].as_slice()));
                proof {
                    assert forall|j: int| 0 <= j < piece.len() implies (#[trigger] piece[j]) != 47
                        && !forbidden_byte(piece[j]) by {
                        assert(piece[j] == split(p@, 47)[k as int][j]);
                        assert(p@.contains(piece[j]));
                    }
                    assert(elements@.push(e).map_values(|e: MPathElement| e@) =~= elements@.map_values(
                        |e: MPathElement| e@,
                    ).push(piece));
                }
                elements.push(e);
            }
            k += 1;
        }
        proof {
            assert(views(pieces@).take(pieces.len() as int) =~= views(pieces@));
        }
        if elements.len() == 0 {
            return Err(PathError::Empty);
        }
        Ok(MPath { elements })
    }

    /// The text of the path: its elements with a slash between each two.
    pub fn to_vec(&self) -> (r: Vec<u8>)
        ensures
            r@ == join(self@, seq![47u8]),
    {
        let mut pieces: Vec<Vec<u8>> = Vec::new();
        let mut i: usize = 0;
        while i < self.elements.len()
            invariant
                i <= self.elements.len(),
                views(pieces@) == self@.take(i as int),
            decreases self.elements.len() - i,
        {
            let b = copy_bytes(self.elements[i].0.as_slice());
            proof {
                assert(self@[i as int] == self.elements@[i as int]@);
                assert(self@.take(i + 1) =~= self@.take(i as int).push(b@));
                assert(views(pieces@.push(b)) =~= views(pieces@).push(b@));
            }
            pieces.push(b);
            i += 1;
        }
        proof {
            assert(self@.take(self.elements.len() as int) =~= self@);
        }
        let sep: [u8; 1] = [47u8];
        assert(sep@ =~= seq![47u8]);
        join_bytes(&pieces, sep.as_slice())
    }

    pub fn duplicate(&self) -> (r: MPath)
        ensures
            r@ == self@,
    {
        let mut elements: Vec<MPathElement> = Vec::new();
        let mut i: usize = 0;
        while i < self.elements.len()
            invariant
                i <= self.elements.len(),
                elements@.map_values(|e: MPathElement| e@) == self@.take(i as int),
            decreases self.elements.len() - i,
        {
            let e = self.elements[i].duplicate();
            proof {
                assert(self@[i as int] == self.elements@[i as int]@);
                assert(self@.take(i + 1) =~= self@.take(i as int).push(e@));
                assert(elements@.push(e).map_values(|e: MPathElement| e@) =~= elements@.map_values(
                    |e: MPathElement| e@,
                ).push(e@));
            }
            elements.push(e);
            i += 1;
        }
        proof {
            assert(self@.take(self.elements.len() as int) =~= self@);
        }
        MPath { elements }
    }

    /// The path one level below `base` (or at the top, without a base)
    /// that `element` names; without an element, the base itself.
    pub fn join_element_opt(base: Option<&MPath>, element: Option<&MPathElement>) -> (r: Option<
        MPath,
    >)
        ensures
            r is None <==> base is None && element is None,
            r matches Some(p) ==> p@ == joined_elements(option_path_view(base), element),
    {
        match element {
            Some(e) => {
                let mut p = match base {
                    Some(b) => b.duplicate(),
                    None => MPath { elements: Vec::new() },
                };
                let d = e.duplicate();
                proof {
                    assert(p.elements@.push(d).map_values(|e: MPathElement| e@) =~= p@.push(e@));
                    assert(base is None ==> p@ =~= Seq::<Seq<u8>>::empty());
                }
                p.elements.push(d);
                Some(p)
            },
            None => match base {
                Some(b) => Some(b.duplicate()),
                None => None,
            },
        }
    }
}

/// The elements of an optional path: none for no path.
pub open spec fn option_path_view(p: Option<&MPath>) -> Seq<Seq<u8>> {
    match p {
        Some(path) => path@,
        None => Seq::empty(),
    }
}

pub open spec fn joined_elements(base: Seq<Seq<u8>>, element: Option<&MPathElement>) -> Seq<
    Seq<u8>,
> {
    match element {
        Some(e) => base.push(e@),
        None => base,
    }
}

impl RepoPath {
    pub fn is_root(&self) -> (r: bool)
        ensures
            r == (self is RootPath),
    {
        match self {
            RepoPath::RootPath => true,
            _ => false,
        }
    }

    pub fn duplicate(&self) -> (r: RepoPath)
        ensures
            repo_path_view(r) == repo_path_view(*self),
    {
        match self {
            RepoPath::RootPath => RepoPath::RootPath,
            RepoPath::DirectoryPath(p) => RepoPath::DirectoryPath(p.duplicate()),
            RepoPath::FilePath(p) => RepoPath::FilePath(p.duplicate()),
        }
    }
}

/// What a place in a repository is, as plain values: whether it is a
/// directory, and its elements (none for the root).
pub open spec fn repo_path_view(p: RepoPath) -> (bool, Seq<Seq<u8>>) {
    match p {
        RepoPath::RootPath => (true, Seq::empty()),
        RepoPath::DirectoryPath(m) => (true, m@),
        RepoPath::FilePath(m) => (false, m@),
    }
}

} // verus!
