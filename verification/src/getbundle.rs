//! `getbundle`: what goes into the bundle that answers a pull.

use vstd::prelude::*;
use vstd::utf8::encode_utf8;
use crate::caps::{parse_utf8_getbundle_caps, parsed_caps, BundleCaps};
use crate::client::RepoClient;
use crate::nodehash::{HgChangesetId, HgNodeHash};
use crate::text::bytes_eq;

verus! {

/// What a client asks of `getbundle`.
#[derive(Debug)]
pub struct GetbundleArgs {
    /// The heads that the client wants.
    pub heads: Vec<HgNodeHash>,
    /// Heads that the client has.
    pub common: Vec<HgNodeHash>,
    pub bundlecaps: Vec<Vec<u8>>,
    /// The namespaces whose keys the client wants listed.
    pub listkeys: Vec<Vec<u8>>,
    /// Whether the client wants to hear of phases.
    pub phases: bool,
}

/// What `getbundle` puts into a bundle.
#[derive(Debug)]
pub struct GetbundlePlan {
    /// The changesets to send are those that `heads` descend from and
    /// `common` do not.
    pub heads: Vec<HgChangesetId>,
    pub common: Vec<HgChangesetId>,
    /// Whether a part with the heads of the phases goes along.
    pub use_phases: bool,
    /// Whether a part that lists the bookmarks goes along.
    pub list_bookmarks: bool,
    /// The bundle is never compressed: clients hang on compressed bundles
    /// sent over the wire.
    pub compressed: bool,
}

/// The values of a capability: those of the last line that names it.
pub open spec fn cap_values_of(
    entries: Seq<(Seq<char>, Seq<Seq<char>>)>,
    name: Seq<char>,
) -> Option<Seq<Seq<char>>>
    decreases entries.len(),
{
    if entries.len() == 0 {
        None
    } else if encode_utf8(entries.last().0) == encode_utf8(name) {
        Some(entries.last().1)
    } else {
        cap_values_of(entries.drop_last(), name)
    }
}

/// Whether one of the values is the given text.
pub open spec fn has_value(values: Seq<Seq<char>>, text: Seq<char>) -> bool {
    exists|i: int| 0 <= i < values.len() && encode_utf8(#[trigger] values[i]) == encode_utf8(text)
}

impl BundleCaps {
    /// The values of a capability: those of the last line that names it.
    pub fn get(&self, name: &str) -> (r: Option<&Vec<String>>)
        ensures
            r is Some <==> cap_values_of(self@, name@) is Some,
            r matches Some(v) ==> crate::caps::strs(v@) == cap_values_of(self@, name@)->0,
    {
        let mut i: usize = self.entries.len();
        assert(self@.take(i as int) =~= self@);
        while i > 0
            invariant
                i <= self.entries.len(),
                cap_values_of(self@, name@) == cap_values_of(self@.take(i as int), name@),
            decreases i,
        {
            i -= 1;
            proof {
                let t = self@.take(i + 1);
                assert(t.last() == self@[i as int]);
                assert(t.drop_last() =~= self@.take(i as int));
            }
            if bytes_eq(self.entries[i].0.as_str().as_bytes(), name.as_bytes()) {
                return Some(&self.entries[i].1);
            }
        }
        None
    }
}

/// Whether one of the strings is the given text.
pub fn contains_value(values: &Vec<String>, text: &str) -> (r: bool)
    ensures
        r == has_value(crate::caps::strs(values@), text@),
{
    let mut i: usize = 0;
    while i < values.len()
        invariant
            i <= values.len(),
            forall|k: int|
                0 <= k < i ==> encode_utf8(#[trigger] crate::caps::strs(values@)[k]) != encode_utf8(
                    text@,
                ),
        decreases values.len() - i,
    {
        if bytes_eq(values[i].as_str().as_bytes(), text.as_bytes()) {
            assert(crate::caps::strs(values@)[i as int] == values@[i as int]@);
            return true;
        }
        assert(crate::caps::strs(values@)[i as int] == values@[i as int]@);
        i += 1;
    }
    false
}

/// What one `bundlecaps` entry says of phases: nothing unless it is the
/// `bundle2` entry and names `phases`; then whether `heads` is among the
/// values.
pub open spec fn phases_choice(cap: Seq<u8>) -> Option<bool> {
    match parsed_caps(cap) {
        Some((name, entries)) => {
            if encode_utf8(name) == encode_utf8("bundle2"@) && cap_values_of(entries, "phases"@)
                is Some {
                Some(has_value(cap_values_of(entries, "phases"@)->0, "heads"@))
            } else {
                None
            }
        },
        None => None,
    }
}

/// What the first entry that says anything of phases says.
pub open spec fn first_phases_choice(caps: Seq<Seq<u8>>) -> Option<bool>
    decreases caps.len(),
{
    if caps.len() == 0 {
        None
    } else if phases_choice(caps[0]) is Some {
        phases_choice(caps[0])
    } else {
        first_phases_choice(caps.skip(1))
    }
}

/// Whether phases go along: the client must want them, and where its
/// `bundle2` capabilities name `phases`, `heads` must be among the values.
pub open spec fn use_phases(wanted: bool, caps: Seq<Seq<u8>>) -> bool {
    wanted && (first_phases_choice(caps) matches Some(b) ==> b)
}

fn choice_of(cap: &[u8]) -> (r: Option<bool>)
    ensures
        r == phases_choice(cap@),
{
    match parse_utf8_getbundle_caps(cap) {
        Some((name, caps)) => {
            if !bytes_eq(name.as_str().as_bytes(), "bundle2".as_bytes()) {
                return None;
            }
            match caps.get("phases") {
                Some(values) => Some(contains_value(values, "heads")),
                None => None,
            }
        },
        None => None,
    }
}

/// Whether one of the byte strings is the given one.
pub open spec fn lists(keys: Seq<Vec<u8>>, key: Seq<u8>) -> bool {
    exists|i: int| 0 <= i < keys.len() && (#[trigger] keys[i])@ == key
}

impl RepoClient {
    /// What `getbundle` puts into the bundle for a request.
    pub fn create_bundle(&self, args: &GetbundleArgs) -> (plan: GetbundlePlan)
        ensures
            plan.heads@.len() == args.heads@.len(),
            forall|i: int| 0 <= i < args.heads@.len() ==> (#[trigger] plan.heads@[i]).0 == args.heads@[i],
            plan.common@.len() == args.common@.len(),
            forall|i: int|
                0 <= i < args.common@.len() ==> (#[trigger] plan.common@[i]).0 == args.common@[i],
            plan.use_phases == use_phases(
                args.phases,
                Seq::new(args.bundlecaps@.len(), |i: int| args.bundlecaps@[i]@),
            ),
            plan.list_bookmarks == lists(args.listkeys@, encode_utf8("bookmarks"@)),
            !plan.compressed,
    {
        let ghost caps = Seq::new(args.bundlecaps@.len(), |i: int| args.bundlecaps@[i]@);
        let mut phases = args.phases;
        if phases {
            let mut i: usize = 0;
            let mut decided = false;
            assert(caps.skip(0) =~= caps);
            while i < args.bundlecaps.len() && !decided
                invariant
                    i <= args.bundlecaps.len(),
                    caps == Seq::new(args.bundlecaps@.len(), |i: int| args.bundlecaps@[i]@),
                    !decided ==> phases && first_phases_choice(caps) == first_phases_choice(
                        caps.skip(i as int),
                    ),
                    decided ==> first_phases_choice(caps) == Some(phases),
                decreases args.bundlecaps.len() - i + (if decided { 0int } else { 1int }),
            {
                proof {
                    let s = caps.skip(i as int);
                    assert(s[0] == args.bundlecaps@[i as int]@);
                    assert(s.skip(1) =~= caps.skip(i + 1));
                }
                match choice_of(args.bundlecaps[i].as_slice()) {
                    Some(b) => {
                        phases = b;
                        decided = true;
                    },
                    None => {
                        i += 1;
                    },
                }
            }
        }
        let mut heads: Vec<HgChangesetId> = Vec::new();
        let mut h: usize = 0;
        while h < args.heads.len()
            invariant
                h <= args.heads.len(),
                heads@.len() == h,
                forall|k: int| 0 <= k < h ==> (#[trigger] heads@[k]).0 == args.heads@[k],
            decreases args.heads.len() - h,
        {
            heads.push(HgChangesetId::new(args.heads[h]));
            h += 1;
        }
        let mut common: Vec<HgChangesetId> = Vec::new();
        let mut c: usize = 0;
        while c < args.common.len()
            invariant
                c <= args.common.len(),
                common@.len() == c,
                forall|k: int| 0 <= k < c ==> (#[trigger] common@[k]).0 == args.common@[k],
            decreases args.common.len() - c,
        {
            common.push(HgChangesetId::new(args.common[c]));
            c += 1;
        }
        let mut list_bookmarks = false;
        let mut l: usize = 0;
        while l < args.listkeys.len() && !list_bookmarks
            invariant
                l <= args.listkeys.len(),
                list_bookmarks ==> lists(args.listkeys@, encode_utf8("bookmarks"@)),
                !list_bookmarks ==> forall|k: int|
                    0 <= k < l ==> (#[trigger] args.listkeys@[k])@ != encode_utf8("bookmarks"@),
            decreases args.listkeys.len() - l + (if list_bookmarks { 0int } else { 1int }),
        {
            if bytes_eq(args.listkeys[l].as_slice(), "bookmarks".as_bytes()) {
                list_bookmarks = true;
            } else {
                l += 1;
            }
        }
        GetbundlePlan { heads, common, use_phases: phases, list_bookmarks, compressed: false }
    }

    /// What `getbundle` puts into the bundle for a request.
    pub fn getbundle(&self, args: &GetbundleArgs) -> (plan: GetbundlePlan)
        ensures
            plan.heads@.len() == args.heads@.len(),
            forall|i: int| 0 <= i < args.heads@.len() ==> (#[trigger] plan.heads@[i]).0 == args.heads@[i],
            plan.common@.len() == args.common@.len(),
            forall|i: int|
                0 <= i < args.common@.len() ==> (#[trigger] plan.common@[i]).0 == args.common@[i],
            plan.use_phases == use_phases(
                args.phases,
                Seq::new(args.bundlecaps@.len(), |i: int| args.bundlecaps@[i]@),
            ),
            plan.list_bookmarks == lists(args.listkeys@, encode_utf8("bookmarks"@)),
            !plan.compressed,
    {
        self.create_bundle(args)
    }
}

} // verus!
