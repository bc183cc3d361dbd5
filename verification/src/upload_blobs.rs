//! Uploading the blobs of a push: each blob once.

use vstd::prelude::*;
use crate::nodehash::{lemma_hash_view_injective, HgNodeHash};

verus! {

/// A blob that can be uploaded to a repository. Uploading names the blob
/// by its hash and hands back what the upload stands for.
pub trait UploadableBlob: Sized {
    type Repo;

    type Value;

    type Error;

    fn upload(self, repo: &Self::Repo) -> Result<(HgNodeHash, Self::Value), Self::Error>;
}

/// Why the blobs of a push could not all be uploaded.
#[derive(Debug)]
pub enum UploadError<E> {
    /// Two blobs have the same hash.
    BlobAlreadyProvided(HgNodeHash),
    /// An upload failed.
    Upload(E),
}

/// What a push is told when a blob comes twice.
pub const BLOB_ALREADY_PROVIDED: &'static str = "Blob already provided before";

/// What has been uploaded, by hash. No hash occurs twice.
#[derive(Debug)]
pub struct UploadedBlobs<V> {
    entries: Vec<(HgNodeHash, V)>,
}

impl<V> UploadedBlobs<V> {
    /// The uploads in order.
    pub closed spec fn entries(&self) -> Seq<(HgNodeHash, V)> {
        self.entries@
    }

    /// Whether something was uploaded under the hash.
    pub open spec fn has(&self, key: HgNodeHash) -> bool {
        exists|i: int| 0 <= i < self.entries().len() && (#[trigger] self.entries()[i]).0 == key
    }

    /// No hash occurs twice.
    pub open spec fn wf(&self) -> bool {
        forall|i: int, j: int|
            0 <= i < j < self.entries().len() ==> (#[trigger] self.entries()[i]).0 != (
            #[trigger] self.entries()[j]).0
    }

    pub fn new() -> (m: UploadedBlobs<V>)
        ensures
            m.wf(),
            m.entries() == Seq::<(HgNodeHash, V)>::empty(),
    {
        UploadedBlobs { entries: Vec::new() }
    }

    pub fn len(&self) -> (n: usize)
        ensures
            n == self.entries().len(),
    {
        self.entries.len()
    }

    /// What was uploaded under the hash, if anything.
    pub fn get(&self, key: &HgNodeHash) -> (r: Option<&V>)
        ensures
            r is Some <==> self.has(*key),
            r matches Some(v) ==> exists|i: int|
                0 <= i < self.entries().len() && (#[trigger] self.entries()[i]).0 == *key
                    && self.entries()[i].1 == *v,
    {
        let mut i: usize = 0;
        while i < self.entries.len()
            invariant
                i <= self.entries.len(),
                forall|j: int| 0 <= j < i ==> (#[trigger] self.entries@[j]).0 != *key,
            decreases self.entries.len() - i,
        {
            proof {
                lemma_hash_view_injective(self.entries@[i as int].0, *key);
            }
            if self.entries[i].0 == *key {
                assert(self.entries()[i as int].0 == *key);
                return Some(&self.entries[i].1);
            }
            i += 1;
        }
        None
    }

    /// Records an upload. A hash that is there already is refused, and
    /// what has been uploaded stays as it is.
    pub fn insert(&mut self, key: HgNodeHash, value: V) -> (r: Result<(), HgNodeHash>)
        requires
            old(self).wf(),
        ensures
            final(self).wf(),
            r is Err <==> old(self).has(key),
            r matches Err(k) ==> k == key && final(self).entries() == old(self).entries(),
            r is Ok ==> final(self).entries() == old(self).entries().push((key, value)),
    {
        if self.get(&key).is_some() {
            return Err(key);
        }
        let ghost before = self.entries@;
        self.entries.push((key, value));
        proof {
            assert(before == old(self).entries());
            assert(!old(self).has(key));
            assert forall|i: int, j: int| 0 <= i < j < self.entries@.len() implies (
            #[trigger] self.entries@[i]).0 != (#[trigger] self.entries@[j]).0 by {
                if j < before.len() {
                    assert(old(self).entries()[i].0 != old(self).entries()[j].0);
                } else {
                    assert(old(self).entries()[i].0 != key);
                }
            }
        }
        Ok(())
    }

    /// The uploads in order.
    pub fn into_vec(self) -> (v: Vec<(HgNodeHash, V)>)
        ensures
            v@ == self.entries(),
    {
        self.entries
    }
}

/// Whether two of the hashes are the same.
pub open spec fn has_duplicate<V>(uploads: Seq<(HgNodeHash, V)>) -> bool {
    exists|i: int, j: int|
        0 <= i < j < uploads.len() && (#[trigger] uploads[i]).0 == (#[trigger] uploads[j]).0
}

/// Gathers what a push has uploaded. If a hash comes twice, the push
/// fails with the first hash that came again; otherwise all uploads are
/// handed back in order.
pub fn collect_uploaded<V, E>(uploads: Vec<(HgNodeHash, V)>) -> (r: Result<
    UploadedBlobs<V>,
    UploadError<E>,
>)
    ensures
        r is Err <==> has_duplicate(uploads@),
        r matches Ok(m) ==> m.wf() && m.entries() == uploads@,
        r matches Err(e) ==> (e matches UploadError::BlobAlreadyProvided(k) && exists|
            i: int,
            j: int,
        |
            0 <= i < j < uploads@.len() && (#[trigger] uploads@[i]).0 == k && (
            #[trigger] uploads@[j]).0 == k),
{
    let mut map: UploadedBlobs<V> = UploadedBlobs::new();
    let mut rest = uploads;
    let ghost all = rest@;
    // Take the uploads from the end of a reversed list, so that they are
    // recorded in the order in which they came.
    let mut stack: Vec<(HgNodeHash, V)> = Vec::new();
    while rest.len() > 0
        invariant
            stack@.len() + rest@.len() == all.len(),
            forall|i: int| 0 <= i < rest@.len() ==> rest@[i] == all[i],
            forall|i: int|
                0 <= i < stack@.len() ==> stack@[i] == all[all.len() - 1 - i],
        decreases rest@.len(),
    {
        let item = rest.pop().unwrap();
        stack.push(item);
    }
    while stack.len() > 0
        invariant
            map.wf(),
            map.entries().len() + stack@.len() == all.len(),
            forall|i: int| 0 <= i < map.entries().len() ==> map.entries()[i] == all[i],
            forall|i: int|
                0 <= i < stack@.len() ==> stack@[i] == all[all.len() - 1 - i],
            all == uploads@,
        decreases stack@.len(),
    {
        let ghost done = map.entries().len() as int;
        let (key, value) = stack.pop().unwrap();
        assert(key == all[done].0);
        match map.insert(key, value) {
            Ok(()) => {},
            Err(k) => {
                proof {
                    let i = choose|i: int|
                        0 <= i < map.entries().len() && (#[trigger] map.entries()[i]).0 == key;
                    assert(all[i].0 == k && all[done].0 == k);
                }
                return Err(UploadError::BlobAlreadyProvided(k));
            },
        }
    }
    proof {
        assert(map.entries() =~= uploads@);
        if has_duplicate(uploads@) {
            let (i, j) = choose|i: int, j: int|
                0 <= i < j < uploads@.len() && (#[trigger] uploads@[i]).0 == (
                #[trigger] uploads@[j]).0;
            assert(map.entries()[i].0 != map.entries()[j].0);
        }
    }
    Ok(map)
}

/// Uploads the blobs of a push in order and gathers what the uploads
/// hand back. The push fails with the first upload that fails, and with
/// the first blob whose hash has come before.
pub fn upload_blobs<B: UploadableBlob>(repo: &B::Repo, blobs: Vec<B>) -> (r: Result<
    UploadedBlobs<B::Value>,
    UploadError<B::Error>,
>)
    ensures
        blobs@.len() == 0 ==> r is Ok,
        r matches Ok(m) ==> m.wf() && m.entries().len() == blobs@.len(),
        r matches Err(UploadError::BlobAlreadyProvided(k)) ==> blobs@.len() >= 2,
{
    let ghost total = blobs@.len();
    let mut stack: Vec<B> = Vec::new();
    let mut rest = blobs;
    while rest.len() > 0
        invariant
            stack@.len() + rest@.len() == total,
        decreases rest@.len(),
    {
        let item = rest.pop().unwrap();
        stack.push(item);
    }
    let mut map: UploadedBlobs<B::Value> = UploadedBlobs::new();
    while stack.len() > 0
        invariant
            total == blobs@.len(),
            map.wf(),
            map.entries().len() + stack@.len() == total,
        decreases stack@.len(),
    {
        let blob = stack.pop().unwrap();
        match blob.upload(repo) {
            Ok((key, value)) => match map.insert(key, value) {
                Ok(()) => {},
                Err(k) => {
                    // A hash that has come before was uploaded by an
                    // earlier blob of the same push.
                    assert(map.entries().len() >= 1);
                    return Err(UploadError::BlobAlreadyProvided(k));
                },
            },
            Err(e) => {
                return Err(UploadError::Upload(e));
            },
        }
    }
    Ok(map)
}

} // verus!
