//! An in-memory model of the content store: a keyed collection of files,
//! each holding its byte contents and, once an upload has finished, the
//! recorded digest of those contents.
//!
//! The durable store behind the server is an external collaborator; this
//! model implements the same contract — list, create, delete, append,
//! truncate, metadata — so the chunk-write, diffing, and serving logic can
//! be verified against it, and so tests can drive whole sync runs.

use vstd::prelude::*;
use vstd::slice::slice_to_vec;
use vstd::std_specs::vec::vec_index_mut;

use crate::api::ApiError;
use crate::digest::blake3_of;
use crate::digest::hash_bytes;
use crate::paths::check_file_path;
use crate::paths::valid_file_path;
use crate::schema::Metadata;
use crate::text::str_eq;
use crate::text::str_starts_with;

verus! {

/// One stored file: its absolute path, its bytes, and the digest recorded
/// when its upload finished (`None` while a transfer is still in flight or
/// was never finalized).
pub struct StoredFile {
    pub path: String,
    pub contents: Vec<u8>,
    pub digest: Option<[u8; 32]>,
}

/// The keyed collection of stored files.  Paths are unique and well-formed.
pub struct ContentStore {
    files: Vec<StoredFile>,
}

impl ContentStore {
    /// Well-formedness: no two files share a path, and every path is a
    /// valid absolute file path.
    pub closed spec fn wf(self) -> bool {
        &&& forall|i: int, j: int|
            0 <= i < self.files@.len() && 0 <= j < self.files@.len() && i != j
                ==> #[trigger] self.files@[i].path@ != #[trigger] self.files@[j].path@
        &&& forall|i: int|
            0 <= i < self.files@.len() ==> valid_file_path(#[trigger] self.files@[i].path@)
    }

    /// Whether a file is stored at `path`.
    pub closed spec fn spec_contains(self, path: Seq<char>) -> bool {
        exists|i: int| 0 <= i < self.files@.len() && self.files@[i].path@ == path
    }

    /// The file stored at `path`; meaningful when `spec_contains(path)`.
    pub closed spec fn spec_at(self, path: Seq<char>) -> StoredFile {
        self.files@[choose|i: int|
            0 <= i < self.files@.len() && self.files@[i].path@ == path]
    }

    /// The bytes stored at `path`.
    pub open spec fn spec_contents(self, path: Seq<char>) -> Seq<u8> {
        self.spec_at(path).contents@
    }

    /// The recorded digest at `path`, if an upload there has finished.
    pub open spec fn spec_digest(self, path: Seq<char>) -> Option<Seq<u8>> {
        match self.spec_at(path).digest {
            Some(d) => Some(d@),
            None => None,
        }
    }

    proof fn lemma_at(self, i: int)
        requires
            self.wf(),
            0 <= i < self.files@.len(),
        ensures
            self.spec_contains(self.files@[i].path@),
            self.spec_at(self.files@[i].path@) == self.files@[i],
    {
        let p = self.files@[i].path@;
        assert(self.spec_contains(p));
        let j = choose|j: int| 0 <= j < self.files@.len() && self.files@[j].path@ == p;
        assert(j == i);
    }

    /// Every stored path is a well-formed absolute file path.
    pub proof fn lemma_contains_valid(self, p: Seq<char>)
        requires
            self.wf(),
            self.spec_contains(p),
        ensures
            valid_file_path(p),
    {
        let i = choose|i: int| 0 <= i < self.files@.len() && self.files@[i].path@ == p;
        assert(valid_file_path(self.files@[i].path@));
    }

    /// Frame lemma: replacing the file at index `i` by one with the same
    /// path leaves every other path untouched.
    proof fn lemma_update_frame(pre: Self, post: Self, i: int)
        requires
            pre.wf(),
            0 <= i < pre.files@.len(),
            post.files@ == pre.files@.update(i, post.files@[i]),
            post.files@[i].path@ == pre.files@[i].path@,
        ensures
            post.wf(),
            post.spec_contains(pre.files@[i].path@),
            post.spec_at(pre.files@[i].path@) == post.files@[i],
            forall|q: Seq<char>|
                q != pre.files@[i].path@ ==> #[trigger] post.spec_contains(q)
                    == pre.spec_contains(q),
            forall|q: Seq<char>|
                q != pre.files@[i].path@ && pre.spec_contains(q) ==> #[trigger] post.spec_at(q)
                    == pre.spec_at(q),
    {
        let p = pre.files@[i].path@;
        assert forall|k: int| 0 <= k < post.files@.len() implies valid_file_path(
            #[trigger] post.files@[k].path@,
        ) by {
            if k != i {
                assert(post.files@[k] == pre.files@[k]);
            }
        }
        post.lemma_at(i);
        assert forall|q: Seq<char>| q != p implies #[trigger] post.spec_contains(q)
            == pre.spec_contains(q) by {
            if pre.spec_contains(q) {
                let k = choose|k: int|
                    0 <= k < pre.files@.len() && pre.files@[k].path@ == q;
                assert(post.files@[k].path@ == q);
            }
            if post.spec_contains(q) {
                let k = choose|k: int|
                    0 <= k < post.files@.len() && post.files@[k].path@ == q;
                assert(pre.files@[k].path@ == q);
            }
        }
        assert forall|q: Seq<char>| q != p && pre.spec_contains(q) implies #[trigger] post.spec_at(
            q,
        ) == pre.spec_at(q) by {
            let k = choose|k: int| 0 <= k < pre.files@.len() && pre.files@[k].path@ == q;
            pre.lemma_at(k);
            assert(post.files@[k].path@ == q);
            post.lemma_at(k);
        }
    }

    /// An empty store.
    pub fn new() -> (r: Self)
        ensures
            r.wf(),
            forall|q: Seq<char>| !r.spec_contains(q),
    {
        ContentStore { files: Vec::new() }
    }

    /// Whether a file is stored at `path`.
    pub fn contains(&self, path: &str) -> (r: bool)
        requires
            self.wf(),
        ensures
            r == self.spec_contains(path@),
    {
        self.find(path).is_some()
    }

    /// The index of the file at `path`, if any.
    fn find(&self, path: &str) -> (r: Option<usize>)
        requires
            self.wf(),
        ensures
            r matches Some(i) ==> i < self.files@.len() && self.files@[i as int].path@ == path@
                && self.spec_contains(path@) && self.spec_at(path@) == self.files@[i as int],
            r is None ==> !self.spec_contains(path@),
    {
        let mut i: usize = 0;
        while i < self.files.len()
            invariant
                self.wf(),
                i <= self.files@.len(),
                forall|j: int| 0 <= j < i ==> self.files@[j].path@ != path@,
            decreases self.files@.len() - i,
        {
            if str_eq(self.files[i].path.as_str(), path) {
                proof {
                    self.lemma_at(i as int);
                }
                return Some(i);
            }
            i += 1;
        }
        None
    }

    /// Creates an empty, unfinalized file at `path`.  The path must be a
    /// well-formed absolute file path and must not already be occupied.
    pub fn create(&mut self, path: &str) -> (r: Result<(), ApiError>)
        requires
            old(self).wf(),
        ensures
            final(self).wf(),
            r is Ok <==> (valid_file_path(path@) && !old(self).spec_contains(path@)),
            r == Err::<(), ApiError>(ApiError::AlreadyExists) <==> (valid_file_path(path@)
                && old(self).spec_contains(path@)),
            !valid_file_path(path@) ==> r == Err::<(), ApiError>(
                check_path_error(path@),
            ),
            r is Ok ==> {
                &&& final(self).spec_contains(path@)
                &&& final(self).spec_contents(path@) == Seq::<u8>::empty()
                &&& final(self).spec_digest(path@) is None
            },
            r is Err ==> *final(self) == *old(self),
            forall|q: Seq<char>|
                q != path@ ==> #[trigger] final(self).spec_contains(q) == old(
                    self,
                ).spec_contains(q),
            forall|q: Seq<char>|
                q != path@ && old(self).spec_contains(q) ==> #[trigger] final(self).spec_at(q)
                    == old(self).spec_at(q),
    {
        if let Err(e) = check_file_path(path) {
            return Err(e);
        }
        if self.find(path).is_some() {
            return Err(ApiError::AlreadyExists);
        }
        let file = StoredFile { path: path.to_owned(), contents: Vec::new(), digest: None };
        let ghost pre = *self;
        self.files.push(file);
        proof {
            let n = pre.files@.len() as int;
            assert(self.files@[n].path@ == path@);
            assert forall|k: int| 0 <= k < self.files@.len() implies valid_file_path(
                #[trigger] self.files@[k].path@,
            ) by {
                if k < n {
                    assert(self.files@[k] == pre.files@[k]);
                }
            }
            assert forall|i: int, j: int|
                0 <= i < self.files@.len() && 0 <= j < self.files@.len() && i != j implies
                #[trigger] self.files@[i].path@ != #[trigger] self.files@[j].path@ by {
                if i < n && j < n {
                    assert(pre.files@[i].path@ != pre.files@[j].path@);
                } else if i == n && j < n {
                    assert(pre.spec_contains(pre.files@[j].path@)) by {
                        pre.lemma_at(j);
                    }
                } else if j == n && i < n {
                    assert(pre.spec_contains(pre.files@[i].path@)) by {
                        pre.lemma_at(i);
                    }
                }
            }
            self.lemma_at(n);
            assert forall|q: Seq<char>| q != path@ implies #[trigger] self.spec_contains(q)
                == pre.spec_contains(q) by {
                if pre.spec_contains(q) {
                    let k = choose|k: int|
                        0 <= k < pre.files@.len() && pre.files@[k].path@ == q;
                    assert(self.files@[k].path@ == q);
                }
                if self.spec_contains(q) {
                    let k = choose|k: int|
                        0 <= k < self.files@.len() && self.files@[k].path@ == q;
                    assert(k < n);
                    assert(pre.files@[k].path@ == q);
                }
            }
            assert forall|q: Seq<char>| q != path@ && pre.spec_contains(q) implies
                #[trigger] self.spec_at(q) == pre.spec_at(q) by {
                let k = choose|k: int| 0 <= k < pre.files@.len() && pre.files@[k].path@ == q;
                pre.lemma_at(k);
                assert(self.files@[k].path@ == q);
                self.lemma_at(k);
            }
        }
        Ok(())
    }

    /// Deletes the file at `path`; reports whether one was there.
    pub fn delete(&mut self, path: &str) -> (r: bool)
        requires
            old(self).wf(),
        ensures
            final(self).wf(),
            r == old(self).spec_contains(path@),
            !final(self).spec_contains(path@),
            forall|q: Seq<char>|
                q != path@ ==> #[trigger] final(self).spec_contains(q) == old(
                    self,
                ).spec_contains(q),
            forall|q: Seq<char>|
                q != path@ && old(self).spec_contains(q) ==> #[trigger] final(self).spec_at(q)
                    == old(self).spec_at(q),
    {
        let idx = match self.find(path) {
            Some(i) => i,
            None => {
                return false;
            },
        };
        let ghost pre = *self;
        self.files.remove(idx);
        proof {
            let n = pre.files@.len() as int;
            let i = idx as int;
            assert forall|k: int| 0 <= k < self.files@.len() implies (#[trigger] self.files@[k]
                == if k < i {
                pre.files@[k]
            } else {
                pre.files@[k + 1]
            }) by {}
            assert forall|k: int, l: int|
                0 <= k < self.files@.len() && 0 <= l < self.files@.len() && k != l implies
                #[trigger] self.files@[k].path@ != #[trigger] self.files@[l].path@ by {}
            assert forall|k: int| 0 <= k < self.files@.len() implies valid_file_path(
                #[trigger] self.files@[k].path@,
            ) by {}
            if self.spec_contains(path@) {
                let k = choose|k: int|
                    0 <= k < self.files@.len() && self.files@[k].path@ == path@;
                if k < i {
                    assert(pre.files@[k].path@ == path@);
                    assert(pre.files@[i].path@ == path@);
                } else {
                    assert(pre.files@[k + 1].path@ == path@);
                    assert(pre.files@[i].path@ == path@);
                }
            }
            assert forall|q: Seq<char>| q != path@ implies #[trigger] self.spec_contains(q)
                == pre.spec_contains(q) by {
                if pre.spec_contains(q) {
                    let k = choose|k: int|
                        0 <= k < pre.files@.len() && pre.files@[k].path@ == q;
                    if k < i {
                        assert(self.files@[k].path@ == q);
                    } else {
                        assert(k > i);
                        assert(self.files@[k - 1].path@ == q);
                    }
                }
                if self.spec_contains(q) {
                    let k = choose|k: int|
                        0 <= k < self.files@.len() && self.files@[k].path@ == q;
                    if k < i {
                        assert(pre.files@[k].path@ == q);
                    } else {
                        assert(pre.files@[k + 1].path@ == q);
                    }
                }
            }
            assert forall|q: Seq<char>| q != path@ && pre.spec_contains(q) implies
                #[trigger] self.spec_at(q) == pre.spec_at(q) by {
                let k = choose|k: int| 0 <= k < pre.files@.len() && pre.files@[k].path@ == q;
                pre.lemma_at(k);
                if k < i {
                    assert(self.files@[k].path@ == q);
                    self.lemma_at(k);
                } else {
                    assert(k > i);
                    assert(self.files@[k - 1].path@ == q);
                    self.lemma_at(k - 1);
                }
            }
        }
        true
    }

    /// Appends bytes to the file at `path`.
    pub fn append(&mut self, path: &str, data: &[u8]) -> (r: Result<(), ApiError>)
        requires
            old(self).wf(),
        ensures
            final(self).wf(),
            r is Ok <==> old(self).spec_contains(path@),
            r is Err ==> r == Err::<(), ApiError>(ApiError::Deleted) && *final(self) == *old(
                self,
            ),
            r is Ok ==> {
                &&& final(self).spec_contains(path@)
                &&& final(self).spec_contents(path@) == old(self).spec_contents(path@) + data@
                &&& final(self).spec_digest(path@) == old(self).spec_digest(path@)
            },
            forall|q: Seq<char>|
                q != path@ ==> #[trigger] final(self).spec_contains(q) == old(
                    self,
                ).spec_contains(q),
            forall|q: Seq<char>|
                q != path@ && old(self).spec_contains(q) ==> #[trigger] final(self).spec_at(q)
                    == old(self).spec_at(q),
    {
        let idx = match self.find(path) {
            Some(i) => i,
            None => {
                return Err(ApiError::Deleted);
            },
        };
        let ghost pre = *self;
        let file = vec_index_mut(&mut self.files, idx);
        let ghost oldcontents = file.contents@;
        file.contents.extend_from_slice(data);
        proof {
            assert(file.contents@ =~= oldcontents + data@);
        }
        proof {
            Self::lemma_update_frame(pre, *self, idx as int);
        }
        Ok(())
    }

    /// Discards the contents of the file at `path`, leaving it empty.
    pub fn truncate(&mut self, path: &str) -> (r: Result<(), ApiError>)
        requires
            old(self).wf(),
        ensures
            final(self).wf(),
            r is Ok <==> old(self).spec_contains(path@),
            r is Err ==> r == Err::<(), ApiError>(ApiError::Deleted) && *final(self) == *old(
                self,
            ),
            r is Ok ==> {
                &&& final(self).spec_contains(path@)
                &&& final(self).spec_contents(path@) == Seq::<u8>::empty()
                &&& final(self).spec_digest(path@) == old(self).spec_digest(path@)
            },
            forall|q: Seq<char>|
                q != path@ ==> #[trigger] final(self).spec_contains(q) == old(
                    self,
                ).spec_contains(q),
            forall|q: Seq<char>|
                q != path@ && old(self).spec_contains(q) ==> #[trigger] final(self).spec_at(q)
                    == old(self).spec_at(q),
    {
        let idx = match self.find(path) {
            Some(i) => i,
            None => {
                return Err(ApiError::Deleted);
            },
        };
        let ghost pre = *self;
        let file = vec_index_mut(&mut self.files, idx);
        file.contents.clear();
        proof {
            Self::lemma_update_frame(pre, *self, idx as int);
        }
        Ok(())
    }

    /// Records `metadata` against the file at `path`.
    pub fn update_metadata(&mut self, path: &str, metadata: Metadata) -> (r: Result<
        (),
        ApiError,
    >)
        requires
            old(self).wf(),
        ensures
            final(self).wf(),
            r is Ok <==> old(self).spec_contains(path@),
            r is Err ==> r == Err::<(), ApiError>(ApiError::Deleted) && *final(self) == *old(
                self,
            ),
            r is Ok ==> {
                &&& final(self).spec_contains(path@)
                &&& final(self).spec_contents(path@) == old(self).spec_contents(path@)
                &&& final(self).spec_digest(path@) == Some(metadata.blake3@)
            },
            forall|q: Seq<char>|
                q != path@ ==> #[trigger] final(self).spec_contains(q) == old(
                    self,
                ).spec_contains(q),
            forall|q: Seq<char>|
                q != path@ && old(self).spec_contains(q) ==> #[trigger] final(self).spec_at(q)
                    == old(self).spec_at(q),
    {
        let idx = match self.find(path) {
            Some(i) => i,
            None => {
                return Err(ApiError::Deleted);
            },
        };
        let ghost pre = *self;
        let file = vec_index_mut(&mut self.files, idx);
        file.digest = Some(metadata.blake3);
        proof {
            Self::lemma_update_frame(pre, *self, idx as int);
        }
        Ok(())
    }

    /// The bytes of the file at `path`, if one is stored there.
    pub fn load_contents(&self, path: &str) -> (r: Option<Vec<u8>>)
        requires
            self.wf(),
        ensures
            r is Some <==> self.spec_contains(path@),
            r matches Some(v) ==> v@ == self.spec_contents(path@),
    {
        match self.find(path) {
            Some(i) => Some(slice_to_vec(self.files[i].contents.as_slice())),
            None => None,
        }
    }

    /// The recorded metadata of the file at `path`: `Some` only when the
    /// file exists and an upload of it has been finalized.
    pub fn metadata(&self, path: &str) -> (r: Option<Metadata>)
        requires
            self.wf(),
        ensures
            r is Some <==> (self.spec_contains(path@) && self.spec_digest(path@) is Some),
            r matches Some(m) ==> Some(m.blake3@) == self.spec_digest(path@),
    {
        match self.find(path) {
            Some(i) => {
                match &self.files[i].digest {
                    Some(d) => Some(Metadata { blake3: *d }),
                    None => None,
                }
            },
            None => None,
        }
    }
}

/// The error `check_file_path` assigns to an ill-formed path.
pub open spec fn check_path_error(p: Seq<char>) -> ApiError {
    if p.len() == 0 || p[0] != '/' {
        ApiError::InvalidPath
    } else {
        ApiError::InvalidName
    }
}

/// Whether `prefix` is a prefix of `s`.
pub open spec fn is_prefix_of(prefix: Seq<char>, s: Seq<char>) -> bool {
    prefix.len() <= s.len() && s.subrange(0, prefix.len() as int) == prefix
}

/// Whether the listing of `prefix` in `store` reports the path `p`: a file
/// is stored there, its upload has been finalized, and it lies under the
/// prefix.
pub open spec fn listed_under(store: ContentStore, prefix: Seq<char>, p: Seq<char>) -> bool {
    store.spec_contains(p) && store.spec_digest(p) is Some && is_prefix_of(prefix, p)
}

/// Lists every finalized file under `base_path`, with its recorded digest:
/// the remote baseline a sync run reconciles against.  Files whose upload
/// never finished carry no digest and are not reported.
#[verifier::rlimit(60)]
pub fn list_files(base_path: &str, store: &ContentStore) -> (r: Vec<(String, [u8; 32])>)
    requires
        store.wf(),
    ensures
        forall|k: int|
            0 <= k < r@.len() ==> listed_under(*store, base_path@, #[trigger] r@[k].0@) && Some(
                r@[k].1@,
            ) == store.spec_digest(r@[k].0@),
        forall|p: Seq<char>|
            listed_under(*store, base_path@, p) ==> exists|k: int|
                0 <= k < r@.len() && #[trigger] r@[k].0@ == p,
        forall|k1: int, k2: int|
            0 <= k1 < r@.len() && 0 <= k2 < r@.len() && k1 != k2 ==> #[trigger] r@[k1].0@
                != #[trigger] r@[k2].0@,
{
    let mut out: Vec<(String, [u8; 32])> = Vec::new();
    let mut i: usize = 0;
    while i < store.files.len()
        invariant
            store.wf(),
            i <= store.files@.len(),
            forall|k: int|
                0 <= k < out@.len() ==> listed_under(*store, base_path@, #[trigger] out@[k].0@)
                    && Some(out@[k].1@) == store.spec_digest(out@[k].0@),
            forall|k: int|
                0 <= k < out@.len() ==> exists|j: int|
                    0 <= j < i && store.files@[j].path@ == #[trigger] out@[k].0@,
            forall|j: int|
                0 <= j < i && listed_under(*store, base_path@, #[trigger] store.files@[j].path@)
                    ==> exists|k: int|
                    0 <= k < out@.len() && #[trigger] out@[k].0@ == store.files@[j].path@,
            forall|k1: int, k2: int|
                0 <= k1 < out@.len() && 0 <= k2 < out@.len() && k1 != k2 ==> #[trigger] out@[k1].0@
                    != #[trigger] out@[k2].0@,
        decreases store.files@.len() - i,
    {
        proof {
            store.lemma_at(i as int);
        }
        let ghost p_i = store.files@[i as int].path@;
        let matches_prefix = str_starts_with(store.files[i].path.as_str(), base_path);
        if matches_prefix {
            match &store.files[i].digest {
                Some(d) => {
                    let ghost pre_out = out@;
                    out.push((store.files[i].path.clone(), *d));
                    proof {
                        let n = pre_out.len() as int;
                        assert(out@[n].0@ == p_i);
                        assert forall|k: int|
                            0 <= k < out@.len() implies listed_under(
                            *store,
                            base_path@,
                            #[trigger] out@[k].0@,
                        ) && Some(out@[k].1@) == store.spec_digest(out@[k].0@) by {
                            if k < n {
                                assert(out@[k] == pre_out[k]);
                            }
                        }
                        assert forall|k1: int, k2: int|
                            0 <= k1 < out@.len() && 0 <= k2 < out@.len() && k1 != k2 implies
                            #[trigger] out@[k1].0@ != #[trigger] out@[k2].0@ by {
                            if k1 == n && k2 < n {
                                let j = choose|j: int|
                                    0 <= j < i && store.files@[j].path@ == pre_out[k2].0@;
                                assert(store.files@[j].path@ != store.files@[i as int].path@);
                            } else if k2 == n && k1 < n {
                                let j = choose|j: int|
                                    0 <= j < i && store.files@[j].path@ == pre_out[k1].0@;
                                assert(store.files@[j].path@ != store.files@[i as int].path@);
                            } else if k1 < n && k2 < n {
                                assert(pre_out[k1].0@ != pre_out[k2].0@);
                            }
                        }
                        assert forall|j: int|
                            0 <= j < i + 1 && listed_under(
                                *store,
                                base_path@,
                                #[trigger] store.files@[j].path@,
                            ) implies exists|k: int|
                            0 <= k < out@.len() && #[trigger] out@[k].0@
                                == store.files@[j].path@ by {
                            if j == i {
                                assert(out@[n].0@ == store.files@[j].path@);
                            } else {
                                let k = choose|k: int|
                                    0 <= k < pre_out.len() && pre_out[k].0@
                                        == store.files@[j].path@;
                                assert(out@[k].0@ == store.files@[j].path@);
                            }
                        }
                    }
                },
                None => {
                    proof {
                        assert(store.spec_digest(p_i) is None);
                        assert(!listed_under(*store, base_path@, p_i));
                    }
                },
            }
        } else {
            proof {
                assert(!is_prefix_of(base_path@, p_i));
                assert(!listed_under(*store, base_path@, p_i));
            }
        }
        i += 1;
    }
    proof {
        assert forall|p: Seq<char>| listed_under(*store, base_path@, p) implies exists|k: int|
            0 <= k < out@.len() && #[trigger] out@[k].0@ == p by {
            let j = choose|j: int|
                0 <= j < store.files@.len() && store.files@[j].path@ == p;
            store.lemma_at(j);
            assert(listed_under(*store, base_path@, store.files@[j].path@));
        }
    }
    out
}

/// Deletes the file at `path`; reports whether one was stored there.
pub fn delete_file(path: &str, store: &mut ContentStore) -> (r: Result<bool, ApiError>)
    requires
        old(store).wf(),
    ensures
        final(store).wf(),
        r is Ok,
        r matches Ok(existed) ==> existed == old(store).spec_contains(path@),
        !final(store).spec_contains(path@),
        forall|q: Seq<char>|
            q != path@ ==> #[trigger] final(store).spec_contains(q) == old(store).spec_contains(
                q,
            ),
        forall|q: Seq<char>|
            q != path@ && old(store).spec_contains(q) ==> #[trigger] final(store).spec_at(q)
                == old(store).spec_at(q),
{
    Ok(store.delete(path))
}

/// What a chunk write must do to the store, decided from whether the file
/// already exists and whether this is the transfer's first chunk.
pub enum ChunkAction {
    /// The file exists and the transfer starts afresh: empty it in place.
    TruncateExisting,
    /// The transfer continues: append to what is there.
    AppendExisting,
    /// Nothing is there yet and the transfer starts: create the file.
    CreateNew,
    /// A continuation chunk found no file: it was deleted mid-transfer.
    RejectDeleted,
}

/// Decides how a chunk write begins.
pub fn plan_chunk_write(file_exists: bool, start: bool) -> (r: ChunkAction)
    ensures
        file_exists && start ==> r is TruncateExisting,
        file_exists && !start ==> r is AppendExisting,
        !file_exists && start ==> r is CreateNew,
        !file_exists && !start ==> r is RejectDeleted,
{
    if file_exists {
        if start {
            ChunkAction::TruncateExisting
        } else {
            ChunkAction::AppendExisting
        }
    } else {
        if start {
            ChunkAction::CreateNew
        } else {
            ChunkAction::RejectDeleted
        }
    }
}

/// Applies one chunk of an upload to the store.
///
/// With `start` the file begins afresh: an existing file is truncated in
/// place, a missing one is created (rejecting an ill-formed path); without
/// `start` the chunk is appended, and a missing file means it was deleted
/// out from under the transfer.  With `finished` the store hashes the
/// accumulated contents, records that digest as the file's metadata, and
/// returns it.
pub fn write_file_data(path: &str, data: &[u8], start: bool, finished: bool, store:
    &mut ContentStore) -> (r: Result<Option<[u8; 32]>, ApiError>)
    requires
        old(store).wf(),
    ensures
        final(store).wf(),
        r is Err <==> (!old(store).spec_contains(path@) && (!start || !valid_file_path(path@))),
        r is Err ==> *final(store) == *old(store),
        !start && !old(store).spec_contains(path@) ==> r == Err::<Option<[u8; 32]>, ApiError>(
            ApiError::Deleted,
        ),
        start && !old(store).spec_contains(path@) && !valid_file_path(path@) ==> r == Err::<
            Option<[u8; 32]>,
            ApiError,
        >(check_path_error(path@)),
        r is Ok ==> {
            &&& final(store).spec_contains(path@)
            &&& final(store).spec_contents(path@) == (if start {
                data@
            } else {
                old(store).spec_contents(path@) + data@
            })
        },
        r is Ok && finished ==> {
            &&& r matches Ok(Some(d)) && d@ == blake3_of(final(store).spec_contents(path@))
            &&& final(store).spec_digest(path@) == Some(blake3_of(
                final(store).spec_contents(path@),
            ))
        },
        r is Ok && !finished ==> r == Ok::<Option<[u8; 32]>, ApiError>(None) && final(store).spec_digest(path@) == (if old(store).spec_contains(path@) {
            old(store).spec_digest(path@)
        } else {
            None
        }),
        forall|q: Seq<char>|
            q != path@ ==> #[trigger] final(store).spec_contains(q) == old(store).spec_contains(
                q,
            ),
        forall|q: Seq<char>|
            q != path@ && old(store).spec_contains(q) ==> #[trigger] final(store).spec_at(q)
                == old(store).spec_at(q),
{
    match plan_chunk_write(store.contains(path), start) {
        ChunkAction::TruncateExisting => {
            let truncated = store.truncate(path);
            proof {
                assert(truncated is Ok);
            }
        },
        ChunkAction::AppendExisting => {},
        ChunkAction::CreateNew => {
            if let Err(e) = store.create(path) {
                return Err(e);
            }
        },
        ChunkAction::RejectDeleted => {
            return Err(ApiError::Deleted);
        },
    }
    let appended = store.append(path, data);
    proof {
        assert(appended is Ok);
    }
    if finished {
        let contents = match store.load_contents(path) {
            Some(c) => c,
            None => {
                return vstd::pervasive::unreached();
            },
        };
        let digest = hash_bytes(contents.as_slice());
        let updated = store.update_metadata(path, Metadata { blake3: digest });
        proof {
            assert(updated is Ok);
        }
        Ok(Some(digest))
    } else {
        Ok(None)
    }
}

} // verus!
