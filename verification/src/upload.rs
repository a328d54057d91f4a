//! The chunked uploader: streams a file's bytes to the store in bounded
//! chunks, accumulates a verification digest over the same bytes, and
//! retries the whole transfer from byte zero — never appending a second
//! copy — when the digest the store reports does not match the target.

use vstd::prelude::*;
use vstd::slice::slice_subrange;
use vstd::slice::slice_to_vec;

use crate::api::ApiError;
use crate::api::WriteFileData;
use crate::sync::SyncOperation;
use crate::sync::SyncOpV;
use crate::digest::blake3_of;
use crate::digest::digests_equal;
use crate::digest::VerificationHash;
use crate::paths::qualified_path;
use crate::paths::qualify_remote_path;
use crate::paths::valid_file_path;
use crate::paths::valid_name;
use crate::store::check_path_error;
use crate::store::delete_file;
use crate::store::write_file_data;
use crate::store::ContentStore;

verus! {

/// Upper bound on the bytes carried by one chunk write.
pub const UPLOAD_CHUNK_SIZE: usize = 1048576;

/// How many full transfer attempts an upload makes before giving up on a
/// persistent verification mismatch.
pub const MAX_UPLOAD_ATTEMPTS: usize = 3;

/// An upload's failure: the store rejected a write, or every attempt ended
/// in a verification mismatch.
#[derive(Clone, Copy, PartialEq, Eq, Structural, Debug)]
pub enum UploadError {
    Store(ApiError),
    RetriesExhausted,
}

/// The digest one transfer must end with: the caller's, when it supplied
/// one, else the digest of the bytes themselves.
pub open spec fn upload_target(verify_hash: Option<[u8; 32]>, bytes: Seq<u8>) -> Seq<u8> {
    match verify_hash {
        Some(h) => h@,
        None => blake3_of(bytes),
    }
}

/// The per-attempt state of an upload: the target path, the verification
/// digest accumulating over the bytes sent, and whether the next chunk is
/// the transfer's first (which makes the store begin the file afresh).
/// An attempt that fails verification discards its session; the retry
/// builds a new one and so starts again from byte zero.
pub struct UploadSession {
    path: String,
    verifier: VerificationHash,
    is_first_write: bool,
}

impl UploadSession {
    /// The path the session uploads to.
    pub closed spec fn spec_path(self) -> Seq<char> {
        self.path@
    }

    /// Whether the verification target was supplied by the caller.
    pub closed spec fn spec_static(self) -> bool {
        self.verifier.is_static()
    }

    /// The digest the transfer must match.
    pub closed spec fn spec_target(self) -> Seq<u8> {
        self.verifier.spec_target()
    }

    /// The bytes fed so far, when the target is being computed from them.
    pub closed spec fn spec_fed(self) -> Seq<u8> {
        self.verifier.spec_fed()
    }

    /// Whether no chunk has been taken yet.
    pub closed spec fn spec_first(self) -> bool {
        self.is_first_write
    }

    pub fn new(remote_path: &str, verify_hash: Option<[u8; 32]>) -> (r: Self)
        ensures
            r.spec_path() == remote_path@,
            r.spec_first(),
            r.spec_static() == (verify_hash is Some),
            verify_hash matches Some(h) ==> r.spec_target() == h@,
            verify_hash is None ==> r.spec_fed() == Seq::<u8>::empty(),
    {
        UploadSession {
            path: remote_path.to_owned(),
            verifier: VerificationHash::new(verify_hash),
            is_first_write: true,
        }
    }

    /// Takes the next chunk: feeds it to the verification digest and
    /// produces the write request to send to the store.
    pub fn next_chunk(&mut self, data: &[u8], is_final: bool) -> (r: WriteFileData)
        ensures
            final(self).spec_path() == old(self).spec_path(),
            final(self).spec_static() == old(self).spec_static(),
            old(self).spec_static() ==> final(self).spec_target() == old(self).spec_target(),
            !old(self).spec_static() ==> final(self).spec_fed() == old(self).spec_fed() + data@,
            !final(self).spec_first(),
            r.path@ == old(self).spec_path(),
            r.data@ == data@,
            r.start == old(self).spec_first(),
            r.finished == is_final,
    {
        let req = WriteFileData {
            path: self.path.clone(),
            data: slice_to_vec(data),
            start: self.is_first_write,
            finished: is_final,
        };
        self.verifier.update(data);
        self.is_first_write = false;
        req
    }

    /// Compares the digest the store reported against the target.  A
    /// transfer is verified only when the store reported a digest and it
    /// matches exactly.
    pub fn verify(self, reported: Option<&[u8; 32]>) -> (r: bool)
        ensures
            r == (reported matches Some(d) && d@ == self.spec_target()),
    {
        let target = self.verifier.finish();
        match reported {
            Some(d) => digests_equal(d, &target),
            None => false,
        }
    }
}

/// Frame composition: two successive mutations that each leave every path
/// but `p` untouched leave every path but `p` untouched overall.
proof fn chain_frames(base: ContentStore, mid: ContentStore, post: ContentStore, p: Seq<char>)
    requires
        forall|q: Seq<char>| q != p ==> #[trigger] mid.spec_contains(q) == base.spec_contains(q),
        forall|q: Seq<char>|
            q != p && base.spec_contains(q) ==> #[trigger] mid.spec_at(q) == base.spec_at(q),
        forall|q: Seq<char>| q != p ==> #[trigger] post.spec_contains(q) == mid.spec_contains(q),
        forall|q: Seq<char>|
            q != p && mid.spec_contains(q) ==> #[trigger] post.spec_at(q) == mid.spec_at(q),
    ensures
        forall|q: Seq<char>| q != p ==> #[trigger] post.spec_contains(q) == base.spec_contains(q),
        forall|q: Seq<char>|
            q != p && base.spec_contains(q) ==> #[trigger] post.spec_at(q) == base.spec_at(q),
{
    assert forall|q: Seq<char>| q != p && base.spec_contains(q) implies #[trigger] post.spec_at(q)
        == base.spec_at(q) by {
        assert(mid.spec_contains(q) == base.spec_contains(q));
        assert(mid.spec_at(q) == base.spec_at(q));
    }
}

/// The outcome of one whole transfer attempt.
enum AttemptOutcome {
    Verified([u8; 32]),
    Mismatch,
}

/// Runs one full transfer: the bytes, chunked, each fed to the session and
/// written to the store, and the store's reported digest checked against
/// the target.  Regardless of what the path held before, afterwards it
/// holds exactly these bytes once.
#[verifier::loop_isolation(false)]
fn upload_attempt(
    remote_path: &str,
    bytes: &[u8],
    verify_hash: Option<[u8; 32]>,
    store: &mut ContentStore,
) -> (r: Result<AttemptOutcome, ApiError>)
    requires
        old(store).wf(),
    ensures
        final(store).wf(),
        r is Err <==> (!valid_file_path(remote_path@) && !old(store).spec_contains(
            remote_path@,
        )),
        r is Err ==> r == Err::<AttemptOutcome, ApiError>(check_path_error(remote_path@))
            && *final(store) == *old(store),
        r is Ok ==> {
            &&& final(store).spec_contains(remote_path@)
            &&& final(store).spec_contents(remote_path@) == bytes@
            &&& final(store).spec_digest(remote_path@) == Some(blake3_of(bytes@))
        },
        r matches Ok(o) ==> ((o is Verified) <==> upload_target(verify_hash, bytes@)
            == blake3_of(bytes@)),
        r matches Ok(AttemptOutcome::Verified(d)) ==> d@ == blake3_of(bytes@),
        forall|q: Seq<char>|
            q != remote_path@ ==> #[trigger] final(store).spec_contains(q) == old(
                store,
            ).spec_contains(q),
        forall|q: Seq<char>|
            q != remote_path@ && old(store).spec_contains(q) ==> #[trigger] final(store).spec_at(
                q,
            ) == old(store).spec_at(q),
{
    let ghost p = remote_path@;
    let n = bytes.len();
    let mut session = UploadSession::new(remote_path, verify_hash);
    let mut offset: usize = 0;
    while n - offset > UPLOAD_CHUNK_SIZE
        invariant
            store.wf(),
            n == bytes@.len(),
            0 <= offset <= n,
            session.spec_path() == p,
            session.spec_static() == (verify_hash is Some),
            verify_hash matches Some(h) ==> session.spec_target() == h@,
            verify_hash is None ==> session.spec_fed() == bytes@.subrange(0, offset as int),
            session.spec_first() == (offset == 0),
            offset > 0 ==> {
                &&& valid_file_path(p) || old(store).spec_contains(p)
                &&& store.spec_contains(p)
                &&& store.spec_contents(p) == bytes@.subrange(0, offset as int)
            },
            offset == 0 ==> *store == *old(store),
            forall|q: Seq<char>|
                q != p ==> #[trigger] store.spec_contains(q) == old(store).spec_contains(q),
            forall|q: Seq<char>|
                q != p && old(store).spec_contains(q) ==> #[trigger] store.spec_at(q) == old(
                    store,
                ).spec_at(q),
        decreases n - offset,
    {
        let end = offset + UPLOAD_CHUNK_SIZE;
        let req = session.next_chunk(slice_subrange(bytes, offset, end), false);
        let ghost mid = *store;
        match write_file_data(req.path.as_str(), req.data.as_slice(), req.start, req.finished,
            store) {
            Ok(_) => {
                proof {
                    if offset > 0 {
                        assert(mid.spec_contents(p) + bytes@.subrange(offset as int, end as int)
                            =~= bytes@.subrange(0, end as int));
                    }
                }
            },
            Err(e) => {
                return Err(e);
            },
        }
        proof {
            if verify_hash is None {
                assert(bytes@.subrange(0, offset as int) + bytes@.subrange(
                    offset as int,
                    end as int,
                ) =~= bytes@.subrange(0, end as int));
            }
        }
        offset = end;
    }
    let req = session.next_chunk(slice_subrange(bytes, offset, n), true);
    let ghost mid = *store;
    match write_file_data(req.path.as_str(), req.data.as_slice(), req.start, req.finished, store)
        {
        Ok(Some(d)) => {
            proof {
                if offset > 0 {
                    assert(mid.spec_contents(p) + bytes@.subrange(offset as int, n as int)
                        =~= bytes@);
                } else {
                    assert(bytes@.subrange(0, n as int) =~= bytes@);
                }
                if verify_hash is None {
                    assert(bytes@.subrange(0, offset as int) + bytes@.subrange(
                        offset as int,
                        n as int,
                    ) =~= bytes@);
                }
            }
            let verified = session.verify(Some(&d));
            if verified {
                Ok(AttemptOutcome::Verified(d))
            } else {
                Ok(AttemptOutcome::Mismatch)
            }
        },
        Ok(None) => vstd::pervasive::unreached(),
        Err(e) => {
            proof {
                assert(offset == 0);
                if mid.spec_contains(p) {
                    mid.lemma_contains_valid(p);
                }
            }
            Err(e)
        },
    }
}

/// Uploads one file's bytes to `remote_path`, verifying the transfer
/// end-to-end and retrying it in full — from byte zero — on a digest
/// mismatch, up to `MAX_UPLOAD_ATTEMPTS` attempts.
///
/// On success the path holds exactly `bytes`, their digest is recorded,
/// and that digest is returned.  When the caller supplied a verification
/// digest that the bytes do not hash to, every attempt mismatches and the
/// upload ends in `RetriesExhausted` — the store then still holds the
/// bytes once, unverified against the caller's target.
#[verifier::loop_isolation(false)]
pub fn perform_upload(
    remote_path: &str,
    bytes: &[u8],
    verify_hash: Option<[u8; 32]>,
    store: &mut ContentStore,
) -> (r: Result<[u8; 32], UploadError>)
    requires
        old(store).wf(),
    ensures
        final(store).wf(),
        r is Ok <==> ((valid_file_path(remote_path@) || old(store).spec_contains(remote_path@))
            && upload_target(verify_hash, bytes@) == blake3_of(bytes@)),
        r matches Ok(d) ==> d@ == blake3_of(bytes@),
        r is Ok || r == Err::<[u8; 32], UploadError>(UploadError::RetriesExhausted) ==> {
            &&& final(store).spec_contains(remote_path@)
            &&& final(store).spec_contents(remote_path@) == bytes@
            &&& final(store).spec_digest(remote_path@) == Some(blake3_of(bytes@))
        },
        r == Err::<[u8; 32], UploadError>(UploadError::RetriesExhausted) <==> ((valid_file_path(
            remote_path@,
        ) || old(store).spec_contains(remote_path@)) && upload_target(verify_hash, bytes@)
            != blake3_of(bytes@)),
        r matches Err(UploadError::Store(se)) ==> se == check_path_error(remote_path@)
            && *final(store) == *old(store) && !valid_file_path(remote_path@),
        forall|q: Seq<char>|
            q != remote_path@ ==> #[trigger] final(store).spec_contains(q) == old(
                store,
            ).spec_contains(q),
        forall|q: Seq<char>|
            q != remote_path@ && old(store).spec_contains(q) ==> #[trigger] final(store).spec_at(
                q,
            ) == old(store).spec_at(q),
{
    let ghost p = remote_path@;
    let mut attempt: usize = 0;
    while attempt < MAX_UPLOAD_ATTEMPTS
        invariant
            store.wf(),
            attempt == 0 ==> *store == *old(store),
            attempt > 0 ==> {
                &&& (valid_file_path(p) || old(store).spec_contains(p))
                &&& upload_target(verify_hash, bytes@) != blake3_of(bytes@)
                &&& store.spec_contains(p)
                &&& store.spec_contents(p) == bytes@
                &&& store.spec_digest(p) == Some(blake3_of(bytes@))
            },
            forall|q: Seq<char>|
                q != p ==> #[trigger] store.spec_contains(q) == old(store).spec_contains(q),
            forall|q: Seq<char>|
                q != p && old(store).spec_contains(q) ==> #[trigger] store.spec_at(q) == old(
                    store,
                ).spec_at(q),
        decreases MAX_UPLOAD_ATTEMPTS - attempt,
    {
        let ghost pre = *store;
        match upload_attempt(remote_path, bytes, verify_hash, store) {
            Ok(AttemptOutcome::Verified(d)) => {
                proof {
                    chain_frames(*old(store), pre, *store, p);
                }
                return Ok(d);
            },
            Ok(AttemptOutcome::Mismatch) => {
                proof {
                    chain_frames(*old(store), pre, *store, p);
                }
            },
            Err(e) => {
                return Err(UploadError::Store(e));
            },
        }
        attempt += 1;
    }
    Err(UploadError::RetriesExhausted)
}

/// The full store path one upload writes: the remote path qualified with
/// its project, and, when that names a directory, the local file's name.
pub open spec fn upload_path(
    remote: Seq<char>,
    project: Seq<char>,
    file_name: Option<&str>,
) -> Seq<char> {
    let q = qualified_path(remote, project);
    if q.last() == '/' {
        match file_name {
            Some(nm) => q + nm@,
            None => q,
        }
    } else {
        q
    }
}

/// Uploads one local file's bytes: qualifies the remote path with its
/// project — appending the file's own name when the target names a
/// directory — and performs the verified chunked transfer against that
/// full path.  Returns the full path written.
pub fn upload_file(
    local_bytes: &[u8],
    remote_path: &str,
    project: &str,
    file_name: Option<&str>,
    verify_hash: Option<[u8; 32]>,
    store: &mut ContentStore,
) -> (r: Result<String, UploadError>)
    requires
        old(store).wf(),
    ensures
        final(store).wf(),
        ({
            let q = qualified_path(remote_path@, project@);
            let t = upload_path(remote_path@, project@, file_name);
            if q.last() == '/' && !(file_name matches Some(nm) && valid_name(nm@)) {
                r == Err::<String, UploadError>(UploadError::Store(ApiError::InvalidName))
                    && *final(store) == *old(store)
            } else {
                &&& (r is Ok <==> ((valid_file_path(t) || old(store).spec_contains(t))
                    && upload_target(verify_hash, local_bytes@) == blake3_of(local_bytes@)))
                &&& (r matches Ok(s) ==> s@ == t)
                &&& (r is Ok || r == Err::<String, UploadError>(UploadError::RetriesExhausted)
                    ==> final(store).spec_contains(t) && final(store).spec_contents(t)
                    == local_bytes@ && final(store).spec_digest(t) == Some(blake3_of(
                    local_bytes@,
                )))
                &&& (r == Err::<String, UploadError>(UploadError::RetriesExhausted) <==> ((
                valid_file_path(t) || old(store).spec_contains(t)) && upload_target(
                    verify_hash,
                    local_bytes@,
                ) != blake3_of(local_bytes@)))
                &&& (r matches Err(UploadError::Store(se)) ==> se == check_path_error(t)
                    && *final(store) == *old(store))
                &&& (forall|q2: Seq<char>|
                    q2 != t ==> #[trigger] final(store).spec_contains(q2) == old(
                        store,
                    ).spec_contains(q2))
                &&& (forall|q2: Seq<char>|
                    q2 != t && old(store).spec_contains(q2) ==> #[trigger] final(store).spec_at(
                        q2,
                    ) == old(store).spec_at(q2))
            }
        }),
{
    let full = match qualify_remote_path(remote_path, project, file_name) {
        Ok(f) => f,
        Err(e) => {
            return Err(UploadError::Store(e));
        },
    };
    match perform_upload(full.as_str(), local_bytes, verify_hash, store) {
        Ok(_) => Ok(full),
        Err(e) => Err(e),
    }
}

/// What applying a create or replace operation leaves behind: the record's
/// bytes uploaded to its project-qualified path and verified against the
/// record's digest, with the relative remote path reported back on
/// success.
pub open spec fn sync_upload_post(
    rec: crate::sync::FileRecordV,
    project: Seq<char>,
    local: Seq<u8>,
    pre: ContentStore,
    post: ContentStore,
    r: Result<String, UploadError>,
) -> bool {
    let q = qualified_path(rec.remote_path, project);
    let t = upload_path(rec.remote_path, project, None);
    if q.last() == '/' {
        r == Err::<String, UploadError>(UploadError::Store(ApiError::InvalidName)) && post == pre
    } else {
        &&& (r is Ok <==> ((valid_file_path(t) || pre.spec_contains(t)) && rec.digest
            == blake3_of(local)))
        &&& (r matches Ok(s) ==> s@ == rec.remote_path)
        &&& (r is Ok || r == Err::<String, UploadError>(UploadError::RetriesExhausted)
            ==> post.spec_contains(t) && post.spec_contents(t) == local && post.spec_digest(t)
            == Some(blake3_of(local)))
        &&& (r == Err::<String, UploadError>(UploadError::RetriesExhausted) <==> ((
        valid_file_path(t) || pre.spec_contains(t)) && rec.digest != blake3_of(local)))
        &&& (r matches Err(UploadError::Store(se)) ==> se == check_path_error(t) && post == pre)
        &&& (forall|q2: Seq<char>|
            q2 != t ==> #[trigger] post.spec_contains(q2) == pre.spec_contains(q2))
        &&& (forall|q2: Seq<char>|
            q2 != t && pre.spec_contains(q2) ==> #[trigger] post.spec_at(q2) == pre.spec_at(q2))
    }
}

/// Applies one planned operation to the store: a create or replace uploads
/// the local file's bytes, verified against the digest recorded when the
/// file was scanned; a delete removes the path.  Returns the path to
/// report as completed.
pub fn perform_sync_operation(
    operation: SyncOperation,
    project: &str,
    local_bytes: &[u8],
    store: &mut ContentStore,
) -> (r: Result<String, UploadError>)
    requires
        old(store).wf(),
    ensures
        final(store).wf(),
        operation@ matches SyncOpV::Create(rec) ==> sync_upload_post(
            rec,
            project@,
            local_bytes@,
            *old(store),
            *final(store),
            r,
        ),
        operation@ matches SyncOpV::Replace(rec, prev) ==> sync_upload_post(
            rec,
            project@,
            local_bytes@,
            *old(store),
            *final(store),
            r,
        ),
        operation@ matches SyncOpV::Delete(p) ==> {
            &&& r matches Ok(s) && s@ == p
            &&& !final(store).spec_contains(p)
            &&& (forall|q2: Seq<char>|
                q2 != p ==> #[trigger] final(store).spec_contains(q2) == old(
                    store,
                ).spec_contains(q2))
            &&& (forall|q2: Seq<char>|
                q2 != p && old(store).spec_contains(q2) ==> #[trigger] final(store).spec_at(q2)
                    == old(store).spec_at(q2))
        },
{
    match operation {
        SyncOperation::Create(file_hash) => {
            match upload_file(
                local_bytes,
                file_hash.remote_path.as_str(),
                project,
                None,
                Some(file_hash.blake3),
                store,
            ) {
                Ok(_) => Ok(file_hash.remote_path),
                Err(e) => Err(e),
            }
        },
        SyncOperation::Replace(file_hash, _previous) => {
            match upload_file(
                local_bytes,
                file_hash.remote_path.as_str(),
                project,
                None,
                Some(file_hash.blake3),
                store,
            ) {
                Ok(_) => Ok(file_hash.remote_path),
                Err(e) => Err(e),
            }
        },
        SyncOperation::Delete(file) => {
            match delete_file(file.as_str(), store) {
                Ok(_) => Ok(file),
                Err(e) => Err(UploadError::Store(e)),
            }
        },
    }
}

} // verus!
