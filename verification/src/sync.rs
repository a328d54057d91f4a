//! The diff planner: reconciling a local scan against a snapshot of the
//! remote store, producing the minimal set of create / replace / delete
//! operations.
//!
//! Each incoming local record is compared against the snapshot: a matching
//! digest is already in sync and its path is struck from the snapshot; a
//! differing digest becomes a replace (also striking the path); an unknown
//! path becomes a create.  When the scan is exhausted, every path still in
//! the snapshot had no local counterpart and becomes a delete.  Each remote
//! path is thus visited at most once, and deletion detection costs no
//! second pass.

use vstd::prelude::*;

use crate::digest::digests_equal;
use crate::paths::project_path;
use crate::text::str_eq;

verus! {

/// A scanned local file: its local path, its remote path relative to the
/// project, and the digest of its contents.
pub struct FileHash {
    pub path: String,
    pub remote_path: String,
    pub blake3: [u8; 32],
}

/// The abstract value of a `FileHash`.
pub struct FileRecordV {
    pub path: Seq<char>,
    pub remote_path: Seq<char>,
    pub digest: Seq<u8>,
}

impl View for FileHash {
    type V = FileRecordV;

    open spec fn view(&self) -> FileRecordV {
        FileRecordV { path: self.path@, remote_path: self.remote_path@, digest: self.blake3@ }
    }
}

impl Clone for FileHash {
    fn clone(&self) -> (r: Self)
        ensures
            r@ == self@,
    {
        FileHash {
            path: self.path.clone(),
            remote_path: self.remote_path.clone(),
            blake3: self.blake3,
        }
    }
}

/// One planned sync operation.  A replace carries the digest previously
/// recorded remotely; a delete carries the full remote path.
pub enum SyncOperation {
    Create(FileHash),
    Replace(FileHash, [u8; 32]),
    Delete(String),
}

/// The abstract value of a `SyncOperation`.
pub enum SyncOpV {
    Create(FileRecordV),
    Replace(FileRecordV, Seq<u8>),
    Delete(Seq<char>),
}

impl View for SyncOperation {
    type V = SyncOpV;

    open spec fn view(&self) -> SyncOpV {
        match self {
            SyncOperation::Create(r) => SyncOpV::Create(r@),
            SyncOperation::Replace(r, prev) => SyncOpV::Replace(r@, prev@),
            SyncOperation::Delete(p) => SyncOpV::Delete(p@),
        }
    }
}

/// The abstract values of a sequence of operations.
pub open spec fn ops_views(s: Seq<SyncOperation>) -> Seq<SyncOpV> {
    s.map_values(|op: SyncOperation| op@)
}

/// The abstract values of a sequence of local records.
pub open spec fn records_views(s: Seq<FileHash>) -> Seq<FileRecordV> {
    s.map_values(|r: FileHash| r@)
}

/// A remote path qualified with the project it is filed under.
pub open spec fn full_path(project: Seq<char>, remote_path: Seq<char>) -> Seq<char> {
    seq!['/'] + project + remote_path
}

/// An abstract remote snapshot: path/digest pairs.
pub open spec fn idx_contains(s: Seq<(Seq<char>, Seq<u8>)>, p: Seq<char>) -> bool {
    exists|i: int| 0 <= i < s.len() && s[i].0 == p
}

/// The digest the snapshot holds for `p`; meaningful when `idx_contains`.
pub open spec fn idx_get(s: Seq<(Seq<char>, Seq<u8>)>, p: Seq<char>) -> Seq<u8> {
    s[choose|i: int| 0 <= i < s.len() && s[i].0 == p].1
}

/// The snapshot with the first entry for `p` struck out.
pub open spec fn idx_remove(s: Seq<(Seq<char>, Seq<u8>)>, p: Seq<char>) -> Seq<
    (Seq<char>, Seq<u8>),
>
    decreases s.len(),
{
    if s.len() == 0 {
        s
    } else if s[0].0 == p {
        s.drop_first()
    } else {
        seq![s[0]] + idx_remove(s.drop_first(), p)
    }
}

/// No two entries share a path.
pub open spec fn idx_distinct(s: Seq<(Seq<char>, Seq<u8>)>) -> bool {
    forall|i: int, j: int|
        0 <= i < s.len() && 0 <= j < s.len() && i != j ==> #[trigger] s[i].0 != #[trigger] s[j].0
}

proof fn lemma_idx_get_at(s: Seq<(Seq<char>, Seq<u8>)>, i: int)
    requires
        idx_distinct(s),
        0 <= i < s.len(),
    ensures
        idx_contains(s, s[i].0),
        idx_get(s, s[i].0) == s[i].1,
{
    assert(idx_contains(s, s[i].0));
    let j = choose|j: int| 0 <= j < s.len() && s[j].0 == s[i].0;
    assert(j == i);
}

proof fn lemma_idx_remove_at(s: Seq<(Seq<char>, Seq<u8>)>, i: int)
    requires
        idx_distinct(s),
        0 <= i < s.len(),
    ensures
        idx_remove(s, s[i].0) =~= s.subrange(0, i) + s.subrange(i + 1, s.len() as int),
    decreases s.len(),
{
    if i == 0 {
        assert(s.drop_first() =~= s.subrange(0, 0) + s.subrange(1, s.len() as int));
    } else {
        assert(s[0].0 != s[i].0);
        let t = s.drop_first();
        assert(idx_distinct(t)) by {
            assert forall|a: int, b: int|
                0 <= a < t.len() && 0 <= b < t.len() && a != b implies #[trigger] t[a].0
                != #[trigger] t[b].0 by {
                assert(t[a] == s[a + 1]);
                assert(t[b] == s[b + 1]);
            }
        }
        assert(t[i - 1] == s[i]);
        lemma_idx_remove_at(t, i - 1);
        assert(seq![s[0]] + (t.subrange(0, i - 1) + t.subrange(i, t.len() as int)) =~= s.subrange(
            0,
            i,
        ) + s.subrange(i + 1, s.len() as int));
    }
}

proof fn lemma_idx_remove_frame(s: Seq<(Seq<char>, Seq<u8>)>, p: Seq<char>)
    requires
        idx_distinct(s),
        idx_contains(s, p),
    ensures
        idx_distinct(idx_remove(s, p)),
        idx_remove(s, p).len() == s.len() - 1,
        !idx_contains(idx_remove(s, p), p),
        forall|q: Seq<char>|
            q != p ==> #[trigger] idx_contains(idx_remove(s, p), q) == idx_contains(s, q),
        forall|q: Seq<char>|
            q != p && idx_contains(s, q) ==> #[trigger] idx_get(idx_remove(s, p), q) == idx_get(
                s,
                q,
            ),
{
    let i = choose|i: int| 0 <= i < s.len() && s[i].0 == p;
    lemma_idx_remove_at(s, i);
    let t = idx_remove(s, p);
    assert forall|a: int, b: int|
        0 <= a < t.len() && 0 <= b < t.len() && a != b implies #[trigger] t[a].0
        != #[trigger] t[b].0 by {
        let a2 = if a < i {
            a
        } else {
            a + 1
        };
        let b2 = if b < i {
            b
        } else {
            b + 1
        };
        assert(t[a] == s[a2]);
        assert(t[b] == s[b2]);
    }
    assert forall|k: int| 0 <= k < t.len() implies #[trigger] t[k].0 != p by {
        let k2 = if k < i {
            k
        } else {
            k + 1
        };
        assert(t[k] == s[k2]);
    }
    assert forall|q: Seq<char>| q != p implies #[trigger] idx_contains(t, q) == idx_contains(
        s,
        q,
    ) by {
        if idx_contains(s, q) {
            let k = choose|k: int| 0 <= k < s.len() && s[k].0 == q;
            assert(k != i);
            let k2 = if k < i {
                k
            } else {
                k - 1
            };
            assert(t[k2] == s[k]);
            assert(idx_contains(t, q));
        }
        if idx_contains(t, q) {
            let k = choose|k: int| 0 <= k < t.len() && t[k].0 == q;
            let k2 = if k < i {
                k
            } else {
                k + 1
            };
            assert(t[k] == s[k2]);
            assert(idx_contains(s, q));
        }
    }
    assert forall|q: Seq<char>| q != p && idx_contains(s, q) implies #[trigger] idx_get(t, q)
        == idx_get(s, q) by {
        let k = choose|k: int| 0 <= k < s.len() && s[k].0 == q;
        assert(k != i);
        let k2 = if k < i {
            k
        } else {
            k - 1
        };
        assert(t[k2] == s[k]);
        lemma_idx_get_at(s, k);
        assert(idx_distinct(t));
        lemma_idx_get_at(t, k2);
    }
}

/// A point-in-time snapshot of the remote store under a prefix: a mapping
/// from full remote path to recorded digest.  Captured once before diffing
/// begins and consumed by removal as reconciliation proceeds.
pub struct RemoteIndex {
    entries: Vec<(String, [u8; 32])>,
}

impl View for RemoteIndex {
    type V = Seq<(Seq<char>, Seq<u8>)>;

    closed spec fn view(&self) -> Seq<(Seq<char>, Seq<u8>)> {
        self.entries@.map_values(|e: (String, [u8; 32])| (e.0@, e.1@))
    }
}

impl RemoteIndex {
    /// Well-formedness: no path is listed twice.
    pub open spec fn wf(self) -> bool {
        idx_distinct(self@)
    }

    /// Builds the snapshot from a listing; `None` if the listing names a
    /// path twice.
    pub fn from_listing(listing: Vec<(String, [u8; 32])>) -> (r: Option<RemoteIndex>)
        ensures
            r matches Some(ri) ==> ri.wf() && ri@ == listing@.map_values(
                |e: (String, [u8; 32])| (e.0@, e.1@),
            ),
            r is None <==> !idx_distinct(
                listing@.map_values(|e: (String, [u8; 32])| (e.0@, e.1@)),
            ),
    {
        let ghost v = listing@.map_values(|e: (String, [u8; 32])| (e.0@, e.1@));
        let n = listing.len();
        let mut i: usize = 0;
        while i < n
            invariant
                i <= n,
                n == listing@.len(),
                v == listing@.map_values(|e: (String, [u8; 32])| (e.0@, e.1@)),
                forall|a: int, b: int|
                    0 <= a < i && 0 <= b < listing@.len() && a != b ==> #[trigger] v[a].0
                        != #[trigger] v[b].0,
            decreases n - i,
        {
            let mut j: usize = i + 1;
            while j < n
                invariant
                    i < j <= n,
                    n == listing@.len(),
                    v == listing@.map_values(|e: (String, [u8; 32])| (e.0@, e.1@)),
                    forall|b: int| i < b < j ==> v[i as int].0 != #[trigger] v[b].0,
                decreases n - j,
            {
                if str_eq(listing[i].0.as_str(), listing[j].0.as_str()) {
                    assert(v[i as int].0 == v[j as int].0);
                    assert(!idx_distinct(v));
                    return None;
                }
                j += 1;
            }
            assert forall|a: int, b: int|
                0 <= a < i + 1 && 0 <= b < listing@.len() && a != b implies #[trigger] v[a].0
                != #[trigger] v[b].0 by {
                if a == i {
                    if b > i {
                        assert(v[i as int].0 != v[b].0);
                    }
                }
            }
            i += 1;
        }
        assert(idx_distinct(v));
        Some(RemoteIndex { entries: listing })
    }

    /// How many remote files the snapshot still holds.
    pub fn len(&self) -> (r: usize)
        ensures
            r == self@.len(),
    {
        self.entries.len()
    }

    /// The digest recorded for `path`, if the snapshot still holds it.
    fn find(&self, path: &str) -> (r: Option<usize>)
        requires
            self.wf(),
        ensures
            r matches Some(i) ==> i < self@.len() && self@[i as int].0 == path@ && idx_contains(
                self@,
                path@,
            ) && idx_get(self@, path@) == self@[i as int].1,
            r is None ==> !idx_contains(self@, path@),
    {
        let mut i: usize = 0;
        while i < self.entries.len()
            invariant
                self.wf(),
                i <= self@.len(),
                self@.len() == self.entries@.len(),
                forall|j: int| 0 <= j < i ==> #[trigger] self@[j].0 != path@,
            decreases self@.len() - i,
        {
            assert(self@[i as int].0 == self.entries@[i as int].0@);
            if str_eq(self.entries[i].0.as_str(), path) {
                proof {
                    lemma_idx_get_at(self@, i as int);
                }
                return Some(i);
            }
            i += 1;
        }
        None
    }

    /// Strikes `path` from the snapshot, returning the digest it held.
    fn take(&mut self, path: &str) -> (r: Option<[u8; 32]>)
        requires
            old(self).wf(),
        ensures
            final(self).wf(),
            r is Some <==> idx_contains(old(self)@, path@),
            r matches Some(d) ==> d@ == idx_get(old(self)@, path@) && final(self)@ == idx_remove(
                old(self)@,
                path@,
            ),
            r is None ==> *final(self) == *old(self),
    {
        let i = match self.find(path) {
            Some(i) => i,
            None => {
                return None;
            },
        };
        let ghost pre = self@;
        let (_, digest) = self.entries.remove(i);
        proof {
            lemma_idx_remove_at(pre, i as int);
            assert(self@ =~= pre.subrange(0, i as int) + pre.subrange(
                i + 1,
                pre.len() as int,
            ));
            lemma_idx_remove_frame(pre, path@);
        }
        Some(digest)
    }
}

/// One delete operation per remaining snapshot entry.
pub open spec fn deletes_of(s: Seq<(Seq<char>, Seq<u8>)>) -> Seq<SyncOpV> {
    s.map_values(|e: (Seq<char>, Seq<u8>)| SyncOpV::Delete(e.0))
}

/// The operations a sync run plans: one pass over the scanned records
/// against the snapshot, then a delete for every remote path no record
/// claimed.  A record whose digest matches the snapshot plans nothing; a
/// differing digest plans a replace carrying the previous remote digest;
/// an unknown path plans a create.
pub open spec fn plan_ops(
    project: Seq<char>,
    index: Seq<(Seq<char>, Seq<u8>)>,
    records: Seq<FileRecordV>,
) -> Seq<SyncOpV>
    decreases records.len(),
{
    if records.len() == 0 {
        deletes_of(index)
    } else {
        let r = records[0];
        let p = full_path(project, r.remote_path);
        let rest = records.drop_first();
        if idx_contains(index, p) {
            if idx_get(index, p) == r.digest {
                plan_ops(project, idx_remove(index, p), rest)
            } else {
                seq![SyncOpV::Replace(r, idx_get(index, p))] + plan_ops(
                    project,
                    idx_remove(index, p),
                    rest,
                )
            }
        } else {
            seq![SyncOpV::Create(r)] + plan_ops(project, index, rest)
        }
    }
}

/// The streaming reconciler: consumes scanned records one at a time
/// against the snapshot, accumulating the planned operations, and finally
/// turns what is left of the snapshot into deletes.
pub struct DiffPlanner {
    project: String,
    index: RemoteIndex,
    operations: Vec<SyncOperation>,
}

impl DiffPlanner {
    pub closed spec fn wf(self) -> bool {
        self.index.wf()
    }

    /// The project the run is filed under.
    pub closed spec fn spec_project(self) -> Seq<char> {
        self.project@
    }

    /// What is left of the remote snapshot.
    pub closed spec fn spec_index(self) -> Seq<(Seq<char>, Seq<u8>)> {
        self.index@
    }

    /// The operations planned so far.
    pub closed spec fn spec_ops(self) -> Seq<SyncOpV> {
        ops_views(self.operations@)
    }

    pub fn new(project: &str, index: RemoteIndex) -> (r: Self)
        requires
            index.wf(),
        ensures
            r.wf(),
            r.spec_project() == project@,
            r.spec_index() == index@,
            r.spec_ops() == Seq::<SyncOpV>::empty(),
    {
        let r = DiffPlanner { project: project.to_owned(), index, operations: Vec::new() };
        proof {
            assert(ops_views(r.operations@) =~= Seq::<SyncOpV>::empty());
        }
        r
    }

    /// Reconciles one scanned record against the snapshot.
    pub fn observe(&mut self, record: FileHash)
        requires
            old(self).wf(),
        ensures
            final(self).wf(),
            final(self).spec_project() == old(self).spec_project(),
            ({
                let p = full_path(old(self).spec_project(), record@.remote_path);
                let idx = old(self).spec_index();
                if idx_contains(idx, p) {
                    &&& final(self).spec_index() == idx_remove(idx, p)
                    &&& if idx_get(idx, p) == record@.digest {
                        final(self).spec_ops() == old(self).spec_ops()
                    } else {
                        final(self).spec_ops() == old(self).spec_ops().push(
                            SyncOpV::Replace(record@, idx_get(idx, p)),
                        )
                    }
                } else {
                    &&& final(self).spec_index() == idx
                    &&& final(self).spec_ops() == old(self).spec_ops().push(
                        SyncOpV::Create(record@),
                    )
                }
            }),
    {
        let full = project_path(self.project.as_str(), record.remote_path.as_str());
        let ghost ops0 = self.operations@;
        match self.index.take(full.as_str()) {
            Some(prev) => {
                if !digests_equal(&prev, &record.blake3) {
                    self.operations.push(SyncOperation::Replace(record, prev));
                    proof {
                        assert(ops_views(self.operations@) =~= ops_views(ops0).push(
                            self.operations@.last()@,
                        ));
                    }
                }
            },
            None => {
                self.operations.push(SyncOperation::Create(record));
                proof {
                    assert(ops_views(self.operations@) =~= ops_views(ops0).push(
                        self.operations@.last()@,
                    ));
                }
            },
        }
    }

    /// Ends the run: every path left in the snapshot had no local
    /// counterpart and is planned for deletion.
    pub fn finish(self) -> (r: Vec<SyncOperation>)
        requires
            self.wf(),
        ensures
            ops_views(r@) == self.spec_ops() + deletes_of(self.spec_index()),
    {
        let DiffPlanner { project: _, index, mut operations } = self;
        let ghost ops0 = ops_views(operations@);
        let ghost idx = index@;
        let entries = index.entries;
        let mut i: usize = 0;
        while i < entries.len()
            invariant
                i <= entries@.len(),
                idx == entries@.map_values(|e: (String, [u8; 32])| (e.0@, e.1@)),
                ops_views(operations@) =~= ops0 + deletes_of(idx.subrange(0, i as int)),
            decreases entries@.len() - i,
        {
            let ghost pre = operations@;
            operations.push(SyncOperation::Delete(entries[i].0.clone()));
            proof {
                assert(ops_views(operations@) =~= ops_views(pre).push(operations@.last()@));
                assert(operations@.last()@ == SyncOpV::Delete(idx[i as int].0));
                assert(deletes_of(idx.subrange(0, i + 1)) =~= deletes_of(
                    idx.subrange(0, i as int),
                ).push(SyncOpV::Delete(idx[i as int].0)));
                assert(ops_views(operations@) =~= ops0 + deletes_of(idx.subrange(0, i + 1)));
            }
            i += 1;
        }
        proof {
            assert(idx.subrange(0, idx.len() as int) =~= idx);
        }
        operations
    }
}

/// Plans a whole sync run: every scanned record reconciled against the
/// snapshot, then the leftover deletes.
pub fn plan_sync_operations(project: &str, index: RemoteIndex, records: &Vec<FileHash>) -> (r:
    Vec<SyncOperation>)
    requires
        index.wf(),
    ensures
        ops_views(r@) == plan_ops(project@, index@, records_views(records@)),
{
    let ghost idx0 = index@;
    let ghost views = records_views(records@);
    let mut planner = DiffPlanner::new(project, index);
    proof {
        assert(views.skip(0) =~= views);
        assert(Seq::<SyncOpV>::empty() + plan_ops(project@, idx0, views) =~= plan_ops(
            project@,
            idx0,
            views,
        ));
    }
    let mut i: usize = 0;
    while i < records.len()
        invariant
            i <= records@.len(),
            views == records_views(records@),
            planner.wf(),
            planner.spec_project() == project@,
            plan_ops(project@, idx0, views) == planner.spec_ops() + plan_ops(
                project@,
                planner.spec_index(),
                views.skip(i as int),
            ),
        decreases records@.len() - i,
    {
        let ghost pre = planner;
        let ghost rest = views.skip(i as int);
        planner.observe(records[i].clone());
        proof {
            assert(rest[0] == records@[i as int]@);
            assert(rest.drop_first() =~= views.skip(i + 1));
            let p = full_path(project@, rest[0].remote_path);
            let idx = pre.spec_index();
            if idx_contains(idx, p) {
                if idx_get(idx, p) != rest[0].digest {
                    assert(pre.spec_ops().push(SyncOpV::Replace(rest[0], idx_get(idx, p)))
                        + plan_ops(project@, idx_remove(idx, p), rest.drop_first())
                        =~= pre.spec_ops() + (seq![
                        SyncOpV::Replace(rest[0], idx_get(idx, p)),
                    ] + plan_ops(project@, idx_remove(idx, p), rest.drop_first())));
                }
            } else {
                assert(pre.spec_ops().push(SyncOpV::Create(rest[0])) + plan_ops(
                    project@,
                    idx,
                    rest.drop_first(),
                ) =~= pre.spec_ops() + (seq![SyncOpV::Create(rest[0])] + plan_ops(
                    project@,
                    idx,
                    rest.drop_first(),
                )));
            }
        }
        i += 1;
    }
    proof {
        assert(views.skip(records@.len() as int) =~= Seq::<FileRecordV>::empty());
    }
    planner.finish()
}

/// Law: re-running sync with no local changes after a successful sync
/// plans zero operations.  When every scanned record's full path is held
/// by the snapshot with the same digest, the paths are not repeated, and
/// the snapshot holds nothing else, the plan is empty.
pub proof fn lemma_sync_idempotent(
    project: Seq<char>,
    index: Seq<(Seq<char>, Seq<u8>)>,
    records: Seq<FileRecordV>,
)
    requires
        idx_distinct(index),
        index.len() == records.len(),
        forall|i: int, j: int|
            0 <= i < records.len() && 0 <= j < records.len() && i != j ==> full_path(
                project,
                #[trigger] records[i].remote_path,
            ) != full_path(project, #[trigger] records[j].remote_path),
        forall|i: int|
            0 <= i < records.len() ==> idx_contains(
                index,
                full_path(project, #[trigger] records[i].remote_path),
            ) && idx_get(index, full_path(project, records[i].remote_path))
                == records[i].digest,
    ensures
        plan_ops(project, index, records).len() == 0,
    decreases records.len(),
{
    if records.len() == 0 {
        assert(deletes_of(index).len() == 0);
    } else {
        let r = records[0];
        let p = full_path(project, r.remote_path);
        let rest = records.drop_first();
        let index2 = idx_remove(index, p);
        lemma_idx_remove_frame(index, p);
        assert forall|i: int| 0 <= i < rest.len() implies idx_contains(
            index2,
            full_path(project, #[trigger] rest[i].remote_path),
        ) && idx_get(index2, full_path(project, rest[i].remote_path))
            == rest[i].digest by {
            assert(rest[i] == records[i + 1]);
            let q = full_path(project, records[i + 1].remote_path);
            assert(q != p);
        }
        assert forall|i: int, j: int|
            0 <= i < rest.len() && 0 <= j < rest.len() && i != j implies full_path(
            project,
            #[trigger] rest[i].remote_path,
        ) != full_path(project, #[trigger] rest[j].remote_path) by {
            assert(rest[i] == records[i + 1]);
            assert(rest[j] == records[j + 1]);
        }
        lemma_sync_idempotent(project, index2, rest);
    }
}

/// The full remote path one planned operation acts on.
pub open spec fn op_path(project: Seq<char>, op: SyncOpV) -> Seq<char> {
    match op {
        SyncOpV::Create(r) => full_path(project, r.remote_path),
        SyncOpV::Replace(r, _) => full_path(project, r.remote_path),
        SyncOpV::Delete(p) => p,
    }
}

/// Every path a plan acts on comes from the snapshot or from a scanned
/// record.
proof fn lemma_plan_path_sources(
    project: Seq<char>,
    index: Seq<(Seq<char>, Seq<u8>)>,
    records: Seq<FileRecordV>,
    k: int,
)
    requires
        idx_distinct(index),
        0 <= k < plan_ops(project, index, records).len(),
    ensures
        idx_contains(index, op_path(project, plan_ops(project, index, records)[k])) || exists|
            i: int,
        |
            0 <= i < records.len() && op_path(project, plan_ops(project, index, records)[k])
                == full_path(project, #[trigger] records[i].remote_path),
    decreases records.len(),
{
    let plan = plan_ops(project, index, records);
    if records.len() == 0 {
        assert(plan[k] == SyncOpV::Delete(index[k].0));
        assert(idx_contains(index, index[k].0));
    } else {
        let r = records[0];
        let p = full_path(project, r.remote_path);
        let rest = records.drop_first();
        if idx_contains(index, p) {
            let index2 = idx_remove(index, p);
            lemma_idx_remove_frame(index, p);
            let (k2, skipped) = if idx_get(index, p) == r.digest {
                (k, false)
            } else {
                (k - 1, true)
            };
            if skipped && k == 0 {
                assert(op_path(project, plan[0]) == p);
            } else {
                if skipped {
                    assert(plan[k] == plan_ops(project, index2, rest)[k2]);
                }
                lemma_plan_path_sources(project, index2, rest, k2);
                let q = op_path(project, plan_ops(project, index2, rest)[k2]);
                if idx_contains(index2, q) {
                    assert(q != p);
                    assert(idx_contains(index, q));
                } else {
                    let i = choose|i: int|
                        0 <= i < rest.len() && q == full_path(
                            project,
                            #[trigger] rest[i].remote_path,
                        );
                    assert(rest[i] == records[i + 1]);
                    assert(q == full_path(project, records[i + 1].remote_path));
                }
            }
        } else {
            if k == 0 {
                assert(op_path(project, plan[0]) == p);
            } else {
                assert(plan[k] == plan_ops(project, index, rest)[k - 1]);
                lemma_plan_path_sources(project, index, rest, k - 1);
                let q = op_path(project, plan_ops(project, index, rest)[k - 1]);
                if !idx_contains(index, q) {
                    let i = choose|i: int|
                        0 <= i < rest.len() && q == full_path(
                            project,
                            #[trigger] rest[i].remote_path,
                        );
                    assert(rest[i] == records[i + 1]);
                    assert(q == full_path(project, records[i + 1].remote_path));
                }
            }
        }
    }
}

/// Law: every path appearing in the planner's output appears in exactly
/// one operation.  When the snapshot lists no path twice and no two
/// scanned records share a full remote path, no two planned operations
/// act on the same path.
pub proof fn lemma_each_path_once(
    project: Seq<char>,
    index: Seq<(Seq<char>, Seq<u8>)>,
    records: Seq<FileRecordV>,
)
    requires
        idx_distinct(index),
        forall|i: int, j: int|
            0 <= i < records.len() && 0 <= j < records.len() && i != j ==> full_path(
                project,
                #[trigger] records[i].remote_path,
            ) != full_path(project, #[trigger] records[j].remote_path),
    ensures
        forall|a: int, b: int|
            0 <= a < plan_ops(project, index, records).len() && 0 <= b < plan_ops(
                project,
                index,
                records,
            ).len() && a != b ==> op_path(project, #[trigger] plan_ops(project, index, records)[a])
                != op_path(project, #[trigger] plan_ops(project, index, records)[b]),
    decreases records.len(),
{
    let plan = plan_ops(project, index, records);
    if records.len() == 0 {
        assert forall|a: int, b: int|
            0 <= a < plan.len() && 0 <= b < plan.len() && a != b implies op_path(
            project,
            #[trigger] plan[a],
        ) != op_path(project, #[trigger] plan[b]) by {
            assert(plan[a] == SyncOpV::Delete(index[a].0));
            assert(plan[b] == SyncOpV::Delete(index[b].0));
        }
    } else {
        let r = records[0];
        let p = full_path(project, r.remote_path);
        let rest = records.drop_first();
        assert forall|i: int, j: int|
            0 <= i < rest.len() && 0 <= j < rest.len() && i != j implies full_path(
            project,
            #[trigger] rest[i].remote_path,
        ) != full_path(project, #[trigger] rest[j].remote_path) by {
            assert(rest[i] == records[i + 1]);
            assert(rest[j] == records[j + 1]);
        }
        if idx_contains(index, p) {
            let index2 = idx_remove(index, p);
            lemma_idx_remove_frame(index, p);
            lemma_each_path_once(project, index2, rest);
            let tail = plan_ops(project, index2, rest);
            if idx_get(index, p) == r.digest {
            } else {
                assert forall|a: int, b: int|
                    0 <= a < plan.len() && 0 <= b < plan.len() && a != b implies op_path(
                    project,
                    #[trigger] plan[a],
                ) != op_path(project, #[trigger] plan[b]) by {
                    if a > 0 && b > 0 {
                        assert(plan[a] == tail[a - 1]);
                        assert(plan[b] == tail[b - 1]);
                    } else {
                        let k = if a == 0 {
                            b
                        } else {
                            a
                        };
                        assert(plan[k] == tail[k - 1]);
                        lemma_plan_path_sources(project, index2, rest, k - 1);
                        let q = op_path(project, tail[k - 1]);
                        if idx_contains(index2, q) {
                            assert(q != p);
                        } else {
                            let i = choose|i: int|
                                0 <= i < rest.len() && q == full_path(
                                    project,
                                    #[trigger] rest[i].remote_path,
                                );
                            assert(rest[i] == records[i + 1]);
                            assert(q != p);
                        }
                        assert(op_path(project, plan[0]) == p);
                    }
                }
            }
        } else {
            lemma_each_path_once(project, index, rest);
            let tail = plan_ops(project, index, rest);
            assert forall|a: int, b: int|
                0 <= a < plan.len() && 0 <= b < plan.len() && a != b implies op_path(
                project,
                #[trigger] plan[a],
            ) != op_path(project, #[trigger] plan[b]) by {
                if a > 0 && b > 0 {
                    assert(plan[a] == tail[a - 1]);
                    assert(plan[b] == tail[b - 1]);
                } else {
                    let k = if a == 0 {
                        b
                    } else {
                        a
                    };
                    assert(plan[k] == tail[k - 1]);
                    lemma_plan_path_sources(project, index, rest, k - 1);
                    let q = op_path(project, tail[k - 1]);
                    if idx_contains(index, q) {
                        assert(q != p);
                    } else {
                        let i = choose|i: int|
                            0 <= i < rest.len() && q == full_path(
                                project,
                                #[trigger] rest[i].remote_path,
                            );
                        assert(rest[i] == records[i + 1]);
                        assert(q != p);
                    }
                    assert(op_path(project, plan[0]) == p);
                }
            }
        }
    }
}

/// Law: a local change to one file whose path the remote snapshot already
/// holds plans exactly one replace, carrying the scanned record and the
/// digest the remote held before.
pub proof fn lemma_replace_planned(project: Seq<char>, prev: Seq<u8>, record: FileRecordV)
    requires
        record.digest != prev,
    ensures
        plan_ops(
            project,
            seq![(full_path(project, record.remote_path), prev)],
            seq![record],
        ) =~= seq![SyncOpV::Replace(record, prev)],
{
    let p = full_path(project, record.remote_path);
    let index = seq![(p, prev)];
    assert(index[0] == (p, prev));
    assert(idx_contains(index, p));
    let i = choose|i: int| 0 <= i < index.len() && index[i].0 == p;
    assert(i == 0);
    assert(idx_get(index, p) == prev);
    assert(idx_remove(index, p) =~= Seq::<(Seq<char>, Seq<u8>)>::empty());
    assert(seq![record].drop_first() =~= Seq::<FileRecordV>::empty());
    assert(plan_ops(project, idx_remove(index, p), seq![record].drop_first()).len() == 0);
}

} // verus!
