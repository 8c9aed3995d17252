//! The update log store: an append-only log of binary update fragments per
//! document id. Fragments are stored verbatim, never parsed, and are handed
//! back in the exact order they were committed, so that replaying them
//! reconstructs the document deterministically.

use vstd::prelude::*;
use vstd::slice::slice_to_vec;

verus! {

/// Failures of the update log store.
#[derive(Debug, Clone, Copy, PartialEq, Eq, Structural)]
pub enum StoreError {
    /// The backing store failed to persist a fragment.
    Io,
    /// The backing store itself is unreachable.
    NotFound,
}

impl StoreError {
    /// A short description of the failure.
    pub fn message(&self) -> (r: String)
        ensures
            *self is Io ==> r@ == "update log store failed to persist"@,
            *self is NotFound ==> r@ == "update log store is unreachable"@,
    {
        match self {
            StoreError::Io => String::from_str("update log store failed to persist"),
            StoreError::NotFound => String::from_str("update log store is unreachable"),
        }
    }
}

/// The mathematical view of a sequence of owned blobs.
pub open spec fn blob_seq(blobs: Seq<Vec<u8>>) -> Seq<Seq<u8>> {
    blobs.map_values(|b: Vec<u8>| b@)
}

/// The update log of one document: its id and its fragments in commit order.
struct DocLog {
    id: String,
    blobs: Vec<Vec<u8>>,
}

/// The fragments recorded for `id`: those of the first log entry carrying
/// that id, or the empty sequence when no entry does.
spec fn find_blobs(logs: Seq<DocLog>, id: Seq<char>) -> Seq<Seq<u8>>
    decreases logs.len(),
{
    if logs.len() == 0 {
        Seq::<Seq<u8>>::empty()
    } else if logs[0].id@ == id {
        blob_seq(logs[0].blobs@)
    } else {
        find_blobs(logs.drop_first(), id)
    }
}

/// Replacing the first entry for an id changes that id's log alone.
proof fn lemma_find_update(logs: Seq<DocLog>, i: int, e: DocLog, x: Seq<char>)
    requires
        0 <= i < logs.len(),
        forall|j: int| 0 <= j < i ==> logs[j].id@ != logs[i].id@,
        e.id@ == logs[i].id@,
    ensures
        find_blobs(logs.update(i, e), x) == if x == logs[i].id@ {
            blob_seq(e.blobs@)
        } else {
            find_blobs(logs, x)
        },
    decreases i,
{
    let updated = logs.update(i, e);
    if i == 0 {
        assert(updated[0] == e);
        if x != logs[0].id@ {
            assert(updated.drop_first() =~= logs.drop_first());
        }
    } else {
        assert(updated[0] == logs[0]);
        if x == logs[0].id@ {
        } else {
            assert(updated.drop_first() =~= logs.drop_first().update(i - 1, e));
            lemma_find_update(logs.drop_first(), i - 1, e, x);
        }
    }
}

/// Appending a log entry for a fresh id changes that id's log alone.
proof fn lemma_find_push(logs: Seq<DocLog>, e: DocLog, x: Seq<char>)
    requires
        forall|j: int| 0 <= j < logs.len() ==> logs[j].id@ != e.id@,
    ensures
        find_blobs(logs.push(e), x) == if x == e.id@ {
            blob_seq(e.blobs@)
        } else {
            find_blobs(logs, x)
        },
    decreases logs.len(),
{
    let pushed = logs.push(e);
    if logs.len() == 0 {
        assert(pushed[0] == e);
        if x == e.id@ {
            assert(find_blobs(pushed, x) == blob_seq(e.blobs@));
        } else {
            assert(pushed.drop_first() =~= Seq::<DocLog>::empty());
            assert(find_blobs(pushed.drop_first(), x) == Seq::<Seq<u8>>::empty());
            assert(find_blobs(pushed, x) == Seq::<Seq<u8>>::empty());
            assert(find_blobs(logs, x) == Seq::<Seq<u8>>::empty());
        }
    } else {
        assert(pushed[0] == logs[0]);
        assert(pushed.drop_first() =~= logs.drop_first().push(e));
        if x != logs[0].id@ {
            lemma_find_push(logs.drop_first(), e, x);
        }
    }
}

/// The log of an id whose first entry stands at `i`.
proof fn lemma_find_at(logs: Seq<DocLog>, i: int)
    requires
        0 <= i < logs.len(),
        forall|j: int| 0 <= j < i ==> logs[j].id@ != logs[i].id@,
    ensures
        find_blobs(logs, logs[i].id@) == blob_seq(logs[i].blobs@),
    decreases i,
{
    if i > 0 {
        lemma_find_at(logs.drop_first(), i - 1);
    }
}

/// An id with no entry has the empty log.
proof fn lemma_find_absent(logs: Seq<DocLog>, x: Seq<char>)
    requires
        forall|j: int| 0 <= j < logs.len() ==> logs[j].id@ != x,
    ensures
        find_blobs(logs, x) == Seq::<Seq<u8>>::empty(),
    decreases logs.len(),
{
    if logs.len() > 0 {
        lemma_find_absent(logs.drop_first(), x);
    }
}

/// An append-only store of update fragments keyed by document id.
///
/// The model distinguishes a reachable backing store from an unreachable
/// one: on an unreachable store every operation fails and nothing changes.
pub struct UpdateLogStore {
    logs: Vec<DocLog>,
    reachable: bool,
}

impl UpdateLogStore {
    /// Whether the backing store can be reached at all.
    pub closed spec fn available(self) -> bool {
        self.reachable
    }

    /// The fragments stored for a document id, in commit order; the empty
    /// sequence for an id that no write has touched.
    pub closed spec fn log_of(self, id: Seq<char>) -> Seq<Seq<u8>> {
        find_blobs(self.logs@, id)
    }

    /// An empty, reachable store.
    pub fn new() -> (s: UpdateLogStore)
        ensures
            s.available(),
            forall|id: Seq<char>| s.log_of(id) == Seq::<Seq<u8>>::empty(),
    {
        UpdateLogStore { logs: Vec::new(), reachable: true }
    }

    /// A store whose backing store is unreachable: every operation on it
    /// fails.
    pub fn new_unavailable() -> (s: UpdateLogStore)
        ensures
            !s.available(),
            forall|id: Seq<char>| s.log_of(id) == Seq::<Seq<u8>>::empty(),
    {
        UpdateLogStore { logs: Vec::new(), reachable: false }
    }

    /// The index of the first log entry carrying `doc_id`, if any.
    fn find_index(logs: &Vec<DocLog>, doc_id: &String) -> (r: Option<usize>)
        ensures
            match r {
                Some(i) => i < logs@.len() && logs@[i as int].id@ == doc_id@ && forall|j: int|
                    0 <= j < i ==> logs@[j].id@ != doc_id@,
                None => forall|j: int| 0 <= j < logs@.len() ==> logs@[j].id@ != doc_id@,
            },
    {
        let mut i: usize = 0;
        while i < logs.len()
            invariant
                i <= logs@.len(),
                forall|j: int| 0 <= j < i ==> logs@[j].id@ != doc_id@,
            decreases logs@.len() - i,
        {
            if logs[i].id == *doc_id {
                return Some(i);
            }
            i += 1;
        }
        None
    }

    /// Appends `blob` as a new fragment for `doc_id`, creating the log when
    /// absent. The log is append-only: the same blob written twice is stored
    /// twice, and no other document's log changes. Fails, changing nothing,
    /// exactly when the backing store is unreachable.
    pub fn write(&mut self, doc_id: &String, blob: Vec<u8>) -> (r: Result<(), StoreError>)
        ensures
            final(self).available() == old(self).available(),
            r is Ok <==> old(self).available(),
            !old(self).available() ==> r == Err::<(), StoreError>(StoreError::Io) && *final(self)
                == *old(self),
            old(self).available() ==> final(self).log_of(doc_id@) == old(self).log_of(
                doc_id@,
            ).push(blob@) && forall|other: Seq<char>|
                other != doc_id@ ==> final(self).log_of(other) == old(self).log_of(other),
    {
        if !self.reachable {
            return Err(StoreError::Io);
        }
        let ghost blob_v = blob@;
        match Self::find_index(&self.logs, doc_id) {
            Some(i) => {
                let ghost old_logs = self.logs@;
                let mut entry = self.logs.remove(i);
                let ghost old_blobs = entry.blobs@;
                entry.blobs.push(blob);
                self.logs.insert(i, entry);
                proof {
                    assert(self.logs@ =~= old_logs.update(i as int, entry));
                    assert(blob_seq(entry.blobs@) =~= blob_seq(old_blobs).push(blob_v));
                    lemma_find_at(old_logs, i as int);
                    assert forall|x: Seq<char>| true implies find_blobs(
                        old_logs.update(i as int, entry),
                        x,
                    ) == if x == old_logs[i as int].id@ {
                        blob_seq(entry.blobs@)
                    } else {
                        find_blobs(old_logs, x)
                    } by {
                        lemma_find_update(old_logs, i as int, entry, x);
                    }
                }
                Ok(())
            },
            None => {
                let ghost old_logs = self.logs@;
                let entry = DocLog { id: doc_id.clone(), blobs: vec![blob] };
                proof {
                    assert(blob_seq(entry.blobs@) =~= Seq::<Seq<u8>>::empty().push(blob_v));
                }
                self.logs.push(entry);
                proof {
                    lemma_find_absent(old_logs, doc_id@);
                    assert forall|x: Seq<char>| true implies find_blobs(old_logs.push(entry), x)
                        == if x == doc_id@ {
                        blob_seq(entry.blobs@)
                    } else {
                        find_blobs(old_logs, x)
                    } by {
                        lemma_find_push(old_logs, entry, x);
                    }
                }
                Ok(())
            },
        }
    }

    /// Returns all fragments for `doc_id` in storage order; the empty
    /// sequence — not an error — when the document has no fragments. Fails
    /// exactly when the backing store is unreachable.
    pub fn read_all(&self, doc_id: &String) -> (r: Result<Vec<Vec<u8>>, StoreError>)
        ensures
            self.available() ==> (r matches Ok(blobs) && blob_seq(blobs@) == self.log_of(doc_id@)),
            !self.available() ==> r == Err::<Vec<Vec<u8>>, StoreError>(StoreError::NotFound),
    {
        if !self.reachable {
            return Err(StoreError::NotFound);
        }
        match Self::find_index(&self.logs, doc_id) {
            Some(i) => {
                let entry_blobs = &self.logs[i].blobs;
                let mut out: Vec<Vec<u8>> = Vec::new();
                let mut j: usize = 0;
                while j < entry_blobs.len()
                    invariant
                        j <= entry_blobs@.len(),
                        blob_seq(out@) =~= blob_seq(entry_blobs@).take(j as int),
                    decreases entry_blobs@.len() - j,
                {
                    let v = slice_to_vec(entry_blobs[j].as_slice());
                    let ghost vv = v@;
                    let ghost prev = out@;
                    proof {
                        assert(vv == entry_blobs@[j as int]@);
                    }
                    out.push(v);
                    proof {
                        assert(blob_seq(prev).len() == prev.len());
                        assert(blob_seq(entry_blobs@).take(j as int).len() == j);
                        assert(out@.len() == j + 1);
                        assert forall|k: int| 0 <= k < j + 1 implies blob_seq(out@)[k] == blob_seq(
                            entry_blobs@,
                        ).take(j as int + 1)[k] by {
                            assert(blob_seq(out@)[k] == out@[k]@);
                            if k < j {
                                assert(out@[k] == prev[k]);
                                assert(blob_seq(prev)[k] == blob_seq(entry_blobs@).take(
                                    j as int,
                                )[k]);
                                assert(blob_seq(entry_blobs@).take(j as int)[k] == blob_seq(
                                    entry_blobs@,
                                )[k]);
                                assert(blob_seq(entry_blobs@).take(j as int + 1)[k] == blob_seq(
                                    entry_blobs@,
                                )[k]);
                            } else {
                                assert(out@[k]@ == vv);
                                assert(blob_seq(entry_blobs@).take(j as int + 1)[k] == blob_seq(
                                    entry_blobs@,
                                )[j as int]);
                            }
                        }
                        assert(blob_seq(out@) =~= blob_seq(entry_blobs@).take(j as int + 1));
                    }
                    j += 1;
                }
                proof {
                    assert(blob_seq(entry_blobs@).take(entry_blobs@.len() as int) =~= blob_seq(
                        entry_blobs@,
                    ));
                    lemma_find_at(self.logs@, i as int);
                }
                Ok(out)
            },
            None => {
                proof {
                    lemma_find_absent(self.logs@, doc_id@);
                }
                Ok(Vec::new())
            },
        }
    }

    /// Stores an update received from a remote client. Semantically an
    /// append, exactly as `write`: the incoming update replaces the client's
    /// view of the document, not the fragments already stored.
    pub fn replace(&mut self, doc_id: &String, blob: Vec<u8>) -> (r: Result<(), StoreError>)
        ensures
            final(self).available() == old(self).available(),
            r is Ok <==> old(self).available(),
            !old(self).available() ==> r == Err::<(), StoreError>(StoreError::Io) && *final(self)
                == *old(self),
            old(self).available() ==> final(self).log_of(doc_id@) == old(self).log_of(
                doc_id@,
            ).push(blob@) && forall|other: Seq<char>|
                other != doc_id@ ==> final(self).log_of(other) == old(self).log_of(other),
    {
        self.write(doc_id, blob)
    }
}

/// The log that results from a batch of writes, submitted one after another.
pub open spec fn appended_log(log: Seq<Seq<u8>>, writes: Seq<Seq<u8>>) -> Seq<Seq<u8>>
    decreases writes.len(),
{
    if writes.len() == 0 {
        log
    } else {
        appended_log(log.push(writes[0]), writes.drop_first())
    }
}

/// A single writer's submissions land in submission order: after writes
/// `w1..wn` to one document id, that id's log is the old log followed by
/// exactly `[w1..wn]`.
pub proof fn lemma_writes_in_order(log: Seq<Seq<u8>>, writes: Seq<Seq<u8>>)
    ensures
        appended_log(log, writes) == log + writes,
    decreases writes.len(),
{
    if writes.len() == 0 {
        assert(log + writes =~= log);
    } else {
        lemma_writes_in_order(log.push(writes[0]), writes.drop_first());
        assert(log.push(writes[0]) + writes.drop_first() =~= log + writes);
    }
}

} // verus!
