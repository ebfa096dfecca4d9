//! The sync queue: an append-only log of per-backend write intents, read by
//! an out-of-band self-healer.
//!
//! The logical queue is implemented and verified here over plain storage;
//! the persistence transport (typically a SQL table) is pluggable and lives
//! with the runtime, which batches writers' entries into inserts of at most
//! `WRITE_BUFFER_SIZE` rows.

use vstd::prelude::*;
use vstd::utf8::encode_utf8;

use crate::ids::BlobstoreId;
use crate::ids::MultiplexId;
use crate::ids::OperationKey;

verus! {

/// Upper bound on how many entries the batching worker folds into one
/// insert.
pub const WRITE_BUFFER_SIZE: usize = 5000;

/// One queued write intent: which key was written to which backend of which
/// multiplex, when, and under which operation key. `id` is assigned by the
/// queue on insert and is required for deletion.
#[derive(Debug)]
pub struct BlobstoreSyncQueueEntry {
    pub blobstore_key: String,
    pub blobstore_id: BlobstoreId,
    pub multiplex_id: MultiplexId,
    /// Wall-clock time of the write, in epoch nanoseconds.
    pub timestamp: i64,
    pub id: Option<u64>,
    pub operation_key: OperationKey,
}

impl BlobstoreSyncQueueEntry {
    pub fn new(
        blobstore_key: String,
        blobstore_id: BlobstoreId,
        multiplex_id: MultiplexId,
        timestamp: i64,
        operation_key: OperationKey,
    ) -> (entry: BlobstoreSyncQueueEntry)
        ensures
            entry.blobstore_key@ == blobstore_key@,
            entry.blobstore_id == blobstore_id,
            entry.multiplex_id == multiplex_id,
            entry.timestamp == timestamp,
            entry.operation_key == operation_key,
            entry.id is None,
    {
        BlobstoreSyncQueueEntry {
            blobstore_key,
            blobstore_id,
            multiplex_id,
            timestamp,
            operation_key,
            id: None,
        }
    }

    pub fn duplicate(&self) -> (entry: BlobstoreSyncQueueEntry)
        ensures
            entry == *self,
    {
        BlobstoreSyncQueueEntry {
            blobstore_key: self.blobstore_key.clone(),
            blobstore_id: self.blobstore_id,
            multiplex_id: self.multiplex_id,
            timestamp: self.timestamp,
            operation_key: self.operation_key,
            id: self.id,
        }
    }
}

/// The pattern byte that matches any run of bytes.
pub const LIKE_MANY: u8 = 0x25;

/// The pattern byte that matches exactly one byte.
pub const LIKE_ONE: u8 = 0x5f;

/// SQL-style LIKE matching over encoded bytes: `%` matches any run, `_`
/// matches one byte, anything else matches itself.
pub open spec fn like_matches(p: Seq<u8>, s: Seq<u8>) -> bool
    decreases p.len(), s.len(),
{
    if p.len() == 0 {
        s.len() == 0
    } else if p[0] == LIKE_MANY {
        like_matches(p.skip(1), s) || (s.len() > 0 && like_matches(p, s.skip(1)))
    } else {
        s.len() > 0 && (p[0] == LIKE_ONE || p[0] == s[0]) && like_matches(p.skip(1), s.skip(1))
    }
}

fn like_matches_from(p: &[u8], s: &[u8], i: usize, j: usize) -> (m: bool)
    requires
        i <= p@.len(),
        j <= s@.len(),
    ensures
        m == like_matches(p@.skip(i as int), s@.skip(j as int)),
    decreases p@.len() - i, s@.len() - j,
{
    proof {
        if i < p@.len() {
            assert(p@.skip(i as int)[0] == p@[i as int]);
            assert(p@.skip(i as int).skip(1) =~= p@.skip(i + 1));
        }
        if j < s@.len() {
            assert(s@.skip(j as int).skip(1) =~= s@.skip(j + 1));
            assert(s@.skip(j as int)[0] == s@[j as int]);
        }
    }
    if i == p.len() {
        return j == s.len();
    }
    let c = p[i];
    if c == LIKE_MANY {
        if like_matches_from(p, s, i + 1, j) {
            return true;
        }
        if j < s.len() {
            return like_matches_from(p, s, i, j + 1);
        }
        false
    } else {
        if j == s.len() {
            return false;
        }
        if c == LIKE_ONE || c == s[j] {
            like_matches_from(p, s, i + 1, j + 1)
        } else {
            false
        }
    }
}

/// Decides LIKE matching between a pattern and a key, byte-wise over their
/// UTF-8 encodings.
pub fn sql_like_match(pattern: &str, key: &str) -> (m: bool)
    ensures
        m == like_matches(encode_utf8(pattern@), encode_utf8(key@)),
{
    let pb = pattern.as_bytes();
    let kb = key.as_bytes();
    proof {
        assert(pb@.skip(0) =~= pb@);
        assert(kb@.skip(0) =~= kb@);
    }
    like_matches_from(pb, kb, 0, 0)
}

/// The entry as the queue stores it, under a freshly assigned row id.
pub open spec fn with_id(e: BlobstoreSyncQueueEntry, id: u64) -> BlobstoreSyncQueueEntry {
    BlobstoreSyncQueueEntry { id: Some(id), ..e }
}

/// The rows that inserting `es` appends, with ids assigned in order from
/// `start`.
pub open spec fn assigned_rows(es: Seq<BlobstoreSyncQueueEntry>, start: u64) -> Seq<
    BlobstoreSyncQueueEntry,
> {
    Seq::new(es.len(), |i: int| with_id(es[i], (start + i) as u64))
}

/// The logical sync queue: an append-only log of entries under unique,
/// strictly increasing row ids. Rows are never mutated; they are appended,
/// observed, and deleted.
pub struct BlobstoreSyncQueue {
    entries: Vec<BlobstoreSyncQueueEntry>,
    next_id: u64,
}

impl View for BlobstoreSyncQueue {
    type V = Seq<BlobstoreSyncQueueEntry>;

    closed spec fn view(&self) -> Seq<BlobstoreSyncQueueEntry> {
        self.entries@
    }
}

impl BlobstoreSyncQueue {
    /// Every stored row carries an assigned id, and ids increase strictly in
    /// log order and stay below the next id to assign.
    pub closed spec fn wf(&self) -> bool {
        &&& forall|i: int|
            0 <= i < self.entries@.len() ==> (#[trigger] self.entries@[i].id) is Some
                && self.entries@[i].id->Some_0 < self.next_id
        &&& forall|i: int, j: int|
            0 <= i < j < self.entries@.len() ==> self.entries@[i].id->Some_0
                < self.entries@[j].id->Some_0
    }

    /// The next row id the queue will assign.
    pub closed spec fn spec_next_id(&self) -> u64 {
        self.next_id
    }

    pub fn new() -> (q: BlobstoreSyncQueue)
        ensures
            q.wf(),
            q@ =~= Seq::<BlobstoreSyncQueueEntry>::empty(),
            q.spec_next_id() == 0,
    {
        BlobstoreSyncQueue { entries: Vec::new(), next_id: 0 }
    }

    /// Appends one entry under a fresh row id.
    pub fn add(&mut self, entry: BlobstoreSyncQueueEntry)
        requires
            old(self).wf(),
            old(self).spec_next_id() < u64::MAX,
        ensures
            final(self).wf(),
            final(self)@ == old(self)@.push(with_id(entry, old(self).spec_next_id())),
            final(self).spec_next_id() == old(self).spec_next_id() + 1,
    {
        let id = self.next_id;
        self.next_id = self.next_id + 1;
        let stored = BlobstoreSyncQueueEntry { id: Some(id), ..entry };
        self.entries.push(stored);
    }

    /// Appends a batch of entries atomically, assigning consecutive fresh
    /// row ids in order.
    pub fn add_many(&mut self, entries: Vec<BlobstoreSyncQueueEntry>)
        requires
            old(self).wf(),
            old(self).spec_next_id() + entries@.len() <= u64::MAX,
        ensures
            final(self).wf(),
            final(self)@ == old(self)@ + assigned_rows(entries@, old(self).spec_next_id()),
            final(self).spec_next_id() == old(self).spec_next_id() + entries@.len(),
    {
        let ghost q0 = self@;
        let ghost start = self.next_id;
        let ghost es = entries@;
        let n = entries.len();
        let mut entries = entries;
        let mut i: usize = 0;
        while i < n
            invariant
                n == es.len(),
                i <= n,
                entries@ == es.skip(i as int),
                self.wf(),
                start + n <= u64::MAX,
                self.spec_next_id() == start + i,
                self@ == q0 + assigned_rows(es.subrange(0, i as int), start),
            decreases n - i,
        {
            let entry = entries.remove(0);
            proof {
                assert(entry == es[i as int]);
                assert(es.skip(i as int).skip(1) =~= es.skip(i + 1));
            }
            self.add(entry);
            proof {
                assert(self@ =~= q0 + assigned_rows(es.subrange(0, i + 1), start));
            }
            i = i + 1;
        }
        proof {
            assert(es.subrange(0, n as int) =~= es);
        }
    }
}

/// The rows holding a given blobstore key, in log order, across backends and
/// multiplexes.
pub open spec fn rows_with_key(q: Seq<BlobstoreSyncQueueEntry>, key: Seq<char>) -> Seq<
    BlobstoreSyncQueueEntry,
>
    decreases q.len(),
{
    if q.len() == 0 {
        Seq::empty()
    } else {
        let rest = rows_with_key(q.drop_last(), key);
        if q.last().blobstore_key@ == key {
            rest.push(q.last())
        } else {
            rest
        }
    }
}

/// The row ids named by a deletion request; meaningful once every entry is
/// known to carry one.
pub open spec fn del_ids(es: Seq<BlobstoreSyncQueueEntry>) -> Seq<u64> {
    es.map_values(|e: BlobstoreSyncQueueEntry| e.id->Some_0)
}

/// The log after deleting the rows whose ids are named.
pub open spec fn retained(q: Seq<BlobstoreSyncQueueEntry>, victims: Seq<u64>) -> Seq<
    BlobstoreSyncQueueEntry,
>
    decreases q.len(),
{
    if q.len() == 0 {
        Seq::empty()
    } else {
        let rest = retained(q.drop_last(), victims);
        let keep = match q.last().id {
            Some(id) => !victims.contains(id),
            None => true,
        };
        if keep {
            rest.push(q.last())
        } else {
            rest
        }
    }
}

/// Every retained row is a row of the log.
pub proof fn lemma_retained_sub(q: Seq<BlobstoreSyncQueueEntry>, victims: Seq<u64>)
    ensures
        forall|k: int|
            0 <= k < retained(q, victims).len() ==> q.contains(#[trigger] retained(q, victims)[k]),
    decreases q.len(),
{
    if q.len() > 0 {
        lemma_retained_sub(q.drop_last(), victims);
        assert(forall|k: int|
            0 <= k < q.drop_last().len() && q.drop_last()[k] == retained(q.drop_last(), victims)[k]
                ==> q[k] == retained(q.drop_last(), victims)[k]);
        assert forall|k: int| 0 <= k < retained(q, victims).len() implies q.contains(
            #[trigger] retained(q, victims)[k],
        ) by {
            if k < retained(q.drop_last(), victims).len() {
                let e = retained(q.drop_last(), victims)[k];
                let j = choose|j: int| 0 <= j < q.drop_last().len() && q.drop_last()[j] == e;
                assert(q[j] == e);
            } else {
                assert(q[q.len() - 1] == retained(q, victims)[k]);
            }
        }
    }
}

/// Deletion preserves the log's shape: assigned ids, strictly increasing,
/// below the given bound.
pub proof fn lemma_retained_wf(q: Seq<BlobstoreSyncQueueEntry>, victims: Seq<u64>, bound: u64)
    requires
        forall|i: int| 0 <= i < q.len() ==> (#[trigger] q[i].id) is Some,
        forall|i: int| 0 <= i < q.len() ==> (#[trigger] q[i].id)->Some_0 < bound,
        forall|i: int, j: int| 0 <= i < j < q.len() ==> q[i].id->Some_0 < q[j].id->Some_0,
    ensures
        forall|k: int| 0 <= k < retained(q, victims).len() ==> (#[trigger] retained(q, victims)[k].id) is Some,
        forall|k: int|
            0 <= k < retained(q, victims).len() ==> (#[trigger] retained(q, victims)[k].id)->Some_0
                < bound,
        forall|a: int, b: int|
            0 <= a < b < retained(q, victims).len() ==> retained(q, victims)[a].id->Some_0
                < retained(q, victims)[b].id->Some_0,
    decreases q.len(),
{
    if q.len() > 0 {
        let dl = q.drop_last();
        lemma_retained_wf(dl, victims, bound);
        lemma_retained_sub(dl, victims);
        assert forall|k: int| 0 <= k < retained(dl, victims).len() implies (#[trigger] retained(
            dl,
            victims,
        )[k].id)->Some_0 < q.last().id->Some_0 by {
            let e = retained(dl, victims)[k];
            let j = choose|j: int| 0 <= j < dl.len() && dl[j] == e;
            assert(q[j] == e);
            assert(q[j].id->Some_0 < q[q.len() - 1].id->Some_0);
        }
    }
}

/// Whether an entry satisfies the scan predicates: same multiplex, old
/// enough, and matching the optional LIKE pattern.
pub open spec fn entry_selectable(
    e: BlobstoreSyncQueueEntry,
    pat: Option<Seq<char>>,
    multiplex_id: MultiplexId,
    older_than: i64,
) -> bool {
    &&& e.multiplex_id == multiplex_id
    &&& e.timestamp <= older_than
    &&& match pat {
        None => true,
        Some(p) => like_matches(encode_utf8(p), encode_utf8(e.blobstore_key@)),
    }
}

/// The first `limit` distinct operation keys among entries satisfying the
/// scan predicates, in log order.
pub open spec fn selected_keys(
    q: Seq<BlobstoreSyncQueueEntry>,
    pat: Option<Seq<char>>,
    multiplex_id: MultiplexId,
    older_than: i64,
    limit: nat,
) -> Seq<OperationKey>
    decreases q.len(),
{
    if q.len() == 0 {
        Seq::empty()
    } else {
        let pre = selected_keys(q.drop_last(), pat, multiplex_id, older_than, limit);
        if pre.len() < limit && entry_selectable(q.last(), pat, multiplex_id, older_than)
            && !pre.contains(q.last().operation_key) {
            pre.push(q.last().operation_key)
        } else {
            pre
        }
    }
}

/// Every row of the multiplex sharing one of the given operation keys, in
/// log order.
pub open spec fn rows_with_keys(
    q: Seq<BlobstoreSyncQueueEntry>,
    keys: Seq<OperationKey>,
    multiplex_id: MultiplexId,
) -> Seq<BlobstoreSyncQueueEntry>
    decreases q.len(),
{
    if q.len() == 0 {
        Seq::empty()
    } else {
        let rest = rows_with_keys(q.drop_last(), keys, multiplex_id);
        if q.last().multiplex_id == multiplex_id && keys.contains(q.last().operation_key) {
            rest.push(q.last())
        } else {
            rest
        }
    }
}

/// A scan names at most `limit` operation keys, each once.
pub proof fn lemma_selected_keys_limited(
    q: Seq<BlobstoreSyncQueueEntry>,
    pat: Option<Seq<char>>,
    multiplex_id: MultiplexId,
    older_than: i64,
    limit: nat,
)
    ensures
        selected_keys(q, pat, multiplex_id, older_than, limit).len() <= limit,
        forall|a: int, b: int|
            0 <= a < b < selected_keys(q, pat, multiplex_id, older_than, limit).len()
                ==> selected_keys(q, pat, multiplex_id, older_than, limit)[a] != selected_keys(
                q,
                pat,
                multiplex_id,
                older_than,
                limit,
            )[b],
    decreases q.len(),
{
    if q.len() > 0 {
        lemma_selected_keys_limited(q.drop_last(), pat, multiplex_id, older_than, limit);
    }
}

/// The closed-set law of a scan: the returned rows are rows of the log, all
/// within the requested multiplex and under the selected keys; and every row
/// of that multiplex under a selected key is returned, so the healer sees
/// all sibling replicas of every operation it considers.
pub proof fn lemma_iter_closed(
    q: Seq<BlobstoreSyncQueueEntry>,
    keys: Seq<OperationKey>,
    multiplex_id: MultiplexId,
)
    ensures
        forall|k: int|
            0 <= k < rows_with_keys(q, keys, multiplex_id).len() ==> {
                let e = #[trigger] rows_with_keys(q, keys, multiplex_id)[k];
                q.contains(e) && e.multiplex_id == multiplex_id && keys.contains(e.operation_key)
            },
        forall|i: int|
            0 <= i < q.len() && (#[trigger] q[i]).multiplex_id == multiplex_id && keys.contains(
                q[i].operation_key,
            ) ==> rows_with_keys(q, keys, multiplex_id).contains(q[i]),
    decreases q.len(),
{
    if q.len() > 0 {
        let dl = q.drop_last();
        let rows = rows_with_keys(q, keys, multiplex_id);
        let pre = rows_with_keys(dl, keys, multiplex_id);
        lemma_iter_closed(dl, keys, multiplex_id);
        assert forall|k: int| 0 <= k < rows.len() implies {
            let e = #[trigger] rows[k];
            q.contains(e) && e.multiplex_id == multiplex_id && keys.contains(e.operation_key)
        } by {
            if k < pre.len() {
                let e = pre[k];
                let j = choose|j: int| 0 <= j < dl.len() && dl[j] == e;
                assert(q[j] == e);
            } else {
                assert(q[q.len() - 1] == rows[k]);
            }
        }
        assert forall|i: int|
            0 <= i < q.len() && (#[trigger] q[i]).multiplex_id == multiplex_id && keys.contains(
                q[i].operation_key,
            ) implies rows.contains(q[i]) by {
            if i < q.len() - 1 {
                assert(dl[i] == q[i]);
                let k = choose|k: int| 0 <= k < pre.len() && pre[k] == q[i];
                assert(rows[k] == q[i]);
            } else {
                assert(rows[rows.len() - 1] == q[i]);
            }
        }
    }
}

impl BlobstoreSyncQueue {
    /// All rows for a given blobstore key, across backends and multiplexes,
    /// in log order.
    pub fn get(&self, key: &String) -> (rows: Vec<BlobstoreSyncQueueEntry>)
        ensures
            rows@ == rows_with_key(self@, key@),
    {
        let n = self.entries.len();
        let mut rows: Vec<BlobstoreSyncQueueEntry> = Vec::new();
        let mut i: usize = 0;
        while i < n
            invariant
                n == self@.len(),
                i <= n,
                rows@ == rows_with_key(self@.subrange(0, i as int), key@),
            decreases n - i,
        {
            proof {
                assert(self@.subrange(0, i + 1).drop_last() =~= self@.subrange(0, i as int));
                assert(self@.subrange(0, i + 1).last() == self@[i as int]);
            }
            if self.entries[i].blobstore_key == *key {
                rows.push(self.entries[i].duplicate());
            }
            i = i + 1;
        }
        proof {
            assert(self@.subrange(0, n as int) =~= self@);
        }
        rows
    }

    /// Deletes the given rows by id. Every entry must carry an assigned id;
    /// one without is a programmer error and fails the whole call at once,
    /// deleting nothing.
    pub fn del(&mut self, entries: &Vec<BlobstoreSyncQueueEntry>) -> (r: Result<(), String>)
        requires
            old(self).wf(),
        ensures
            final(self).wf(),
            final(self).spec_next_id() == old(self).spec_next_id(),
            r is Err <==> exists|i: int| 0 <= i < entries@.len() && (#[trigger] entries@[i].id) is None,
            r matches Err(m) ==> final(self)@ == old(self)@ && m@
                == "BlobstoreSyncQueueEntry must contain `id` to be able to delete it"@,
            r is Ok ==> final(self)@ == retained(old(self)@, del_ids(entries@)),
    {
        let n_victims = entries.len();
        let mut ids: Vec<u64> = Vec::new();
        let mut v: usize = 0;
        while v < n_victims
            invariant
                n_victims == entries@.len(),
                v <= n_victims,
                *self == *old(self),
                self.wf(),
                forall|j: int| 0 <= j < v ==> (#[trigger] entries@[j].id) is Some,
                ids@ == del_ids(entries@.subrange(0, v as int)),
            decreases n_victims - v,
        {
            proof {
                assert(del_ids(entries@.subrange(0, v + 1)) =~= del_ids(
                    entries@.subrange(0, v as int),
                ).push(entries@[v as int].id->Some_0));
            }
            match entries[v].id {
                Some(id) => {
                    ids.push(id);
                },
                None => {
                    return Err(
                        "BlobstoreSyncQueueEntry must contain `id` to be able to delete it".to_owned(),
                    );
                },
            }
            v = v + 1;
        }
        proof {
            assert(entries@.subrange(0, n_victims as int) =~= entries@);
        }
        let ghost q0 = self@;
        let n = self.entries.len();
        let mut kept: Vec<BlobstoreSyncQueueEntry> = Vec::new();
        let mut i: usize = 0;
        while i < n
            invariant
                n == q0.len(),
                self@ == q0,
                i <= n,
                ids@ == del_ids(entries@),
                kept@ == retained(q0.subrange(0, i as int), ids@),
            decreases n - i,
        {
            proof {
                assert(q0.subrange(0, i + 1).drop_last() =~= q0.subrange(0, i as int));
                assert(q0.subrange(0, i + 1).last() == q0[i as int]);
            }
            let keep = match self.entries[i].id {
                Some(id) => !ids_contain(&ids, id),
                None => true,
            };
            if keep {
                kept.push(self.entries[i].duplicate());
            }
            i = i + 1;
        }
        proof {
            assert(q0.subrange(0, n as int) =~= q0);
            lemma_retained_wf(q0, ids@, self.next_id);
        }
        self.entries = kept;
        Ok(())
    }

    /// The healer's scan: up to `limit` distinct operation keys among rows
    /// of the multiplex older than `older_than` (optionally constrained by a
    /// LIKE pattern on the blobstore key), together with every row of the
    /// multiplex sharing any of those keys. The result is a closed set: no
    /// follow-up query is needed to see all sibling replicas of a returned
    /// operation.
    pub fn iter(
        &self,
        key_like: Option<&String>,
        multiplex_id: MultiplexId,
        older_than: i64,
        limit: usize,
    ) -> (rows: Vec<BlobstoreSyncQueueEntry>)
        ensures
            rows@ == rows_with_keys(
                self@,
                selected_keys(self@, pat_view(key_like), multiplex_id, older_than, limit as nat),
                multiplex_id,
            ),
    {
        let ghost pat = pat_view(key_like);
        let n = self.entries.len();
        let mut keys: Vec<OperationKey> = Vec::new();
        let mut i: usize = 0;
        while i < n
            invariant
                n == self@.len(),
                i <= n,
                pat == pat_view(key_like),
                keys@ == selected_keys(
                    self@.subrange(0, i as int),
                    pat,
                    multiplex_id,
                    older_than,
                    limit as nat,
                ),
                keys@.len() <= limit,
            decreases n - i,
        {
            proof {
                assert(self@.subrange(0, i + 1).drop_last() =~= self@.subrange(0, i as int));
                assert(self@.subrange(0, i + 1).last() == self@[i as int]);
            }
            let e = &self.entries[i];
            let ghost ecur = self@[i as int];
            if keys.len() < limit && e.multiplex_id == multiplex_id && e.timestamp <= older_than {
                let pattern_ok = match key_like {
                    None => true,
                    Some(p) => sql_like_match(p.as_str(), e.blobstore_key.as_str()),
                };
                proof {
                    assert(pattern_ok == entry_selectable(ecur, pat, multiplex_id, older_than));
                }
                if pattern_ok && !keys_contain(&keys, e.operation_key) {
                    keys.push(e.operation_key);
                }
            }
            i = i + 1;
        }
        proof {
            assert(self@.subrange(0, n as int) =~= self@);
        }
        let mut rows: Vec<BlobstoreSyncQueueEntry> = Vec::new();
        let mut i: usize = 0;
        while i < n
            invariant
                n == self@.len(),
                i <= n,
                keys@ == selected_keys(self@, pat, multiplex_id, older_than, limit as nat),
                rows@ == rows_with_keys(self@.subrange(0, i as int), keys@, multiplex_id),
            decreases n - i,
        {
            proof {
                assert(self@.subrange(0, i + 1).drop_last() =~= self@.subrange(0, i as int));
                assert(self@.subrange(0, i + 1).last() == self@[i as int]);
            }
            let e = &self.entries[i];
            if e.multiplex_id == multiplex_id && keys_contain(&keys, e.operation_key) {
                rows.push(e.duplicate());
            }
            i = i + 1;
        }
        proof {
            assert(self@.subrange(0, n as int) =~= self@);
        }
        rows
    }
}

/// The view of an optional LIKE pattern.
pub open spec fn pat_view(key_like: Option<&String>) -> Option<Seq<char>> {
    match key_like {
        None => None,
        Some(p) => Some(p@),
    }
}

/// Decides membership of an id in a list of row ids.
fn ids_contain(ids: &Vec<u64>, x: u64) -> (present: bool)
    ensures
        present == ids@.contains(x),
{
    let n = ids.len();
    let mut i: usize = 0;
    while i < n
        invariant
            n == ids@.len(),
            i <= n,
            forall|j: int| 0 <= j < i ==> ids@[j] != x,
        decreases n - i,
    {
        if ids[i] == x {
            return true;
        }
        i = i + 1;
    }
    false
}

/// Decides membership of an operation key in a list of keys.
fn keys_contain(keys: &Vec<OperationKey>, key: OperationKey) -> (present: bool)
    ensures
        present == keys@.contains(key),
{
    let n = keys.len();
    let mut i: usize = 0;
    while i < n
        invariant
            n == keys@.len(),
            i <= n,
            forall|j: int| 0 <= j < i ==> keys@[j] != key,
        decreases n - i,
    {
        if keys[i].0 == key.0 {
            return true;
        }
        i = i + 1;
    }
    false
}

/// Reduces the per-entry outcomes of one insert batch to one shared result:
/// success only when every entry persisted, else the first failure, so a
/// failed batch surfaces to every caller whose entry was in it.
pub fn aggregate_batch_results(results: &Vec<Result<(), String>>) -> (r: Result<(), String>)
    ensures
        r is Ok <==> (forall|i: int| 0 <= i < results@.len() ==> results@[i] is Ok),
        r matches Err(m) ==> exists|i: int|
            0 <= i < results@.len() && results@[i] is Err && m@ == results@[i]->Err_0@ && (forall|
                j: int,
            |
                0 <= j < i ==> results@[j] is Ok),
{
    let n = results.len();
    let mut i: usize = 0;
    while i < n
        invariant
            n == results@.len(),
            i <= n,
            forall|j: int| 0 <= j < i ==> results@[j] is Ok,
        decreases n - i,
    {
        match &results[i] {
            Ok(()) => {},
            Err(m) => {
                return Err(m.clone());
            },
        }
        i = i + 1;
    }
    Ok(())
}

} // verus!
