//! The on-disk mtime database: its contents, lookups and batched writes.
use crate::cache::{flushed_count, BATCH_SIZE};
use crate::metrics::{bump, Metrics};
use crate::keyorder::{key_lt, key_bytes, lemma_lex_irreflexive};
use crate::strmap::{
    fold_insert, is_listing, is_sorted_listing, lemma_fold_insert_listing, lemma_sorted_listing_is_listing,
    listing_view, StrMap,
};
use vstd::prelude::*;

verus! {

/// The database's contents: for each path, the mtime recorded for each SHA-256 of it.
pub type MtimeDb = Map<Seq<char>, Map<Seq<char>, i64>>;

/// The mtime recorded for `path` with content hash `sha256`, if any.
pub open spec fn lookup(db: MtimeDb, path: Seq<char>, sha256: Seq<char>) -> Option<i64> {
    if db.contains_key(path) && db[path].contains_key(sha256) {
        Some(db[path][sha256])
    } else {
        None
    }
}

/// `db` with `mtime` recorded for `path` and `sha256`, other records kept.
pub open spec fn store(db: MtimeDb, path: Seq<char>, sha256: Seq<char>, mtime: i64) -> MtimeDb {
    let hashes = if db.contains_key(path) {
        db[path]
    } else {
        Map::empty()
    };
    db.insert(path, hashes.insert(sha256, mtime))
}

/// A queued write: path, SHA-256 and mtime.
pub open spec fn write_view(w: (String, String, i64)) -> (Seq<char>, Seq<char>, i64) {
    (w.0@, w.1@, w.2)
}

/// The queued writes, as values.
pub open spec fn writes_view(batch: Seq<(String, String, i64)>) -> Seq<(Seq<char>, Seq<char>, i64)> {
    batch.map_values(|w: (String, String, i64)| write_view(w))
}

/// `db` after the writes, applied in order.
pub open spec fn apply_writes(db: MtimeDb, writes: Seq<(Seq<char>, Seq<char>, i64)>) -> MtimeDb
    decreases writes.len(),
{
    if writes.len() == 0 {
        db
    } else {
        let w = writes.last();
        store(apply_writes(db, writes.drop_last()), w.0, w.1, w.2)
    }
}

/// The last mtime that `writes` give for `path` and `sha256`, if any.
pub open spec fn last_write(writes: Seq<(Seq<char>, Seq<char>, i64)>, path: Seq<char>, sha256: Seq<char>) -> Option<i64>
    decreases writes.len(),
{
    if writes.len() == 0 {
        None
    } else if writes.last().0 == path && writes.last().1 == sha256 {
        Some(writes.last().2)
    } else {
        last_write(writes.drop_last(), path, sha256)
    }
}

/// A query gives back what was last recorded for that path and hash, and recording
/// one pair leaves every other pair as it was.
pub proof fn lemma_lookup_after_store(
    db: MtimeDb,
    path: Seq<char>,
    sha256: Seq<char>,
    mtime: i64,
    other_path: Seq<char>,
    other_sha256: Seq<char>,
)
    ensures
        lookup(store(db, path, sha256, mtime), path, sha256) == Some(mtime),
        !(other_path == path && other_sha256 == sha256) ==> lookup(
            store(db, path, sha256, mtime),
            other_path,
            other_sha256,
        ) == lookup(db, other_path, other_sha256),
{
}

/// After a sequence of writes, a query gives the last mtime written for its path and
/// hash, or, if none was written, what the database held before.
pub proof fn lemma_lookup_after_writes(
    db: MtimeDb,
    writes: Seq<(Seq<char>, Seq<char>, i64)>,
    path: Seq<char>,
    sha256: Seq<char>,
)
    ensures
        lookup(apply_writes(db, writes), path, sha256) == match last_write(writes, path, sha256) {
            Some(m) => Some(m),
            None => lookup(db, path, sha256),
        },
    decreases writes.len(),
{
    if writes.len() > 0 {
        let w = writes.last();
        lemma_lookup_after_writes(db, writes.drop_last(), path, sha256);
        lemma_lookup_after_store(apply_writes(db, writes.drop_last()), w.0, w.1, w.2, path, sha256);
    }
}

/// Whether no write after position `i` of `batch` is for the same path and hash.
pub open spec fn is_last_for_pair(batch: Seq<(String, String, i64)>, i: int) -> bool {
    forall|j: int| i < j < batch.len() ==> !(#[trigger] batch[j].0@ == batch[i].0@ && batch[j].1@ == batch[i].1@)
}

/// Whether some write of `batch` is for `path` and `sha256`.
pub open spec fn batch_writes_pair(batch: Seq<(String, String, i64)>, path: Seq<char>, sha256: Seq<char>) -> bool {
    exists|j: int| 0 <= j < batch.len() && #[trigger] batch[j].0@ == path && batch[j].1@ == sha256
}

proof fn lemma_batch_last_step(db: MtimeDb, batch: Seq<(String, String, i64)>)
    requires
        batch.len() > 0,
    ensures
        apply_writes(db, writes_view(batch)) == store(
            apply_writes(db, writes_view(batch.drop_last())),
            batch.last().0@,
            batch.last().1@,
            batch.last().2,
        ),
{
    let wv = writes_view(batch);
    assert(wv.drop_last() =~= writes_view(batch.drop_last()));
    assert(wv.last() == write_view(batch.last()));
}

proof fn lemma_batch_written_pair(db: MtimeDb, batch: Seq<(String, String, i64)>, i: int)
    requires
        0 <= i < batch.len(),
        is_last_for_pair(batch, i),
    ensures
        lookup(apply_writes(db, writes_view(batch)), batch[i].0@, batch[i].1@) == Some(batch[i].2),
    decreases batch.len(),
{
    let prev = batch.drop_last();
    let n = batch.len() - 1;
    lemma_batch_last_step(db, batch);
    let before = apply_writes(db, writes_view(prev));
    lemma_lookup_after_store(before, batch[n].0@, batch[n].1@, batch[n].2, batch[i].0@, batch[i].1@);
    if i < n {
        assert(!(batch[n].0@ == batch[i].0@ && batch[n].1@ == batch[i].1@));
        assert(prev[i] == batch[i]);
        assert forall|j: int| i < j < prev.len() implies !(#[trigger] prev[j].0@ == prev[i].0@ && prev[j].1@
            == prev[i].1@) by {
            assert(prev[j] == batch[j]);
        }
        lemma_batch_written_pair(db, prev, i);
    }
}

proof fn lemma_batch_unwritten_pair(db: MtimeDb, batch: Seq<(String, String, i64)>, path: Seq<char>, sha256: Seq<char>)
    requires
        !batch_writes_pair(batch, path, sha256),
    ensures
        lookup(apply_writes(db, writes_view(batch)), path, sha256) == lookup(db, path, sha256),
    decreases batch.len(),
{
    if batch.len() > 0 {
        let prev = batch.drop_last();
        let n = batch.len() - 1;
        lemma_batch_last_step(db, batch);
        if batch_writes_pair(prev, path, sha256) {
            let j = choose|j: int| 0 <= j < prev.len() && #[trigger] prev[j].0@ == path && prev[j].1@ == sha256;
            assert(batch[j] == prev[j]);
        }
        assert(!(batch[n].0@ == path && batch[n].1@ == sha256));
        lemma_batch_unwritten_pair(db, prev, path, sha256);
        lemma_lookup_after_store(
            apply_writes(db, writes_view(prev)),
            batch[n].0@,
            batch[n].1@,
            batch[n].2,
            path,
            sha256,
        );
    }
}

/// After a batch of queued writes, each (path, hash) that the batch writes gives back
/// the mtime of its last write in the batch, found under the path and hash exactly as
/// queued; every pair the batch does not write gives what it gave before.
pub proof fn lemma_batch_results(db: MtimeDb, batch: Seq<(String, String, i64)>)
    ensures
        forall|i: int|
            0 <= i < batch.len() && is_last_for_pair(batch, i) ==> lookup(
                apply_writes(db, writes_view(batch)),
                (#[trigger] batch[i]).0@,
                batch[i].1@,
            ) == Some(batch[i].2),
        forall|path: Seq<char>, sha256: Seq<char>|
            !batch_writes_pair(batch, path, sha256) ==> #[trigger] lookup(
                apply_writes(db, writes_view(batch)),
                path,
                sha256,
            ) == lookup(db, path, sha256),
{
    assert forall|i: int| 0 <= i < batch.len() && is_last_for_pair(batch, i) implies lookup(
        apply_writes(db, writes_view(batch)),
        (#[trigger] batch[i]).0@,
        batch[i].1@,
    ) == Some(batch[i].2) by {
        lemma_batch_written_pair(db, batch, i);
    }
    assert forall|path: Seq<char>, sha256: Seq<char>| !batch_writes_pair(batch, path, sha256) implies #[trigger] lookup(
        apply_writes(db, writes_view(batch)),
        path,
        sha256,
    ) == lookup(db, path, sha256) by {
        lemma_batch_unwritten_pair(db, batch, path, sha256);
    }
}

/// Writing in batches gives the same database as writing everything at once: the
/// writes of `first` then those of `second` equal the writes of both, in order.
pub proof fn lemma_apply_writes_append(
    db: MtimeDb,
    first: Seq<(Seq<char>, Seq<char>, i64)>,
    second: Seq<(Seq<char>, Seq<char>, i64)>,
)
    ensures
        apply_writes(apply_writes(db, first), second) == apply_writes(db, first + second),
    decreases second.len(),
{
    if second.len() == 0 {
        assert(first + second =~= first);
    } else {
        lemma_apply_writes_append(db, first, second.drop_last());
        assert((first + second).drop_last() =~= first + second.drop_last());
        assert((first + second).last() == second.last());
    }
}

/// The database that a list of records describes: each path with the map of its
/// (hash, mtime) pairs, later entries winning over earlier ones with the same key.
pub open spec fn records_db(records: Seq<(String, Vec<(String, i64)>)>) -> MtimeDb {
    fold_insert(records_view(records))
}

/// The records as values: each path with the map its pairs build.
pub open spec fn records_view(records: Seq<(String, Vec<(String, i64)>)>) -> Seq<(Seq<char>, Map<Seq<char>, i64>)> {
    records.map_values(|r: (String, Vec<(String, i64)>)| (r.0@, fold_insert(listing_view(r.1@))))
}

/// Records sorted by path, each listing in order the (hash, mtime) pairs that `db`
/// holds for its path, and together naming every path of `db`, describe exactly `db`:
/// what is saved as records is loaded back unchanged.
pub proof fn lemma_sorted_records_describe_db(records: Seq<(String, Vec<(String, i64)>)>, db: MtimeDb)
    requires
        forall|i: int, j: int|
            0 <= i < j < records.len() ==> key_lt(#[trigger] records[i].0@, #[trigger] records[j].0@),
        forall|i: int|
            0 <= i < records.len() ==> db.contains_key((#[trigger] records[i]).0@) && is_sorted_listing(
                records[i].1@,
                db[records[i].0@],
            ),
        forall|p: Seq<char>| #[trigger]
            db.contains_key(p) ==> exists|i: int| 0 <= i < records.len() && records[i].0@ == p,
    ensures
        records_db(records) == db,
{
    let rv = records_view(records);
    assert forall|k: int| 0 <= k < rv.len() implies (#[trigger] rv[k]).0 == records[k].0@ && rv[k].1
        == db[records[k].0@] by {
        lemma_sorted_listing_is_listing(records[k].1@, db[records[k].0@]);
        lemma_fold_insert_listing(listing_view(records[k].1@), db[records[k].0@]);
    }
    assert forall|a: int, b: int| 0 <= a < b < rv.len() implies #[trigger] rv[a].0 != #[trigger] rv[b].0 by {
        assert(key_lt(records[a].0@, records[b].0@));
        lemma_lex_irreflexive(key_bytes(records[a].0@));
    }
    assert forall|p: Seq<char>| #[trigger] db.contains_key(p) implies exists|k: int|
        0 <= k < rv.len() && rv[k].0 == p by {
        let k = choose|k: int| 0 <= k < records.len() && records[k].0@ == p;
        assert(rv[k].0 == p);
    }
    assert(is_listing(rv, db));
    lemma_fold_insert_listing(rv, db);
}

/// A write as values: path, SHA-256 and mtime.
pub type WriteView = (Seq<char>, Seq<char>, i64);

/// The disk writer task after receiving `w` in state (database, pending batch): the
/// write is queued, and the batch is written to the database and emptied once it
/// holds `BATCH_SIZE` writes (what `gather_step` decides and `update_database` does).
pub open spec fn writer_receive(state: (MtimeDb, Seq<WriteView>), w: WriteView) -> (MtimeDb, Seq<WriteView>) {
    let pending = state.1.push(w);
    if pending.len() >= BATCH_SIZE {
        (apply_writes(state.0, pending), Seq::empty())
    } else {
        (state.0, pending)
    }
}

/// The disk writer task's state after receiving `writes`, starting from `db` and an
/// empty batch.
pub open spec fn writer_run(db: MtimeDb, writes: Seq<WriteView>) -> (MtimeDb, Seq<WriteView>)
    decreases writes.len(),
{
    if writes.len() == 0 {
        (db, Seq::empty())
    } else {
        writer_receive(writer_run(db, writes.drop_last()), writes.last())
    }
}

/// The database once the writer task's input has ended: the pending batch is written.
pub open spec fn writer_close(state: (MtimeDb, Seq<WriteView>)) -> MtimeDb {
    apply_writes(state.0, state.1)
}

/// While the disk writer runs, every full batch of `BATCH_SIZE` writes has reached the
/// database, in order, and fewer than `BATCH_SIZE` writes are pending: after `k`
/// writes, the first `k - k % BATCH_SIZE` are applied and the last `k % BATCH_SIZE`
/// wait in the batch.
pub proof fn lemma_writer_run(db: MtimeDb, writes: Seq<WriteView>)
    ensures
        writer_run(db, writes) == (
            apply_writes(db, writes.take(flushed_count(writes.len() as int))),
            writes.skip(flushed_count(writes.len() as int)),
        ),
        writer_run(db, writes).1.len() < BATCH_SIZE,
    decreases writes.len(),
{
    let n = BATCH_SIZE as int;
    let k = writes.len() as int;
    let f = flushed_count(k);
    if k == 0 {
        assert(writes.take(0) =~= Seq::<WriteView>::empty());
        assert(writes.skip(0) =~= Seq::<WriteView>::empty());
    } else {
        let prev = writes.drop_last();
        lemma_writer_run(db, prev);
        let f0 = flushed_count(k - 1);
        assert(prev.take(f0) =~= writes.take(f0));
        let pending = prev.skip(f0).push(writes.last());
        assert(pending =~= writes.subrange(f0, k));
        if (k - 1) % n == n - 1 {
            assert(k % n == 0);
            assert(f == k);
            assert(pending.len() == n);
            lemma_apply_writes_append(db, writes.take(f0), pending);
            assert(writes.take(f0) + pending =~= writes.take(f));
            assert(writes.skip(f) =~= Seq::<WriteView>::empty());
        } else {
            assert(k % n == (k - 1) % n + 1);
            assert(f == f0);
            assert(pending.len() < n);
            assert(writes.skip(f) =~= pending);
        }
    }
}

/// Once the disk writer's input ends, every write it received has reached the
/// database, in order.
pub proof fn lemma_writer_close(db: MtimeDb, writes: Seq<WriteView>)
    ensures
        writer_close(writer_run(db, writes)) == apply_writes(db, writes),
{
    lemma_writer_run(db, writes);
    let f = flushed_count(writes.len() as int);
    lemma_apply_writes_append(db, writes.take(f), writes.skip(f));
    assert(writes.take(f) + writes.skip(f) =~= writes);
}

/// A get in a later run gives back the mtime last inserted for that path and hash:
/// the writes received in one run (`writes`, starting from `db`) are all applied when
/// its input ends, the database saved as records (`saved`, as `to_records` gives them)
/// describes it, and the database loaded from those records (`loaded`, as
/// `from_records` and `open_database` give it) answers the query.
pub proof fn lemma_get_after_insert(
    db: MtimeDb,
    writes: Seq<WriteView>,
    path: Seq<char>,
    sha256: Seq<char>,
    mtime: i64,
    saved: Seq<(String, Vec<(String, i64)>)>,
    loaded: MtimeDb,
)
    requires
        last_write(writes, path, sha256) == Some(mtime),
        records_db(saved) == writer_close(writer_run(db, writes)),
        loaded == records_db(saved),
    ensures
        lookup(loaded, path, sha256) == Some(mtime),
{
    lemma_writer_close(db, writes);
    lemma_lookup_after_writes(db, writes, path, sha256);
}

/// The version of the database format that this library reads and writes.
pub const DATABASE_VERSION: u32 = 1;

/// Why a stored database cannot be used.
#[derive(Debug, Clone, Copy, PartialEq, Eq, Structural)]
pub enum DatabaseError {
    /// It was written in a format version other than `DATABASE_VERSION`.
    UnsupportedVersion(u32),
}

/// The state of the on-disk cache: a format version and the recorded mtimes.
#[derive(Debug)]
pub struct AppState {
    version: Option<u32>,
    mtime: StrMap<StrMap<i64>>,
}

impl View for AppState {
    type V = MtimeDb;

    closed spec fn view(&self) -> MtimeDb {
        self.mtime@.map_values(|h: StrMap<i64>| h@)
    }
}

impl Default for AppState {
    fn default() -> (s: Self)
        ensures
            s.wf(),
            s.spec_version() == None::<u32>,
            s@ == Map::<Seq<char>, Map<Seq<char>, i64>>::empty(),
    {
        AppState::new()
    }
}

impl AppState {
    /// The format version recorded in the state.
    pub closed spec fn spec_version(&self) -> Option<u32> {
        self.version
    }

    /// Every map in the state is well formed.
    pub closed spec fn wf(&self) -> bool {
        &&& self.mtime.wf()
        &&& forall|p: Seq<char>| #[trigger] self.mtime@.contains_key(p) ==> self.mtime@[p].wf()
    }

    /// An empty state without a version.
    pub fn new() -> (s: Self)
        ensures
            s.wf(),
            s.spec_version() == None::<u32>,
            s@ == Map::<Seq<char>, Map<Seq<char>, i64>>::empty(),
    {
        let s = AppState { version: None, mtime: StrMap::new() };
        assert(s@ =~= Map::<Seq<char>, Map<Seq<char>, i64>>::empty());
        s
    }

    /// An empty state with the given version.
    pub fn with_version(version: Option<u32>) -> (s: Self)
        ensures
            s.wf(),
            s.spec_version() == version,
            s@ == Map::<Seq<char>, Map<Seq<char>, i64>>::empty(),
    {
        let mut s = AppState::new();
        s.version = version;
        s
    }

    /// The format version recorded in the state.
    pub fn version(&self) -> (v: Option<u32>)
        ensures
            v == self.spec_version(),
    {
        self.version
    }

    /// The mtime recorded for `path` with content hash `sha256`, if any.
    pub fn get_mtime(&self, path: &str, sha256: &str) -> (r: Option<i64>)
        requires
            self.wf(),
        ensures
            r == lookup(self@, path@, sha256@),
    {
        match self.mtime.get(path) {
            Some(hashes) => {
                match hashes.get(sha256) {
                    Some(m) => Some(*m),
                    None => None,
                }
            },
            None => None,
        }
    }

    /// Records `mtime` for `path` with content hash `sha256`, replacing any earlier record.
    pub fn set_mtime(&mut self, path: String, sha256: String, mtime: i64)
        requires
            old(self).wf(),
        ensures
            final(self).wf(),
            final(self).spec_version() == old(self).spec_version(),
            final(self)@ == store(old(self)@, path@, sha256@, mtime),
    {
        let ghost old_outer = self.mtime@;
        let ghost old_view = self@;
        let mut hashes: StrMap<i64> = StrMap::new();
        let found = self.mtime.swap_value(path.as_str(), &mut hashes);
        if found {
            assert(hashes.wf());
            hashes.insert(sha256, mtime);
            let ghost filled = hashes;
            let back = self.mtime.swap_value(path.as_str(), &mut hashes);
            assert(back);
            assert(self.mtime@ == old_outer.insert(path@, filled));
        } else {
            hashes.insert(sha256, mtime);
            self.mtime.insert(path, hashes);
        }
        assert forall|p: Seq<char>| #[trigger] self.mtime@.contains_key(p) implies self.mtime@[p].wf() by {
            if p != path@ {
                assert(old_outer.contains_key(p));
            }
        }
        assert(self@ =~= store(old_view, path@, sha256@, mtime));
    }

    /// Builds a state from its version and a list of records, as read from storage.
    pub fn from_records(version: Option<u32>, records: &[(String, Vec<(String, i64)>)]) -> (s: Self)
        ensures
            s.wf(),
            s.spec_version() == version,
            s@ == records_db(records@),
    {
        let mut mtime: StrMap<StrMap<i64>> = StrMap::new();
        let n = records.len();
        let mut i: usize = 0;
        while i < n
            invariant
                n == records@.len(),
                i <= n,
                mtime.wf(),
                forall|p: Seq<char>| #[trigger] mtime@.contains_key(p) ==> mtime@[p].wf(),
                mtime@.map_values(|h: StrMap<i64>| h@) == fold_insert(records_view(records@.take(i as int))),
            decreases n - i,
        {
            let pairs = &records[i].1;
            let m = pairs.len();
            let mut hashes: StrMap<i64> = StrMap::new();
            let mut j: usize = 0;
            while j < m
                invariant
                    m == pairs@.len(),
                    j <= m,
                    hashes.wf(),
                    hashes@ == fold_insert(listing_view(pairs@.take(j as int))),
                decreases m - j,
            {
                hashes.insert(pairs[j].0.clone(), pairs[j].1);
                assert(listing_view(pairs@.take(j + 1)).drop_last() =~= listing_view(pairs@.take(j as int)));
                j = j + 1;
            }
            assert(pairs@.take(m as int) =~= pairs@);
            let ghost before = mtime@;
            let ghost hv = hashes@;
            mtime.insert(records[i].0.clone(), hashes);
            proof {
                assert(records_view(records@.take(i + 1)).drop_last() =~= records_view(records@.take(i as int)));
                assert(records_view(records@.take(i + 1)).last() == (records@[i as int].0@, hv));
                assert forall|p: Seq<char>| #[trigger] mtime@.contains_key(p) implies mtime@[p].wf() by {
                    if p != records@[i as int].0@ {
                        assert(before.contains_key(p));
                    }
                }
                assert(mtime@.map_values(|h: StrMap<i64>| h@) =~= before.map_values(|h: StrMap<i64>| h@).insert(
                    records@[i as int].0@,
                    hv,
                ));
            }
            i = i + 1;
        }
        assert(records@.take(n as int) =~= records@);
        AppState { version, mtime }
    }

    /// The state's records, sorted by path and, within a path, by hash.
    pub fn to_records(&self) -> (r: Vec<(String, Vec<(String, i64)>)>)
        requires
            self.wf(),
        ensures
            records_db(r@) == self@,
            forall|i: int, j: int| 0 <= i < j < r@.len() ==> key_lt(#[trigger] r@[i].0@, #[trigger] r@[j].0@),
            forall|i: int| 0 <= i < r@.len() ==> is_sorted_listing((#[trigger] r@[i]).1@, self@[r@[i].0@]),
    {
        let outer = self.mtime.as_slice();
        let n = outer.len();
        let mut r: Vec<(String, Vec<(String, i64)>)> = Vec::new();
        let mut i: usize = 0;
        while i < n
            invariant
                n == outer@.len(),
                i <= n,
                self.wf(),
                is_sorted_listing(outer@, self.mtime@),
                r@.len() == i,
                forall|k: int|
                    0 <= k < i ==> (#[trigger] r@[k]).0 == outer@[k].0 && is_sorted_listing(r@[k].1@, outer@[k].1@),
            decreases n - i,
        {
            assert(self.mtime@.contains_key(outer@[i as int].0@));
            let hashes = outer[i].1.as_slice();
            let m = hashes.len();
            let mut v: Vec<(String, i64)> = Vec::new();
            let mut j: usize = 0;
            while j < m
                invariant
                    m == hashes@.len(),
                    j <= m,
                    v@ == hashes@.take(j as int),
                decreases m - j,
            {
                v.push((hashes[j].0.clone(), hashes[j].1));
                assert(v@ =~= hashes@.take(j + 1));
                j = j + 1;
            }
            assert(hashes@.take(m as int) =~= hashes@);
            r.push((outer[i].0.clone(), v));
            i = i + 1;
        }
        proof {
            assert forall|a: int, b: int| 0 <= a < b < r@.len() implies key_lt(#[trigger] r@[a].0@, #[trigger] r@[b].0@) by {
                assert(r@[a].0 == outer@[a].0);
                assert(r@[b].0 == outer@[b].0);
            }
            assert forall|k: int| 0 <= k < r@.len() implies self@.contains_key((#[trigger] r@[k]).0@)
                && is_sorted_listing(r@[k].1@, self@[r@[k].0@]) by {
                assert(self.mtime@.contains_key(outer@[k].0@));
            }
            assert forall|p: Seq<char>| #[trigger] self@.contains_key(p) implies exists|k: int|
                0 <= k < r@.len() && r@[k].0@ == p by {
                assert(self.mtime@.contains_key(p));
                let k = choose|k: int| 0 <= k < outer@.len() && outer@[k].0@ == p;
                assert(r@[k].0@ == p);
            }
            lemma_sorted_records_describe_db(r@, self@);
        }
        r
    }
}

/// Whether this library can use a database stored with `version`: one without a
/// version, or one with `DATABASE_VERSION`.
pub open spec fn version_supported(version: Option<u32>) -> bool {
    match version {
        Some(v) => v == DATABASE_VERSION,
        None => true,
    }
}

/// Prepares a database read from disk, or a new one if nothing was stored.
///
/// The result carries `DATABASE_VERSION` and the stored records. A stored database
/// must have a supported version; `try_open_database` tells when it has.
pub fn open_database(stored: Option<AppState>) -> (s: AppState)
    requires
        stored matches Some(st) ==> st.wf() && version_supported(st.spec_version()),
    ensures
        s.wf(),
        s.spec_version() == Some(DATABASE_VERSION),
        s@ == match stored {
            Some(st) => st@,
            None => Map::<Seq<char>, Map<Seq<char>, i64>>::empty(),
        },
{
    match stored {
        None => AppState::with_version(Some(DATABASE_VERSION)),
        Some(mut st) => {
            st.version = Some(DATABASE_VERSION);
            st
        },
    }
}

/// Prepares a database as `open_database` does, or refuses a stored one whose
/// version is not supported.
pub fn try_open_database(stored: Option<AppState>) -> (r: Result<AppState, DatabaseError>)
    requires
        stored matches Some(st) ==> st.wf(),
    ensures
        match stored {
            Some(st) if !version_supported(st.spec_version()) => r == Err::<AppState, DatabaseError>(
                DatabaseError::UnsupportedVersion(st.spec_version()->0),
            ),
            _ => r matches Ok(s) && s.wf() && s.spec_version() == Some(DATABASE_VERSION) && s@ == match stored {
                Some(st) => st@,
                None => Map::<Seq<char>, Map<Seq<char>, i64>>::empty(),
            },
        },
{
    if let Some(st) = &stored {
        if let Some(v) = st.version() {
            if v != DATABASE_VERSION {
                return Err(DatabaseError::UnsupportedVersion(v));
            }
        }
    }
    Ok(open_database(stored))
}

/// Looks up the mtime recorded for a file, and counts the query as a hit or a miss.
pub fn try_get_mtime(conn: &AppState, path: &str, sha256: &str, metrics: &mut Metrics) -> (r: Option<i64>)
    requires
        conn.wf(),
    ensures
        r == lookup(conn@, path@, sha256@),
        *final(metrics) == (Metrics {
            database_mtime_queries: bump(old(metrics).database_mtime_queries, 1),
            database_mtime_hits: if r is Some {
                bump(old(metrics).database_mtime_hits, 1)
            } else {
                old(metrics).database_mtime_hits
            },
            database_mtime_misses: if r is Some {
                old(metrics).database_mtime_misses
            } else {
                bump(old(metrics).database_mtime_misses, 1)
            },
            ..*old(metrics)
        }),
{
    let res = conn.get_mtime(path, sha256);
    metrics.record_lookup(res.is_some());
    res
}

/// Writes a batch of queued records to the database, in order, and empties the batch.
///
/// The number of records written is added to the write counter.
pub fn update_database(connection: &mut AppState, batch: &mut Vec<(String, String, i64)>, metrics: &mut Metrics)
    requires
        old(connection).wf(),
    ensures
        final(connection).wf(),
        final(connection).spec_version() == old(connection).spec_version(),
        final(connection)@ == apply_writes(old(connection)@, writes_view(old(batch)@)),
        forall|i: int|
            0 <= i < old(batch)@.len() && is_last_for_pair(old(batch)@, i) ==> lookup(
                final(connection)@,
                (#[trigger] old(batch)@[i]).0@,
                old(batch)@[i].1@,
            ) == Some(old(batch)@[i].2),
        forall|path: Seq<char>, sha256: Seq<char>|
            !batch_writes_pair(old(batch)@, path, sha256) ==> #[trigger] lookup(final(connection)@, path, sha256)
                == lookup(old(connection)@, path, sha256),
        final(batch)@ == Seq::<(String, String, i64)>::empty(),
        *final(metrics) == (Metrics {
            database_mtime_write: bump(old(metrics).database_mtime_write, old(batch)@.len() as usize),
            ..*old(metrics)
        }),
{
    let ghost db0 = connection@;
    let n = batch.len();
    let mut i: usize = 0;
    while i < n
        invariant
            n == batch@.len(),
            batch@ == old(batch)@,
            i <= n,
            connection.wf(),
            connection.spec_version() == old(connection).spec_version(),
            connection@ == apply_writes(db0, writes_view(batch@.take(i as int))),
        decreases n - i,
    {
        let path = batch[i].0.clone();
        let sha256 = batch[i].1.clone();
        let mtime = batch[i].2;
        connection.set_mtime(path, sha256, mtime);
        assert(writes_view(batch@.take(i + 1)).drop_last() =~= writes_view(batch@.take(i as int)));
        i = i + 1;
    }
    assert(batch@.take(n as int) =~= batch@);
    proof {
        lemma_batch_results(db0, batch@);
    }
    batch.clear();
    metrics.record_writes(n);
}

} // verus!
