//! Keys and write batches for the Redis cache.
use vstd::prelude::*;
use vstd::string::StringExecFns;

verus! {

/// A queued write for the Redis cache.
pub struct WriteRequest {
    pub path: String,
    pub sha256: String,
    pub mtime: i64,
}

/// The key under which the mtime of `path` with content hash `sha256` is stored:
/// the path followed by the hash.
pub open spec fn spec_redis_key(path: Seq<char>, sha256: Seq<char>) -> Seq<char> {
    path + sha256
}

/// Two (path, hash) pairs whose hashes have the same length (as SHA-256 hex digests
/// do) get the same key only if they are the same pair, so a key written for one
/// file is never read back for another.
pub proof fn lemma_redis_key_distinct(p1: Seq<char>, h1: Seq<char>, p2: Seq<char>, h2: Seq<char>)
    requires
        h1.len() == h2.len(),
        spec_redis_key(p1, h1) == spec_redis_key(p2, h2),
    ensures
        p1 == p2,
        h1 == h2,
{
    let k = spec_redis_key(p1, h1);
    assert(p1 =~= k.subrange(0, p1.len() as int));
    assert(p2 =~= k.subrange(0, p2.len() as int));
    assert(h1 =~= k.subrange(p1.len() as int, k.len() as int));
    assert(h2 =~= k.subrange(p2.len() as int, k.len() as int));
}

/// Builds the key for `path` and `sha256` by appending the hash to the path.
pub fn redis_key(path: String, sha256: &str) -> (key: String)
    ensures
        key@ == spec_redis_key(path@, sha256@),
{
    let mut key = path;
    key.append(sha256);
    key
}

/// The key-value pairs that one multi-set command writes for a batch, in batch order.
pub fn mset_entries(batch: &[WriteRequest]) -> (ops: Vec<(String, i64)>)
    ensures
        ops@.len() == batch@.len(),
        forall|i: int|
            0 <= i < batch@.len() ==> (#[trigger] ops@[i]).0@ == spec_redis_key(batch@[i].path@, batch@[i].sha256@)
                && ops@[i].1 == batch@[i].mtime,
{
    let mut ops: Vec<(String, i64)> = Vec::new();
    let n = batch.len();
    let mut i: usize = 0;
    while i < n
        invariant
            n == batch@.len(),
            i <= n,
            ops@.len() == i,
            forall|j: int|
                0 <= j < i ==> (#[trigger] ops@[j]).0@ == spec_redis_key(batch@[j].path@, batch@[j].sha256@)
                    && ops@[j].1 == batch@[j].mtime,
        decreases n - i,
    {
        let req = &batch[i];
        let key = redis_key(req.path.clone(), req.sha256.as_str());
        ops.push((key, req.mtime));
        i = i + 1;
    }
    ops
}

/// Takes the whole batch out for one multi-set command: the key-value pairs of its
/// requests, in batch order, leaving the batch empty so that each request is sent once.
pub fn take_mset_entries(batch: &mut Vec<WriteRequest>) -> (ops: Vec<(String, i64)>)
    ensures
        final(batch)@ == Seq::<WriteRequest>::empty(),
        ops@.len() == old(batch)@.len(),
        forall|i: int|
            0 <= i < old(batch)@.len() ==> (#[trigger] ops@[i]).0@ == spec_redis_key(
                old(batch)@[i].path@,
                old(batch)@[i].sha256@,
            ) && ops@[i].1 == old(batch)@[i].mtime,
{
    let mut taken: Vec<WriteRequest> = Vec::new();
    std::mem::swap(batch, &mut taken);
    mset_entries(taken.as_slice())
}

/// Whether `ops` are the multi-set pairs of `batch`, as `mset_entries` and
/// `take_mset_entries` give them.
pub open spec fn is_mset_of(ops: Seq<(String, i64)>, batch: Seq<WriteRequest>) -> bool {
    &&& ops.len() == batch.len()
    &&& forall|i: int|
        0 <= i < batch.len() ==> (#[trigger] ops[i]).0@ == spec_redis_key(batch[i].path@, batch[i].sha256@)
            && ops[i].1 == batch[i].mtime
}

/// A get of (path, hash) reads the key under which the insert of that pair was
/// written, with its mtime; no other insert in the batch whose hash has the same
/// length writes that key.
pub proof fn lemma_redis_get_reads_inserted_key(ops: Seq<(String, i64)>, batch: Seq<WriteRequest>, i: int)
    requires
        is_mset_of(ops, batch),
        0 <= i < batch.len(),
    ensures
        ops[i].0@ == spec_redis_key(batch[i].path@, batch[i].sha256@),
        ops[i].1 == batch[i].mtime,
        forall|j: int|
            0 <= j < batch.len() && batch[j].sha256@.len() == batch[i].sha256@.len() && (batch[j].path@
                != batch[i].path@ || batch[j].sha256@ != batch[i].sha256@) ==> #[trigger] ops[j].0@
                != ops[i].0@,
{
    assert forall|j: int|
        0 <= j < batch.len() && batch[j].sha256@.len() == batch[i].sha256@.len() && (batch[j].path@
            != batch[i].path@ || batch[j].sha256@ != batch[i].sha256@) implies #[trigger] ops[j].0@
            != ops[i].0@ by {
        if ops[j].0@ == ops[i].0@ {
            lemma_redis_key_distinct(batch[j].path@, batch[j].sha256@, batch[i].path@, batch[i].sha256@);
        }
    }
}

} // verus!
