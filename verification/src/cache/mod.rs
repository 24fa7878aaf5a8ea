//! The two mtime caches, and the batching of writes that both use.
use vstd::prelude::*;

pub mod disk;
pub mod redis;
pub mod redis_client;

verus! {

/// A batch of queued writes is written once it holds this many.
pub const BATCH_SIZE: usize = 100;

/// What a writer task receives: one more write, or the end of its input.
pub enum BatchEvent<T> {
    Received(T),
    Closed,
}

/// What a writer task does next.
#[derive(Debug, Clone, Copy, PartialEq, Eq, Structural)]
pub enum BatchAction {
    /// Keep the batch and wait for the next event.
    Wait,
    /// Write the batch, then wait for the next event.
    Flush,
    /// Write the batch, then stop.
    FlushAndStop,
    /// Stop; nothing is left to write.
    Stop,
}

/// One step of a writer task: queue what was received, and decide whether to write.
///
/// A received write is appended to the batch; the batch is written as soon as it
/// holds `BATCH_SIZE` writes or more. When the input ends, what is left is written.
pub fn gather_step<T>(batch: &mut Vec<T>, event: BatchEvent<T>) -> (action: BatchAction)
    ensures
        match event {
            BatchEvent::Received(e) => {
                &&& final(batch)@ == old(batch)@.push(e)
                &&& action == if final(batch)@.len() >= BATCH_SIZE {
                    BatchAction::Flush
                } else {
                    BatchAction::Wait
                }
            },
            BatchEvent::Closed => {
                &&& final(batch)@ == old(batch)@
                &&& action == if old(batch)@.len() > 0 {
                    BatchAction::FlushAndStop
                } else {
                    BatchAction::Stop
                }
            },
        },
{
    match event {
        BatchEvent::Received(e) => {
            batch.push(e);
            if batch.len() >= BATCH_SIZE {
                BatchAction::Flush
            } else {
                BatchAction::Wait
            }
        },
        BatchEvent::Closed => {
            if !batch.is_empty() {
                BatchAction::FlushAndStop
            } else {
                BatchAction::Stop
            }
        },
    }
}

/// How many of `k` received writes a writer task has written out: all full batches.
pub open spec fn flushed_count(k: int) -> int {
    k - k % (BATCH_SIZE as int)
}

/// A writer task after receiving `w` in state (written so far, pending batch): the
/// write is queued, and the whole batch goes out in one write, and is emptied, once
/// it holds `BATCH_SIZE` writes (what `gather_step` decides; the Redis writer sends
/// the batch in one multi-set command with `take_mset_entries`).
pub open spec fn batch_receive<T>(state: (Seq<T>, Seq<T>), w: T) -> (Seq<T>, Seq<T>) {
    let pending = state.1.push(w);
    if pending.len() >= BATCH_SIZE {
        (state.0 + pending, Seq::empty())
    } else {
        (state.0, pending)
    }
}

/// A writer task's state after receiving `writes`: what has been written out, in the
/// order written, and what is pending.
pub open spec fn batch_run<T>(writes: Seq<T>) -> (Seq<T>, Seq<T>)
    decreases writes.len(),
{
    if writes.len() == 0 {
        (Seq::empty(), Seq::empty())
    } else {
        batch_receive(batch_run(writes.drop_last()), writes.last())
    }
}

/// Every received write goes out exactly once, in the order received: after `k`
/// writes, the first `k - k % BATCH_SIZE` have been written, and the rest, fewer than
/// `BATCH_SIZE`, are pending; the final write at the end of input sends exactly those.
pub proof fn lemma_batch_run<T>(writes: Seq<T>)
    ensures
        batch_run(writes) == (
            writes.take(flushed_count(writes.len() as int)),
            writes.skip(flushed_count(writes.len() as int)),
        ),
        batch_run(writes).1.len() < BATCH_SIZE,
        batch_run(writes).0 + batch_run(writes).1 == writes,
    decreases writes.len(),
{
    let n = BATCH_SIZE as int;
    let k = writes.len() as int;
    let f = flushed_count(k);
    if k == 0 {
        assert(writes.take(0) =~= Seq::<T>::empty());
        assert(writes.skip(0) =~= Seq::<T>::empty());
    } else {
        let prev = writes.drop_last();
        lemma_batch_run(prev);
        let f0 = flushed_count(k - 1);
        assert(prev.take(f0) =~= writes.take(f0));
        let pending = prev.skip(f0).push(writes.last());
        assert(pending =~= writes.subrange(f0, k));
        if (k - 1) % n == n - 1 {
            assert(k % n == 0);
            assert(f == k);
            assert(writes.take(f0) + pending =~= writes.take(f));
            assert(writes.skip(f) =~= Seq::<T>::empty());
        } else {
            assert(k % n == (k - 1) % n + 1);
            assert(f == f0);
            assert(writes.skip(f) =~= pending);
        }
    }
    assert(writes.take(f) + writes.skip(f) =~= writes);
}

} // verus!
