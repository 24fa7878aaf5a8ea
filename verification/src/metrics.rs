//! Counters of what a run did.
use vstd::prelude::*;

verus! {

/// `n` added to a counter that wraps around at `usize::MAX`.
pub open spec fn bump(x: usize, n: usize) -> usize {
    vstd::wrapping::usize_specs::wrapping_add(x, n)
}

/// Counters of a run: files seen and what was done to them, and database traffic.
///
/// Each counter wraps around on overflow.
#[derive(Debug, Clone, Copy, PartialEq, Eq, Structural)]
pub struct Metrics {
    pub files_processed: usize,
    pub files_was_directory: usize,
    pub files_mtime_restored: usize,
    pub files_mtime_skipped: usize,
    pub files_mtime_updated: usize,
    pub database_mtime_queries: usize,
    pub database_mtime_hits: usize,
    pub database_mtime_misses: usize,
    pub database_mtime_write: usize,
}

impl Default for Metrics {
    fn default() -> (m: Self)
        ensures
            m == Metrics::zero(),
    {
        Metrics::new()
    }
}

impl Metrics {
    /// All counters at zero.
    pub open spec fn zero() -> Metrics {
        Metrics {
            files_processed: 0,
            files_was_directory: 0,
            files_mtime_restored: 0,
            files_mtime_skipped: 0,
            files_mtime_updated: 0,
            database_mtime_queries: 0,
            database_mtime_hits: 0,
            database_mtime_misses: 0,
            database_mtime_write: 0,
        }
    }

    /// Fresh counters, all zero.
    pub fn new() -> (m: Self)
        ensures
            m == Metrics::zero(),
    {
        Metrics {
            files_processed: 0,
            files_was_directory: 0,
            files_mtime_restored: 0,
            files_mtime_skipped: 0,
            files_mtime_updated: 0,
            database_mtime_queries: 0,
            database_mtime_hits: 0,
            database_mtime_misses: 0,
            database_mtime_write: 0,
        }
    }

    /// Counts one database query, and whether it hit or missed.
    pub fn record_lookup(&mut self, hit: bool)
        ensures
            final(self).database_mtime_queries == bump(old(self).database_mtime_queries, 1),
            final(self).database_mtime_hits == if hit {
                bump(old(self).database_mtime_hits, 1)
            } else {
                old(self).database_mtime_hits
            },
            final(self).database_mtime_misses == if hit {
                old(self).database_mtime_misses
            } else {
                bump(old(self).database_mtime_misses, 1)
            },
            *final(self) == (Metrics {
                database_mtime_queries: final(self).database_mtime_queries,
                database_mtime_hits: final(self).database_mtime_hits,
                database_mtime_misses: final(self).database_mtime_misses,
                ..*old(self)
            }),
    {
        self.database_mtime_queries = self.database_mtime_queries.wrapping_add(1);
        if hit {
            self.database_mtime_hits = self.database_mtime_hits.wrapping_add(1);
        } else {
            self.database_mtime_misses = self.database_mtime_misses.wrapping_add(1);
        }
    }

    /// Counts `n` records written to the database.
    pub fn record_writes(&mut self, n: usize)
        ensures
            *final(self) == (Metrics {
                database_mtime_write: bump(old(self).database_mtime_write, n),
                ..*old(self)
            }),
    {
        self.database_mtime_write = self.database_mtime_write.wrapping_add(n);
    }
}

/// How many values a counter takes before it wraps around.
pub open spec fn counter_modulus() -> int {
    usize::MAX as int + 1
}

/// The hit and miss counters add up to the query counter, up to wrap-around.
pub open spec fn lookups_balanced(m: Metrics) -> bool {
    (m.database_mtime_hits + m.database_mtime_misses) % counter_modulus() == (m.database_mtime_queries as int)
        % counter_modulus()
}

proof fn lemma_successor_mod(a: int, b: int)
    requires
        a % counter_modulus() == b % counter_modulus(),
    ensures
        (a + 1) % counter_modulus() == (b + 1) % counter_modulus(),
{
    let m = counter_modulus();
    vstd::arithmetic::div_mod::lemma_fundamental_div_mod(a, m);
    vstd::arithmetic::div_mod::lemma_fundamental_div_mod(b, m);
    vstd::arithmetic::div_mod::lemma_mod_multiples_vanish(a / m, a % m + 1, m);
    vstd::arithmetic::div_mod::lemma_mod_multiples_vanish(b / m, b % m + 1, m);
    assert(a + 1 == m * (a / m) + (a % m + 1));
    assert(b + 1 == m * (b / m) + (b % m + 1));
}

/// Counting a lookup keeps the counters in step: each query is counted as exactly one
/// hit or one miss.
pub proof fn lemma_record_lookup_keeps_balance(before: Metrics, after: Metrics, hit: bool)
    requires
        lookups_balanced(before),
        after.database_mtime_queries == bump(before.database_mtime_queries, 1),
        after.database_mtime_hits == if hit {
            bump(before.database_mtime_hits, 1)
        } else {
            before.database_mtime_hits
        },
        after.database_mtime_misses == if hit {
            before.database_mtime_misses
        } else {
            bump(before.database_mtime_misses, 1)
        },
    ensures
        lookups_balanced(after),
{
    let m = counter_modulus();
    let a = before.database_mtime_hits + before.database_mtime_misses;
    let q = before.database_mtime_queries as int;
    lemma_successor_mod(a, q);
    let a2 = after.database_mtime_hits + after.database_mtime_misses;
    let q2 = after.database_mtime_queries as int;
    if a2 != a + 1 {
        assert(a2 == a + 1 - m);
        vstd::arithmetic::div_mod::lemma_mod_multiples_vanish(-1, a + 1, m);
        assert(m * -1 + (a + 1) == a2);
    }
    if q2 != q + 1 {
        assert(q2 == q + 1 - m);
        vstd::arithmetic::div_mod::lemma_mod_multiples_vanish(-1, q + 1, m);
        assert(m * -1 + (q + 1) == q2);
    }
}

} // verus!
