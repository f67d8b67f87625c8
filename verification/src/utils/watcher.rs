//! Waiting for a file that is still being written to settle.
//!
//! The caller reads the file's size, then alternately sleeps
//! `STABILITY_POLL_MILLIS` and reads it again while `should_poll` says so,
//! handing each size to `observe`; the file has settled as soon as two
//! consecutive sizes agree, and is given up after `max_retries` changes.

use vstd::prelude::*;

verus! {

/// The pause between two readings of a file's size, in milliseconds.
pub const STABILITY_POLL_MILLIS: u64 = 50;

/// How many changes of size an asset may show before it is given up.
pub const STABILITY_RETRIES: usize = 5;

/// The state of a wait for a file to settle.
pub struct Stability {
    /// The size read last.
    pub last_size: u64,
    /// How many readings differed from the one before.
    pub retries: usize,
    /// How many differing readings are tolerated.
    pub max_retries: usize,
}

impl Stability {
    /// Starts waiting, given the first reading of the size.
    pub fn new(first_size: u64, max_retries: usize) -> (s: Stability)
        ensures
            s.last_size == first_size,
            s.retries == 0,
            s.max_retries == max_retries,
    {
        Stability { last_size: first_size, retries: 0, max_retries }
    }

    /// Whether another reading is to be taken (after a pause).
    pub fn should_poll(&self) -> (b: bool)
        ensures
            b == (self.retries < self.max_retries),
    {
        self.retries < self.max_retries
    }

    /// Takes a new reading; true when it equals the last one, that is when
    /// the file has settled.  Otherwise the reading becomes the last one and
    /// one more retry is counted.
    pub fn observe(&mut self, size: u64) -> (settled: bool)
        requires
            old(self).retries < old(self).max_retries,
        ensures
            settled == (size == old(self).last_size),
            settled ==> *final(self) == *old(self),
            !settled ==> *final(self) == (Stability {
                last_size: size,
                retries: (old(self).retries + 1) as usize,
                max_retries: old(self).max_retries,
            }),
    {
        if size == self.last_size {
            true
        } else {
            self.last_size = size;
            self.retries = self.retries + 1;
            false
        }
    }
}

/// The wait run on the readings `rs`, one per pause: whether the file settled,
/// and how many readings were taken.
pub open spec fn wait_run(s: Stability, rs: Seq<u64>) -> (bool, nat)
    decreases rs.len(),
{
    if !(s.retries < s.max_retries) || rs.len() == 0 {
        (false, 0)
    } else if rs[0] == s.last_size {
        (true, 1)
    } else {
        let next = Stability {
            last_size: rs[0],
            retries: (s.retries + 1) as usize,
            max_retries: s.max_retries,
        };
        let (settled, n) = wait_run(next, rs.drop_first());
        (settled, n + 1)
    }
}

/// Whether the reading at `i` repeats the one before it (the first reading
/// before `rs[0]` is `first`).
pub open spec fn repeats(first: u64, rs: Seq<u64>, i: int) -> bool {
    rs[i] == if i == 0 {
        first
    } else {
        rs[i - 1]
    }
}

/// A file settles on its first repeated size.  Waiting on a file whose first
/// size is `first`, with enough readings `rs` at hand, settles exactly when
/// one of the first `max_retries` readings repeats the size before it, after
/// taking the readings up to the first such one; otherwise it gives up after
/// `max_retries` readings.
pub proof fn lemma_wait_settles_on_first_repeat(first: u64, rs: Seq<u64>, max_retries: usize)
    requires
        rs.len() >= max_retries,
    ensures
        ({
            let (settled, n) = wait_run(
                Stability { last_size: first, retries: 0, max_retries },
                rs,
            );
            &&& settled <==> exists|i: int| 0 <= i < max_retries && repeats(first, rs, i)
            &&& settled ==> 1 <= n <= max_retries && repeats(first, rs, n - 1) && forall|j: int|
                0 <= j < n - 1 ==> !repeats(first, rs, j)
            &&& !settled ==> n == max_retries
        }),
{
    lemma_wait_run_from(first, rs, 0, max_retries);
    assert(rs.skip(0) =~= rs);
}

/// The run from the state after `k` differing readings.
proof fn lemma_wait_run_from(first: u64, rs: Seq<u64>, k: usize, max_retries: usize)
    requires
        rs.len() >= max_retries,
        k <= max_retries,
        forall|j: int| 0 <= j < k ==> !repeats(first, rs, j),
    ensures
        ({
            let last = if k == 0 {
                first
            } else {
                rs[k - 1]
            };
            let (settled, n) = wait_run(
                Stability { last_size: last, retries: k, max_retries },
                rs.skip(k as int),
            );
            &&& settled <==> exists|i: int| k <= i < max_retries && repeats(first, rs, i)
            &&& settled ==> 1 <= n <= max_retries - k && repeats(first, rs, k + n - 1) && forall|
                j: int,
            | 0 <= j < k + n - 1 ==> !repeats(first, rs, j)
            &&& !settled ==> n == max_retries - k
        }),
    decreases max_retries - k,
{
    let last = if k == 0 {
        first
    } else {
        rs[k - 1]
    };
    let s = Stability { last_size: last, retries: k, max_retries };
    let tail = rs.skip(k as int);
    if k < max_retries {
        assert(tail[0] == rs[k as int]);
        if rs[k as int] == last {
            assert(repeats(first, rs, k as int));
        } else {
            assert(!repeats(first, rs, k as int));
            lemma_wait_run_from(first, rs, (k + 1) as usize, max_retries);
            assert(tail.drop_first() =~= rs.skip(k + 1));
            let next = Stability {
                last_size: tail[0],
                retries: (k + 1) as usize,
                max_retries,
            };
            assert(wait_run(s, tail) == ({
                let (st, n) = wait_run(next, tail.drop_first());
                (st, n + 1)
            }));
            if exists|i: int| k <= i < max_retries && repeats(first, rs, i) {
                let i = choose|i: int| k <= i < max_retries && repeats(first, rs, i);
                assert(i != k);
            }
        }
    }
}

} // verus!
