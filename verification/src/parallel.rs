//! The configuration of a parallel iteration and how its initial items are
//! shared out among the worker queues; the threads themselves run outside
//! the library.

use vstd::prelude::*;

verus! {

/// A batch of items to process with a number of worker threads.
pub struct ParallelIter<T> {
    items: Vec<T>,
    threads: usize,
}

impl<T> ParallelIter<T> {
    /// The items, in order.
    pub closed spec fn items(&self) -> Seq<T> {
        self.items@
    }

    /// The number of worker threads.
    pub closed spec fn thread_count(&self) -> usize {
        self.threads
    }

    /// A parallel iteration over `items` with one thread.
    pub fn new(items: Vec<T>) -> (p: Self)
        ensures
            p.items() == items@,
            p.thread_count() == 1,
    {
        ParallelIter { items, threads: 1 }
    }

    /// Sets the number of threads (which must not be zero).
    pub fn threads(self, threads: usize) -> (p: Self)
        requires
            threads > 0,
        ensures
            p.items() == self.items(),
            p.thread_count() == threads,
    {
        ParallelIter { items: self.items, threads }
    }

    /// The items and the thread count, to run the iteration with.
    pub fn into_parts(self) -> (r: (Vec<T>, usize))
        ensures
            r.0@ == self.items(),
            r.1 == self.thread_count(),
    {
        (self.items, self.threads)
    }
}

/// The item of `init` that worker queue `q` receives as its `j`-th push
/// when `init` is shared out over `threads` queues: the items are taken
/// from the last to the first and dealt out in turn.
pub open spec fn dealt(init: Seq<int>, threads: int, q: int, j: int) -> int {
    init.len() - 1 - (q + j * threads)
}

/// How many of the first `dealt_so_far` items worker queue `q` holds when
/// items are dealt in turn over `threads` queues.
pub open spec fn share(dealt_so_far: int, threads: int, q: int) -> int {
    if q < dealt_so_far % threads {
        dealt_so_far / threads + 1
    } else {
        dealt_so_far / threads
    }
}

proof fn lemma_share_step(i: int, threads: int, q: int)
    requires
        0 <= i,
        0 < threads,
        0 <= q < threads,
    ensures
        share(i + 1, threads, q) == share(i, threads, q) + (if q == i % threads { 1int } else { 0int }),
        q == i % threads ==> i == q + share(i, threads, q) * threads,
{
    let a = i / threads;
    let b = i % threads;
    assert(i == a * threads + b && 0 <= b < threads) by (nonlinear_arith)
        requires a == i / threads, b == i % threads, threads > 0;
    if b + 1 < threads {
        assert((i + 1) / threads == a && (i + 1) % threads == b + 1) by (nonlinear_arith)
            requires i == a * threads + b, 0 <= b, b + 1 < threads;
    } else {
        assert((i + 1) / threads == a + 1 && (i + 1) % threads == 0) by (nonlinear_arith)
            requires i == a * threads + b, b + 1 == threads, threads > 0;
    }
}

proof fn lemma_share_bounds(n: int, threads: int, q: int)
    requires
        0 <= n,
        0 < threads,
        0 <= q < threads,
    ensures
        share(n, threads, q) * threads + q >= n,
        (share(n, threads, q) - 1) * threads + q < n,
{
    let a = n / threads;
    let b = n % threads;
    let l = share(n, threads, q);
    assert(n == a * threads + b && 0 <= b < threads) by (nonlinear_arith)
        requires a == n / threads, b == n % threads, threads > 0;
    assert(l * threads + q >= n && (l - 1) * threads + q < n) by (nonlinear_arith)
        requires n == a * threads + b, 0 <= b < threads, 0 <= q < threads,
            l == (if q < b { a + 1 } else { a });
}

/// Shares `init` out over `threads` worker queues: the items are taken from
/// the last to the first and dealt to the queues in turn, so queue `q`
/// receives, in push order, the items at reversed positions `q`,
/// `q + threads`, `q + 2 * threads`, ...
pub fn distribute<T>(threads: usize, init: Vec<T>) -> (queues: Vec<Vec<T>>)
    requires
        threads > 0,
    ensures
        queues@.len() == threads,
        forall|q: int, j: int| 0 <= q < threads && 0 <= j < queues@[q]@.len() ==>
            #[trigger] queues@[q]@[j] == init@[init@.len() - 1 - (q + j * threads)],
        forall|q: int| 0 <= q < threads ==> #[trigger] queues@[q]@.len() * threads + q >= init@.len()
            && (queues@[q]@.len() - 1) * threads + q < init@.len(),
{
    let mut queues: Vec<Vec<T>> = Vec::new();
    let mut k: usize = 0;
    while k < threads
        invariant
            0 <= k <= threads,
            queues@.len() == k,
            forall|q: int| 0 <= q < k ==> #[trigger] queues@[q]@.len() == 0,
        decreases threads - k,
    {
        queues.push(Vec::new());
        k = k + 1;
    }
    let ghost orig = init@;
    let n = init.len();
    let mut rest = init;
    let mut i: usize = 0;
    while i < n
        invariant
            0 <= i <= n,
            n == orig.len(),
            rest@ == orig.take(n - i),
            queues@.len() == threads,
            threads > 0,
            forall|q: int, j: int| 0 <= q < threads && 0 <= j < queues@[q]@.len() ==>
                #[trigger] queues@[q]@[j] == orig[n - 1 - (q + j * threads)],
            forall|q: int| 0 <= q < threads ==> #[trigger] queues@[q]@.len() == share(i as int, threads as int, q),
        decreases n - i,
    {
        let item = rest.pop().unwrap();
        let q = i % threads;
        let ghost before = queues@;
        let mut slot: Vec<T> = Vec::new();
        std::mem::swap(&mut slot, &mut queues[q]);
        slot.push(item);
        std::mem::swap(&mut slot, &mut queues[q]);
        proof {
            assert(rest@ =~= orig.take(n - i - 1));
            assert(item == orig[n - 1 - i]);
            lemma_share_step(i as int, threads as int, q as int);
            let len_q = before[q as int]@.len();
            assert(len_q == share(i as int, threads as int, q as int));
            assert(queues@[q as int]@ == before[q as int]@.push(item));
            assert(forall|qq: int| 0 <= qq < threads && qq != q ==> queues@[qq] == before[qq]);
            assert forall|qq: int| 0 <= qq < threads implies #[trigger] queues@[qq]@.len() == share(i + 1, threads as int, qq) by {
                lemma_share_step(i as int, threads as int, qq);
            }
            assert forall|qq: int, j: int| 0 <= qq < threads && 0 <= j < queues@[qq]@.len() implies
                #[trigger] queues@[qq]@[j] == orig[n - 1 - (qq + j * threads)] by {
                if qq == q && j == len_q {
                    assert(i == q + len_q * threads);
                } else {
                    assert(queues@[qq]@[j] == before[qq]@[j]);
                }
            }
        }
        i = i + 1;
    }
    proof {
        assert forall|q: int| 0 <= q < threads implies #[trigger] queues@[q]@.len() * threads + q >= n
            && (queues@[q]@.len() - 1) * threads + q < n by {
            assert(queues@[q]@.len() == share(n as int, threads as int, q));
            lemma_share_bounds(n as int, threads as int, q);
        }
    }
    queues
}

} // verus!
