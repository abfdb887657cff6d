//! Row partitioning for the threaded image generator: which rows of an image
//! each worker thread renders.

use vstd::prelude::*;

verus! {

/// `a / b`, rounded up.
pub open spec fn ceil_div(a: nat, b: nat) -> nat
    recommends
        b > 0,
{
    if a % b == 0 {
        a / b
    } else {
        a / b + 1
    }
}

/// The number of rows in a full chunk when `height` rows are shared out
/// among `threads` threads.
pub open spec fn rows_per_thread(height: nat, threads: nat) -> nat {
    ceil_div(height, threads)
}

/// The number of chunks that `height` rows are cut into.
pub open spec fn chunk_count(height: nat, threads: nat) -> nat {
    ceil_div(height, rows_per_thread(height, threads))
}

/// The rows `start..end` of the chunk with the given index: every chunk is
/// full but the last, which ends with the image.
pub open spec fn chunk_rows(height: nat, threads: nat, index: nat) -> (nat, nat) {
    let rows = rows_per_thread(height, threads);
    (
        index * rows,
        if (index + 1) * rows <= height {
            (index + 1) * rows
        } else {
            height
        },
    )
}

/// Rounding up: `ceil_div(a, b)` is the least `q` with `q * b >= a`.
pub proof fn lemma_ceil_div(a: nat, b: nat)
    requires
        b > 0,
    ensures
        ceil_div(a, b) * b >= a,
        a > 0 ==> ceil_div(a, b) >= 1 && (ceil_div(a, b) - 1) * b < a,
{
    let c = ceil_div(a, b);
    assert(a == (a / b) * b + a % b && 0 <= a % b < b) by (nonlinear_arith)
        requires
            b > 0,
    ;
    assert(c * b >= a) by (nonlinear_arith)
        requires
            a == (a / b) * b + a % b,
            0 <= a % b < b,
            c == if a % b == 0 {
                a / b
            } else {
                a / b + 1
            },
    ;
    if a > 0 {
        assert(c >= 1 && (c - 1) * b < a) by (nonlinear_arith)
            requires
                a > 0,
                b > 0,
                a == (a / b) * b + a % b,
                0 <= a % b < b,
                c == if a % b == 0 {
                    a / b
                } else {
                    a / b + 1
                },
        ;
    }
}

/// Where the division leaves a remainder, the quotient is below the dividend.
pub proof fn lemma_quotient_below(a: nat, b: nat)
    requires
        b > 0,
    ensures
        a % b != 0 ==> a / b < a,
{
    assert(a == (a / b) * b + a % b && 0 <= a % b < b) by (nonlinear_arith)
        requires
            b > 0,
    ;
    if a % b != 0 {
        assert(a / b < a) by (nonlinear_arith)
            requires
                a == (a / b) * b + a % b,
                a % b > 0,
                b > 0,
        ;
    }
}

/// No smaller number of chunks of `b` rows covers `a` rows.
pub proof fn lemma_ceil_div_least(a: nat, b: nat, q: nat)
    requires
        b > 0,
        q * b >= a,
    ensures
        q >= ceil_div(a, b),
{
    let c = ceil_div(a, b);
    assert(q >= c) by (nonlinear_arith)
        requires
            q * b >= a,
            b > 0,
            c == if a % b == 0 {
                a / b
            } else {
                a / b + 1
            },
    ;
}

/// The chunks tile the image: there is at least one and at most one per
/// thread, the first starts at row 0, each starts where the one before it
/// ends, none is empty, none is longer than a full chunk, and the last ends
/// with the image.
pub proof fn lemma_chunks_tile(height: nat, threads: nat)
    requires
        height > 0,
        threads > 0,
    ensures
        1 <= chunk_count(height, threads) <= threads,
        rows_per_thread(height, threads) >= 1,
        chunk_rows(height, threads, 0).0 == 0,
        chunk_rows(height, threads, (chunk_count(height, threads) - 1) as nat).1 == height,
        forall|i: nat|
            i < chunk_count(height, threads) ==> (#[trigger] chunk_rows(height, threads, i)).0
                < chunk_rows(height, threads, i).1 <= height && chunk_rows(height, threads, i).1
                - chunk_rows(height, threads, i).0 <= rows_per_thread(height, threads),
        forall|i: nat|
            i + 1 < chunk_count(height, threads) ==> (#[trigger] chunk_rows(
                height,
                threads,
                i,
            )).1 == chunk_rows(height, threads, i + 1).0,
{
    let rows = rows_per_thread(height, threads);
    let count = chunk_count(height, threads);
    lemma_ceil_div(height, threads);
    assert(rows >= 1);
    lemma_ceil_div(height, rows);
    assert(threads * rows >= height) by (nonlinear_arith)
        requires
            rows * threads >= height,
    ;
    lemma_ceil_div_least(height, rows, threads);
    assert(count <= threads);
    assert((count - 1) * rows < height);
    assert(count * rows >= height);
    assert forall|i: nat| i < count implies (#[trigger] chunk_rows(height, threads, i)).0
        < chunk_rows(height, threads, i).1 <= height && chunk_rows(height, threads, i).1
        - chunk_rows(height, threads, i).0 <= rows by {
        assert(i * rows <= (count - 1) * rows && (i + 1) * rows == i * rows + rows)
            by (nonlinear_arith)
            requires
                i <= count - 1,
                rows >= 1,
        ;
    }
    assert forall|i: nat| i + 1 < count implies (#[trigger] chunk_rows(height, threads, i)).1
        == chunk_rows(height, threads, i + 1).0 by {
        assert((i + 1) * rows <= (count - 1) * rows) by (nonlinear_arith)
            requires
                i + 1 <= count - 1,
                rows >= 1,
        ;
    }
    assert((count - 1 + 1) * rows == count * rows);
}

/// An image generator that shares the rows of an image out among a fixed
/// number of threads.
#[derive(Debug)]
pub struct ThreadedGenerator {
    threads: usize,
}

impl ThreadedGenerator {
    /// The number of threads the generator was made for.
    pub closed spec fn thread_count(&self) -> nat {
        self.threads as nat
    }

    /// A generator for `threads` threads.
    pub fn new(threads: usize) -> (generator: Self)
        ensures
            generator.thread_count() == threads,
    {
        Self { threads }
    }

    /// The number of threads the generator was made for.
    pub fn threads(&self) -> (threads: usize)
        ensures
            threads == self.thread_count(),
    {
        self.threads
    }

    /// The rows of an image of `height` rows, cut into one chunk `(start,
    /// end)` for each thread that gets work.
    pub fn partition(&self, height: usize) -> (chunks: Vec<(usize, usize)>)
        requires
            self.thread_count() > 0,
            height > 0,
        ensures
            chunks@.len() == chunk_count(height as nat, self.thread_count()),
            forall|i: int|
                0 <= i < chunks@.len() ==> (#[trigger] chunks@[i]).0 == chunk_rows(
                    height as nat,
                    self.thread_count(),
                    i as nat,
                ).0 && chunks@[i].1 == chunk_rows(height as nat, self.thread_count(), i as nat).1,
    {
        let ghost h = height as nat;
        let ghost t = self.threads as nat;
        proof {
            lemma_chunks_tile(h, t);
            lemma_ceil_div(h, t);
            lemma_ceil_div(h, rows_per_thread(h, t));
        }
        proof {
            lemma_quotient_below(h, t);
            lemma_quotient_below(h, rows_per_thread(h, t));
        }
        let rows: usize = (height / self.threads) + if height % self.threads == 0 {
            0
        } else {
            1
        };
        let count: usize = (height / rows) + if height % rows == 0 {
            0
        } else {
            1
        };
        let mut chunks: Vec<(usize, usize)> = Vec::new();
        let mut index: usize = 0;
        while index < count
            invariant
                index <= count,
                h == height,
                t == self.thread_count(),
                h > 0,
                t > 0,
                rows == rows_per_thread(h, t),
                rows >= 1,
                count == chunk_count(h, t),
                (count - 1) * rows < h,
                chunks@.len() == index,
                forall|i: int|
                    0 <= i < index ==> (#[trigger] chunks@[i]).0 == chunk_rows(h, t, i as nat).0
                        && chunks@[i].1 == chunk_rows(h, t, i as nat).1,
            decreases count - index,
        {
            assert(index * rows <= (count - 1) * rows) by (nonlinear_arith)
                requires
                    index <= count - 1,
                    rows >= 1,
            ;
            assert((index + 1) * rows == index * rows + rows)
                by (nonlinear_arith);
            let start = index * rows;
            let end = if height - start >= rows {
                start + rows
            } else {
                height
            };
            chunks.push((start, end));
            index += 1;
        }
        chunks
    }
}

} // verus!
