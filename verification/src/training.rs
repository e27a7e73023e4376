//! How training walks through its samples: the batches of each epoch, and the losses it
//! can minimise.
use vstd::prelude::*;

verus! {

/// The loss a model is trained against.
#[derive(Debug, PartialEq, Eq, Structural, Clone, Copy)]
pub enum LossType {
    MSE,
    CrossEntropy,
}

/// Mean squared error.
pub struct MSE;

/// Cross entropy of predicted probabilities against targets.
pub struct CrossEntropy;

/// `⌈n / b⌉`.
pub open spec fn ceil_div(n: int, b: int) -> int {
    (n + b - 1) / b
}

/// Number of batches an epoch over `num_samples` samples takes.
pub fn num_batches(num_samples: usize, batch_size: usize) -> (r: usize)
    requires
        batch_size > 0,
    ensures
        r == ceil_div(num_samples as int, batch_size as int),
{
    proof {
        lemma_ceil_div_parts(num_samples as int, batch_size as int);
    }
    let whole = num_samples / batch_size;
    if num_samples % batch_size > 0 {
        whole + 1
    } else {
        whole
    }
}

/// `⌈n / b⌉` is the quotient, plus one when there is a remainder; that sum is at most `n`
/// when there is a remainder.
proof fn lemma_ceil_div_parts(n: int, b: int)
    requires
        n >= 0,
        b > 0,
    ensures
        ceil_div(n, b) == n / b + if n % b > 0 {
            1int
        } else {
            0int
        },
        n % b > 0 ==> n / b + 1 <= n,
{
    let q = n / b;
    let r = n % b;
    assert(n == q * b + r && 0 <= r < b && q >= 0) by (nonlinear_arith)
        requires
            n >= 0,
            b > 0,
            q == n / b,
            r == n % b,
    ;
    let c = if r > 0 {
        1int
    } else {
        0int
    };
    assert((n + b - 1) / b == q + c) by (nonlinear_arith)
        requires
            n == q * b + r,
            0 <= r < b,
            c == (if r > 0 {
                1int
            } else {
                0int
            }),
            b > 0,
    {
        assert(n + b - 1 == (q + c) * b + (r + b - 1 - c * b));
        assert(0 <= r + b - 1 - c * b < b);
    }
    if r > 0 {
        assert(q + 1 <= n) by (nonlinear_arith)
            requires
                n == q * b + r,
                r >= 1,
                b >= 1,
                q >= 0,
        ;
    }
}

/// The samples `start..end` of batch `i`: `i * batch_size` up to `batch_size` more, cut at
/// `num_samples`.
pub open spec fn batch_at(i: int, batch_size: int, num_samples: int) -> (int, int) {
    let start = i * batch_size;
    let end = if start + batch_size < num_samples {
        start + batch_size
    } else {
        num_samples
    };
    (start, end)
}

/// The batches of an epoch over `num_samples` samples, in order. They are non-empty, each
/// starts where the one before ends, the first starts at 0, the last ends at `num_samples`,
/// and none holds more than `batch_size` samples.
pub fn batch_ranges(num_samples: usize, batch_size: usize) -> (r: Vec<(usize, usize)>)
    requires
        batch_size > 0,
    ensures
        r.len() == ceil_div(num_samples as int, batch_size as int),
        forall|i: int|
            0 <= i < r.len() ==> (#[trigger] r@[i]).0 as int == batch_at(i, batch_size as int, num_samples as int).0
                && r@[i].1 as int == batch_at(i, batch_size as int, num_samples as int).1,
        forall|i: int|
            0 <= i < r.len() ==> (#[trigger] r@[i]).0 < r@[i].1 && r@[i].1 - r@[i].0 <= batch_size,
        forall|i: int| 0 <= i < r.len() - 1 ==> (#[trigger] r@[i]).1 == r@[i + 1].0,
        r.len() > 0 ==> r@[0].0 == 0 && r@[r.len() - 1].1 == num_samples,
        r.len() == 0 <==> num_samples == 0,
{
    let count = num_batches(num_samples, batch_size);
    let mut r: Vec<(usize, usize)> = Vec::new();
    let mut i: usize = 0;
    while i < count
        invariant
            batch_size > 0,
            count == ceil_div(num_samples as int, batch_size as int),
            i <= count,
            r.len() == i,
            forall|k: int|
                0 <= k < i ==> (#[trigger] r@[k]).0 as int == batch_at(k, batch_size as int, num_samples as int).0
                    && r@[k].1 as int == batch_at(k, batch_size as int, num_samples as int).1,
        decreases count - i,
    {
        proof {
            lemma_ceil_div_step(num_samples as int, batch_size as int, i as int);
        }
        let start = i * batch_size;
        let end = if batch_size < num_samples - start {
            start + batch_size
        } else {
            num_samples
        };
        r.push((start, end));
        i = i + 1;
    }
    proof {
        let n = num_samples as int;
        let b = batch_size as int;
        assert forall|k: int| 0 <= k < r.len() implies (#[trigger] r@[k]).0 < r@[k].1 && r@[k].1 - r@[k].0
            <= batch_size by {
            lemma_ceil_div_step(n, b, k);
        }
        assert forall|k: int| 0 <= k < r.len() - 1 implies (#[trigger] r@[k]).1 == r@[k + 1].0 by {
            lemma_ceil_div_step(n, b, k + 1);
            assert((k + 1) * b == k * b + b) by (nonlinear_arith);
        }
        if r.len() > 0 {
            let k = r.len() - 1;
            lemma_ceil_div_step(n, b, k + 1);
            assert((k + 1) * b == k * b + b) by (nonlinear_arith);
            assert(0 * b == 0);
        }
        lemma_ceil_div_step(n, b, 0);
    }
    r
}

/// `i < ⌈n / b⌉` exactly when batch `i` starts before `n`.
proof fn lemma_ceil_div_step(n: int, b: int, i: int)
    requires
        b > 0,
        n >= 0,
        i >= 0,
    ensures
        (i < ceil_div(n, b)) == (i * b < n),
{
    assert((i < (n + b - 1) / b) == (i * b < n)) by (nonlinear_arith)
        requires
            b > 0,
            n >= 0,
            i >= 0,
    ;
}

} // verus!
