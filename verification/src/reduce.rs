//! The bucket reducer: partitions a sample buffer into one bucket per
//! pixel column and reduces each bucket either to its arithmetic mean or
//! to its (min, max) envelope.

use crate::num::MAX_SAMPLES;
use crate::num::ONE;
use crate::num::div_fix;
use crate::num::lemma_div_range;
use crate::num::lemma_tdiv_bounds;
use crate::num::tdiv;
use vstd::arithmetic::div_mod::lemma_div_is_ordered;
use vstd::arithmetic::div_mod::lemma_div_multiples_vanish_fancy;
use vstd::arithmetic::div_mod::lemma_fundamental_div_mod;
use vstd::arithmetic::mul::lemma_mul_inequality;
use vstd::arithmetic::mul::lemma_mul_is_distributive_add_other_way;
use vstd::prelude::*;
use vstd::seq_lib::commutative_foldr;
use vstd::seq_lib::group_to_multiset_ensures;
use vstd::seq_lib::lemma_fold_right_permutation;

verus! {

/// Sum of a sequence of samples.
pub open spec fn seq_sum(s: Seq<i64>) -> int
    decreases s.len(),
{
    if s.len() == 0 {
        0
    } else {
        seq_sum(s.drop_last()) + s.last()
    }
}

/// Least sample value of a non-empty sequence.
pub open spec fn seq_min(s: Seq<i64>) -> int
    decreases s.len(),
{
    if s.len() <= 1 {
        s[0] as int
    } else {
        let m = seq_min(s.drop_last());
        if s.last() < m {
            s.last() as int
        } else {
            m
        }
    }
}

/// Greatest sample value of a non-empty sequence.
pub open spec fn seq_max(s: Seq<i64>) -> int
    decreases s.len(),
{
    if s.len() <= 1 {
        s[0] as int
    } else {
        let m = seq_max(s.drop_last());
        if s.last() > m {
            s.last() as int
        } else {
            m
        }
    }
}

/// How many buckets `len` samples form at `size` samples per bucket: the
/// last bucket may be shorter.
pub open spec fn bucket_count(len: int, size: int) -> int {
    (len + size - 1) / size
}

/// Bucket `i` of a buffer: the `i`-th contiguous chunk of `size` samples,
/// cut short at the end of the buffer.
pub open spec fn bucket_of(s: Seq<i64>, size: int, i: int) -> Seq<i64> {
    s.subrange(
        i * size,
        if (i + 1) * size <= s.len() {
            (i + 1) * size
        } else {
            s.len() as int
        },
    )
}

/// The arithmetic mean of a non-empty bucket, rounded toward zero.
pub open spec fn bucket_mean(s: Seq<i64>) -> int {
    tdiv(seq_sum(s), s.len() as int)
}

/// Samples per bucket for a buffer of `len` samples over a rectangle `w`
/// units wide (one bucket per pixel column), capped at the buffer length
/// so that a sparse buffer forms a single bucket.
pub open spec fn eff_bucket_size(len: int, w: int) -> int {
    let b = (len * ONE) / w;
    if b > len {
        len
    } else {
        b
    }
}

/// Executable counterpart of [`eff_bucket_size`].
pub fn bucket_size(len: usize, w: i64) -> (r: usize)
    requires
        w > 0,
        len <= MAX_SAMPLES,
    ensures
        r == eff_bucket_size(len as int, w as int),
{
    let n: u128 = (len as u128) * (ONE as u128);
    let q: u128 = n / (w as u128);
    if q > len as u128 {
        len
    } else {
        q as usize
    }
}

/// Mean-mode reduction: one value per bucket, the truncated arithmetic
/// mean of the bucket's samples.
pub fn mean_reduce(samples: &Vec<i64>, size: usize) -> (r: Vec<i64>)
    requires
        size >= 1,
        samples.len() <= MAX_SAMPLES,
    ensures
        r@.len() == bucket_count(samples@.len() as int, size as int),
        forall|i: int|
            0 <= i < r@.len() ==> r@[i] == bucket_mean(bucket_of(samples@, size as int, i)),
{
    let len = samples.len();
    let mut r: Vec<i64> = Vec::new();
    let mut start: usize = 0;
    let ghost mut b: int = 0;
    while start < len
        invariant
            size >= 1,
            len == samples@.len() <= MAX_SAMPLES,
            r@.len() == b,
            0 <= b,
            start == if b * size <= len {
                b * size
            } else {
                len as int
            },
            b * size < len + size,
            forall|i: int| 0 <= i < b ==> r@[i] == bucket_mean(bucket_of(samples@, size as int, i)),
        decreases len - start,
    {
        proof {
            if b * size > len {
                assert(start == len);
                assert(false);
            }
        }
        let end: usize = if len - start >= size {
            start + size
        } else {
            len
        };
        let ghost bucket = samples@.subrange(start as int, end as int);
        proof {
            assert(bucket =~= bucket_of(samples@, size as int, b)) by {
                lemma_mul_is_distributive_add_other_way(size as int, b, 1);
            }
        }
        let mut acc: i128 = 0;
        let mut j: usize = start;
        while j < end
            invariant
                start <= j <= end <= samples@.len(),
                samples@.len() <= MAX_SAMPLES,
                acc == seq_sum(samples@.subrange(start as int, j as int)),
                -(j - start) * 0x8000_0000_0000_0000 <= acc <= (j - start) * 0x7FFF_FFFF_FFFF_FFFF,
            decreases end - j,
        {
            let ghost pre = samples@.subrange(start as int, j as int);
            let ghost post = samples@.subrange(start as int, j + 1);
            proof {
                assert(post.drop_last() =~= pre);
                assert(post.last() == samples@[j as int]);
                assert((j + 1 - start) * 0x8000_0000_0000_0000 == (j - start) * 0x8000_0000_0000_0000
                    + 0x8000_0000_0000_0000) by {
                    lemma_mul_is_distributive_add_other_way(0x8000_0000_0000_0000, j - start, 1);
                }
                assert((j + 1 - start) * 0x7FFF_FFFF_FFFF_FFFF == (j - start) * 0x7FFF_FFFF_FFFF_FFFF
                    + 0x7FFF_FFFF_FFFF_FFFF) by {
                    lemma_mul_is_distributive_add_other_way(0x7FFF_FFFF_FFFF_FFFF, j - start, 1);
                }
                lemma_mul_inequality(j - start, MAX_SAMPLES as int, 0x8000_0000_0000_0000);
                lemma_mul_inequality(j - start, MAX_SAMPLES as int, 0x7FFF_FFFF_FFFF_FFFF);
            }
            acc = acc + samples[j] as i128;
            j = j + 1;
        }
        let blen: usize = end - start;
        proof {
            lemma_mul_inequality(blen as int, MAX_SAMPLES as int, 0x8000_0000_0000_0000);
            lemma_mul_inequality(blen as int, MAX_SAMPLES as int, 0x7FFF_FFFF_FFFF_FFFF);
            assert(blen as int * (-0x8000_0000_0000_0000) == -((blen as int)
                * 0x8000_0000_0000_0000)) by {
                vstd::arithmetic::mul::lemma_mul_unary_negation(blen as int, 0x8000_0000_0000_0000);
                vstd::arithmetic::mul::lemma_mul_is_commutative(
                    blen as int,
                    -0x8000_0000_0000_0000,
                );
                vstd::arithmetic::mul::lemma_mul_is_commutative(blen as int, 0x8000_0000_0000_0000);
            }
            lemma_tdiv_bounds(acc as int, blen as int, -0x8000_0000_0000_0000, 0x7FFF_FFFF_FFFF_FFFF);
        }
        let mean: i128 = div_fix(acc, blen as i128);
        r.push(mean as i64);
        proof {
            assert(mean == bucket_mean(bucket));
            b = b + 1;
            lemma_mul_is_distributive_add_other_way(size as int, b - 1, 1);
        }
        start = end;
    }
    proof {
        if b * size <= len {
            assert(start == b * size == len);
            assert((b * size + (size - 1)) / size as int == b) by {
                lemma_div_multiples_vanish_fancy(b, size - 1, size as int);
                vstd::arithmetic::mul::lemma_mul_is_commutative(b, size as int);
            }
        } else {
            assert(len < b * size < len + size);
            assert(b >= 1);
            assert(bucket_count(len as int, size as int) == b) by {
                assert(size as int * b <= len + size - 1 < size as int * (b + 1)) by {
                    vstd::arithmetic::mul::lemma_mul_is_commutative(b, size as int);
                    lemma_mul_is_distributive_add_other_way(size as int, b, 1);
                    vstd::arithmetic::mul::lemma_mul_is_commutative(b + 1, size as int);
                }
                lemma_div_range(len + size - 1, size as int, b);
            }
        }
    }
    r
}

/// Envelope-mode reduction: one `(min, max)` pair per bucket, found by a
/// single linear scan of each bucket.
pub fn envelope_reduce(samples: &Vec<i64>, size: usize) -> (r: Vec<(i64, i64)>)
    requires
        size >= 1,
        samples.len() <= MAX_SAMPLES,
    ensures
        r@.len() == bucket_count(samples@.len() as int, size as int),
        forall|i: int|
            0 <= i < r@.len() ==> (#[trigger] r@[i]).0 == seq_min(
                bucket_of(samples@, size as int, i),
            ) && r@[i].1 == seq_max(bucket_of(samples@, size as int, i)),
{
    let len = samples.len();
    let mut r: Vec<(i64, i64)> = Vec::new();
    let mut start: usize = 0;
    let ghost mut b: int = 0;
    while start < len
        invariant
            size >= 1,
            len == samples@.len() <= MAX_SAMPLES,
            r@.len() == b,
            0 <= b,
            start == if b * size <= len {
                b * size
            } else {
                len as int
            },
            b * size < len + size,
            forall|i: int|
                0 <= i < b ==> (#[trigger] r@[i]).0 == seq_min(bucket_of(samples@, size as int, i))
                    && r@[i].1 == seq_max(bucket_of(samples@, size as int, i)),
        decreases len - start,
    {
        proof {
            if b * size > len {
                assert(start == len);
                assert(false);
            }
        }
        let end: usize = if len - start >= size {
            start + size
        } else {
            len
        };
        let ghost bucket = samples@.subrange(start as int, end as int);
        proof {
            assert(bucket =~= bucket_of(samples@, size as int, b)) by {
                lemma_mul_is_distributive_add_other_way(size as int, b, 1);
            }
        }
        let mut mn: i64 = samples[start];
        let mut mx: i64 = samples[start];
        let mut j: usize = start + 1;
        proof {
            assert(samples@.subrange(start as int, start + 1) =~= seq![samples@[start as int]]);
        }
        while j < end
            invariant
                start < j <= end <= samples@.len(),
                mn == seq_min(samples@.subrange(start as int, j as int)),
                mx == seq_max(samples@.subrange(start as int, j as int)),
            decreases end - j,
        {
            let ghost pre = samples@.subrange(start as int, j as int);
            let ghost post = samples@.subrange(start as int, j + 1);
            proof {
                assert(post.drop_last() =~= pre);
                assert(post.last() == samples@[j as int]);
            }
            let v = samples[j];
            if v < mn {
                mn = v;
            }
            if v > mx {
                mx = v;
            }
            j = j + 1;
        }
        r.push((mn, mx));
        proof {
            b = b + 1;
            lemma_mul_is_distributive_add_other_way(size as int, b - 1, 1);
        }
        start = end;
    }
    proof {
        if b * size <= len {
            assert(start == b * size == len);
            assert((b * size + (size - 1)) / size as int == b) by {
                lemma_div_multiples_vanish_fancy(b, size - 1, size as int);
                vstd::arithmetic::mul::lemma_mul_is_commutative(b, size as int);
            }
        } else {
            assert(len < b * size < len + size);
            assert(bucket_count(len as int, size as int) == b) by {
                assert(size as int * b <= len + size - 1 < size as int * (b + 1)) by {
                    vstd::arithmetic::mul::lemma_mul_is_commutative(b, size as int);
                    lemma_mul_is_distributive_add_other_way(size as int, b, 1);
                    vstd::arithmetic::mul::lemma_mul_is_commutative(b + 1, size as int);
                }
                lemma_div_range(len + size - 1, size as int, b);
            }
        }
    }
    r
}

/// A buffer of `len` samples at `size` per bucket forms between one
/// bucket and one bucket per sample.
pub proof fn lemma_bucket_count_range(len: int, size: int)
    requires
        1 <= size,
        1 <= len,
    ensures
        1 <= bucket_count(len, size) <= len,
{
    assert(size <= len + size - 1);
    lemma_div_is_ordered(size, len + size - 1, size);
    vstd::arithmetic::div_mod::lemma_div_by_self(size);
    assert(len + size - 1 <= len * size) by (nonlinear_arith)
        requires
            1 <= size,
            1 <= len,
    ;
    lemma_div_is_ordered(len + size - 1, len * size, size);
    assert((len * size) / size == len) by {
        vstd::arithmetic::mul::lemma_mul_is_commutative(len, size);
        vstd::arithmetic::div_mod::lemma_div_multiples_vanish(len, size);
    }
}

/// A buffer wide enough for its rectangle forms buckets of at least one
/// sample.
pub proof fn lemma_eff_size_pos(len: int, w: int)
    requires
        1 <= len,
        0 < w,
        len * ONE >= w,
    ensures
        1 <= eff_bucket_size(len, w),
{
    lemma_div_is_ordered(w, len * ONE, w);
    vstd::arithmetic::div_mod::lemma_div_by_self(w);
}

/// When the buffer's length is evenly divisible by the bucket size,
/// every bucket holds exactly `size` samples: the mean-reduced value of
/// each bucket is then the arithmetic mean of exactly `len / size`-th of
/// the buffer.
pub proof fn lemma_full_buckets(s: Seq<i64>, size: int, i: int)
    requires
        1 <= size,
        s.len() as int % size == 0,
        0 <= i < bucket_count(s.len() as int, size),
    ensures
        bucket_of(s, size, i).len() == size,
{
    let len = s.len() as int;
    let q = len / size;
    lemma_fundamental_div_mod(len, size);
    assert(len == size * q);
    assert(bucket_count(len, size) == q) by {
        lemma_div_multiples_vanish_fancy(q, size - 1, size);
    }
    assert((i + 1) * size <= q * size) by {
        lemma_mul_inequality(i + 1, q, size);
    }
    assert(q * size == size * q) by {
        vstd::arithmetic::mul::lemma_mul_is_commutative(q, size);
    }
    assert((i + 1) * size == i * size + size) by {
        lemma_mul_is_distributive_add_other_way(size, i, 1);
    }
    assert(0 <= i * size) by {
        vstd::arithmetic::mul::lemma_mul_nonnegative(i, size);
    }
}

/// The sum of a sequence, written as a right fold.
proof fn lemma_sum_as_fold(s: Seq<i64>, v: int)
    ensures
        seq_sum(s) + v == s.fold_right(|a: i64, b: int| a + b, v),
    decreases s.len(),
{
    if s.len() > 0 {
        lemma_sum_as_fold(s.drop_last(), s.last() + v);
    }
}

/// The sum of a bucket does not depend on the order of its samples: two
/// buckets holding the same samples with the same multiplicities have
/// equal sums.
pub proof fn lemma_sum_permutation(s1: Seq<i64>, s2: Seq<i64>)
    requires
        s1.to_multiset() == s2.to_multiset(),
    ensures
        seq_sum(s1) == seq_sum(s2),
{
    let f = |a: i64, b: int| a + b;
    assert(commutative_foldr(f)) by {
        assert forall|x: i64, y: i64, v: int| #[trigger] f(x, f(y, v)) == f(y, f(x, v)) by {}
    }
    lemma_fold_right_permutation(s1, s2, f, 0);
    lemma_sum_as_fold(s1, 0);
    lemma_sum_as_fold(s2, 0);
}

/// Mean reduction is independent of value order within the bucket: a
/// reordered bucket reduces to the same mean.
pub proof fn lemma_mean_permutation(s1: Seq<i64>, s2: Seq<i64>)
    requires
        s1.to_multiset() == s2.to_multiset(),
    ensures
        bucket_mean(s1) == bucket_mean(s2),
{
    broadcast use group_to_multiset_ensures;

    lemma_sum_permutation(s1, s2);
    assert(s1.len() == s1.to_multiset().len());
    assert(s2.len() == s2.to_multiset().len());
}

/// Envelope reduction is exact: every sample of a non-empty bucket lies
/// between the reduced minimum and maximum, and both bounds are attained
/// by samples of the bucket.
pub proof fn lemma_envelope_exact(s: Seq<i64>)
    requires
        s.len() >= 1,
    ensures
        forall|i: int| 0 <= i < s.len() ==> seq_min(s) <= #[trigger] s[i] <= seq_max(s),
        exists|i: int| 0 <= i < s.len() && s[i] == seq_min(s),
        exists|i: int| 0 <= i < s.len() && s[i] == seq_max(s),
    decreases s.len(),
{
    if s.len() > 1 {
        lemma_envelope_exact(s.drop_last());
        assert(forall|i: int| 0 <= i < s.len() - 1 ==> s.drop_last()[i] == s[i]);
        let j = choose|i: int| 0 <= i < s.len() - 1 && s.drop_last()[i] == seq_min(s.drop_last());
        let k = choose|i: int| 0 <= i < s.len() - 1 && s.drop_last()[i] == seq_max(s.drop_last());
        if s.last() < seq_min(s.drop_last()) {
            assert(s[s.len() - 1] == seq_min(s));
        } else {
            assert(s[j] == seq_min(s));
        }
        if s.last() > seq_max(s.drop_last()) {
            assert(s[s.len() - 1] == seq_max(s));
        } else {
            assert(s[k] == seq_max(s));
        }
    } else {
        assert(s[0] == seq_min(s));
        assert(s[0] == seq_max(s));
    }
}

} // verus!
