use vizia_scope::num::ONE;
use vizia_scope::reduce::bucket_size;
use vizia_scope::reduce::envelope_reduce;
use vizia_scope::reduce::mean_reduce;

#[test]
fn mean_of_evenly_divisible_buffer() {
    // 6 samples in 2 buckets of 3: each reduced value is the bucket mean.
    let samples: Vec<i64> = vec![1, 2, 3, 4, 5, 6];
    let means = mean_reduce(&samples, 3);
    assert_eq!(means, vec![2, 5]);
}

#[test]
fn mean_is_order_independent_within_buckets() {
    let a: Vec<i64> = vec![10, 20, 30, -7, -9, -14];
    let b: Vec<i64> = vec![30, 10, 20, -14, -7, -9];
    assert_eq!(mean_reduce(&a, 3), mean_reduce(&b, 3));
}

#[test]
fn mean_truncates_toward_zero() {
    let samples: Vec<i64> = vec![-5, -4];
    assert_eq!(mean_reduce(&samples, 2), vec![-4]);
    let samples2: Vec<i64> = vec![5, 4];
    assert_eq!(mean_reduce(&samples2, 2), vec![4]);
}

#[test]
fn mean_short_last_bucket() {
    let samples: Vec<i64> = vec![2, 4, 9];
    assert_eq!(mean_reduce(&samples, 2), vec![3, 9]);
}

#[test]
fn envelope_exact_min_max() {
    let samples: Vec<i64> = vec![3, -1, 4, -1, 5];
    let env = envelope_reduce(&samples, 2);
    assert_eq!(env, vec![(-1, 3), (-1, 4), (5, 5)]);
}

#[test]
fn envelope_bounds_every_sample() {
    let samples: Vec<i64> = vec![7, -3, 12, 0, -8, 5, 2, 2];
    let env = envelope_reduce(&samples, 4);
    for (b, &(mn, mx)) in env.iter().enumerate() {
        for &s in &samples[b * 4..((b + 1) * 4).min(samples.len())] {
            assert!(mn <= s && s <= mx);
        }
        assert!(samples[b * 4..((b + 1) * 4).min(samples.len())].contains(&mn));
        assert!(samples[b * 4..((b + 1) * 4).min(samples.len())].contains(&mx));
    }
}

#[test]
fn envelope_single_sample_buckets() {
    let samples: Vec<i64> = vec![9, -9];
    let env = envelope_reduce(&samples, 1);
    assert_eq!(env, vec![(9, 9), (-9, -9)]);
}

#[test]
fn bucket_size_one_per_pixel_column() {
    // 1000 samples over 100 pixels: 10 samples per bucket.
    assert_eq!(bucket_size(1000, 100 * ONE), 10);
}

#[test]
fn bucket_size_capped_at_length() {
    // a buffer narrower than a pixel forms a single bucket
    assert_eq!(bucket_size(2, ONE), 2);
}

#[test]
fn bucket_size_truncates() {
    // 150 samples over 100 pixels: floor(1.5) = 1 sample per bucket.
    assert_eq!(bucket_size(150, 100 * ONE), 1);
}
