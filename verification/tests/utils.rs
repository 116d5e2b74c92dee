use phantom::transport::hex::encode;
use phantom::utils::bytes::{
    copy_range, get_u16_be, get_u32_le, put_u16_be, put_u16_le, put_u32_le, split_chunks,
    truncate_u32,
};
use phantom::utils::goodness::{chi_squared, count_bins, ks_statistic};
use phantom::utils::http::succeeded;
use phantom::utils::md5::md5;
use phantom::utils::roots::square_root;
use phantom::utils::spread::{
    cv_micro, kurtosis_micro, lag_micro, run_micro, scattered, skewness_micro, square_sum,
    std_micro,
};
use phantom::utils::stats::{nearest, percentile, runs_about_median, sorted};
use phantom::utils::text::{contains, decimal, fixed, join, same};
use phantom::utils::wide::Wide;
use phantom::utils::window::{mean_of, sum_of, SlidingWindow};
use phantom::utils::words::{comes_before, insert_text};

#[test]
fn integers_read_back() {
    let mut out = Vec::new();
    put_u16_le(&mut out, 0x0102);
    put_u16_be(&mut out, 0x0102);
    put_u32_le(&mut out, 0x0a0b0c0d);
    assert_eq!(out, vec![2, 1, 1, 2, 0x0d, 0x0c, 0x0b, 0x0a]);
    assert_eq!(get_u16_be(&out, 2), 0x0102);
    assert_eq!(get_u32_le(&out, 4), 0x0a0b0c0d);
    assert_eq!(copy_range(&out, 1, 3), vec![1, 1]);
    assert_eq!(truncate_u32(0x1_0000_0007), 7);
}

#[test]
fn chunks_spell_the_data() {
    assert_eq!(split_chunks(&[1, 2, 3, 4, 5], 2), vec![vec![1, 2], vec![3, 4], vec![5]]);
    assert_eq!(split_chunks(&[1, 2], 2), vec![vec![1, 2]]);
    assert!(split_chunks(&[], 2).is_empty());
}

#[test]
fn digests_are_the_published_ones() {
    assert_eq!(encode(&md5(b"")), "d41d8cd98f00b204e9800998ecf8427e");
    assert_eq!(encode(&md5(b"a")), "0cc175b9c0f1b6a831c399e269772661");
    assert_eq!(encode(&md5(b"abc")), "900150983cd24fb0d6963f7d28e17f72");
    assert_eq!(encode(&md5(b"message digest")), "f96b697d7cb7938d525a2f31aaf161d0");
    assert_eq!(
        encode(&md5(b"abcdefghijklmnopqrstuvwxyz")),
        "c3fcd3d76192e4007dfb496cca67e13b"
    );
    assert_eq!(
        encode(&md5(b"ABCDEFGHIJKLMNOPQRSTUVWXYZabcdefghijklmnopqrstuvwxyz0123456789")),
        "d174ab98d277d9f5a5611c2c9f419d9f"
    );
    assert_eq!(
        encode(&md5(
            b"12345678901234567890123456789012345678901234567890123456789012345678901234567890"
        )),
        "57edf4a22be3c955ac49da2e2107b67a"
    );
}

#[test]
fn roots_are_exact() {
    for x in [0u128, 1, 2, 3, 4, 15, 16, 17, 1_000_000, u64::MAX as u128] {
        let r = square_root(x);
        assert!(r * r <= x && (r + 1) * (r + 1) > x);
    }
}

#[test]
fn success_is_two_hundred_and_something() {
    assert!(succeeded(200) && succeeded(299));
    assert!(!succeeded(199) && !succeeded(300));
}

#[test]
fn numbers_read_as_text() {
    assert_eq!(decimal(0), "0");
    assert_eq!(decimal(u64::MAX as u128), "18446744073709551615");
    assert_eq!(fixed(1_234_567, 2), "1.23");
    assert_eq!(fixed(-1_250_000, 1), "-1.2");
    assert_eq!(fixed(1_350_000, 1), "1.4");
    assert_eq!(fixed(2_500_000, 0), "2");
    assert_eq!(fixed(999_999, 2), "1.00");
}

#[test]
fn texts_are_searched_and_joined() {
    assert!(contains("abcabd", "abd"));
    assert!(contains("abc", ""));
    assert!(!contains("ab", "abc"));
    assert!(same("\u{00e9}", "\u{00e9}") && !same("a", "b"));
    assert_eq!(join("a", "b"), "ab");
}

#[test]
fn lists_stay_in_order() {
    let mut list = Vec::new();
    for w in ["b", "a", "b", "ab", ""] {
        insert_text(&mut list, w.to_string());
    }
    assert_eq!(list, vec!["", "a", "ab", "b"]);
    assert!(comes_before("a", "ab") && !comes_before("a", "a") && !comes_before("b", "ab"));
}

#[test]
fn a_window_forgets_the_oldest() {
    let mut w = SlidingWindow::new(3);
    for x in [1, 2, 3, 4] {
        w.observe(x);
    }
    assert_eq!(w.len(), 3);
    assert_eq!(w.to_vec(), vec![2, 3, 4]);
    assert_eq!(w.mean_micro(), 3_000_000);
    assert_eq!(w.percentile(50), 300);
    w.clear();
    assert_eq!(w.len(), 0);
    assert_eq!(w.mean_micro(), 0);
    assert_eq!(sum_of(&[1, 2, 3]), 6);
    assert_eq!(mean_of(7, 2), 3_500_000);
}

#[test]
fn percentiles_lie_between_neighbours() {
    assert_eq!(sorted(&[3, 1, 2]), vec![1, 2, 3]);
    assert_eq!(percentile(&[10, 20, 30], 0), 1_000);
    assert_eq!(percentile(&[10, 20, 30], 50), 2_000);
    assert_eq!(percentile(&[10, 20, 30], 75), 2_500);
    assert_eq!(percentile(&[10, 20, 30], 100), 3_000);
    assert_eq!(percentile(&[], 50), 0);
    assert_eq!(nearest(&[10, 20, 30], 50), 20);
    assert_eq!(nearest(&[10, 20, 30], 95), 30);
}

#[test]
fn runs_are_counted() {
    let r = runs_about_median(&[1, 9, 1, 9]);
    assert_eq!((r.runs, r.above, r.below), (4, 2, 2));
    let r = runs_about_median(&[1, 1, 9, 9]);
    assert_eq!(r.runs, 2);
    assert!(run_micro(&r) > 0);
}

#[test]
fn spread_is_measured() {
    let v = [2, 4, 4, 4, 5, 5, 7, 9];
    assert_eq!(square_sum(&v), Wide::of(232));
    assert_eq!(scattered(&v), Wide::of(256));
    assert_eq!(std_micro(&v), 2_000_000);
    assert_eq!(cv_micro(&v), 400_000);
    assert_eq!(std_micro(&[5, 5, 5]), 0);
    assert_eq!(skewness_micro(&[1, 2, 3]), 0);
    // Scores are kept to millionths.
    assert!((skewness_micro(&[0, 0, 0, 4]) - 3_079_201).abs() < 20);
    assert_eq!(kurtosis_micro(&[1, 9, 1, 9]), 1_000_000);
    assert!(lag_micro(&[1, 9, 1, 9, 1, 9]) < 0);
    assert!(lag_micro(&[1, 2, 3, 4, 5, 6]) > 0);
}

#[test]
fn large_numbers_are_measured() {
    let v = [u64::MAX, u64::MAX - 4, u64::MAX, u64::MAX - 4];
    assert_eq!(std_micro(&v), 2_000_000);
    assert_eq!(kurtosis_micro(&v), 1_000_000);
    assert!(lag_micro(&v) < 0);
    let many: Vec<u64> = (0..5000).map(|i| 10 + i % 2).collect();
    assert_eq!(std_micro(&many), 500_000);
}

#[test]
fn numbers_of_256_bits() {
    let top = Wide::product(u128::MAX, u128::MAX);
    assert_eq!((top.high, top.low), (u128::MAX - 1, 1));
    assert_eq!(top.root(), u128::MAX);
    assert_eq!(top.over(Wide::of(u128::MAX)), u128::MAX);
    let (q, r) = top.minus(Wide::of(2)).divide(Wide::of(u128::MAX));
    assert_eq!((q, r), (Wide::of(u128::MAX - 1), Wide::of(u128::MAX - 2)));
    assert!(Wide::of(7).less(top));
    assert!(!top.less(top));
    let sum = Wide::of(u128::MAX).plus(Wide::of(1));
    assert_eq!((sum.high, sum.low), (1, 0));
    assert_eq!(sum.times(5).minus(sum), sum.times(4));
    assert_eq!(sum.root(), 1 << 64);
}

#[test]
fn fit_is_measured() {
    assert_eq!(count_bins(&[0, 5, 10, 10], 0, 10), vec![1, 0, 0, 0, 0, 1, 0, 0, 0, 2]);
    assert_eq!(ks_statistic(&[500_000, 1_000_000]), 0);
    assert_eq!(ks_statistic(&[200_000, 1_000_000]), 300_000);
    assert_eq!(ks_statistic(&[]), 0);
    assert_eq!(chi_squared(&[5, 5], &[5_000_000, 5_000_000], 2), 0);
}
