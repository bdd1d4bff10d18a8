use guhs::counting::combination;
use guhs::formulas::subset_count;

#[test]
fn subset_count_is_a_power_of_two() {
    assert_eq!(subset_count(0), 1);
    assert_eq!(subset_count(1), 2);
    assert_eq!(subset_count(3), 8);
    assert_eq!(subset_count(10), 1024);
    assert_eq!(subset_count(32), 4_294_967_296);
    assert_eq!(subset_count(63), 9_223_372_036_854_775_808);
}

#[test]
fn subset_count_doubles_with_each_element() {
    for n in 0..63u64 {
        assert_eq!(subset_count(n + 1), 2 * subset_count(n));
    }
}

#[test]
fn subset_count_saturates() {
    assert_eq!(subset_count(64), u64::MAX);
    assert_eq!(subset_count(65), u64::MAX);
    assert_eq!(subset_count(1000), u64::MAX);
    assert_eq!(subset_count(1024), u64::MAX);
    assert_eq!(subset_count(0x7fff_ffff), u64::MAX);
}

#[test]
fn subset_count_reads_the_low_half_as_signed() {
    assert_eq!(subset_count(0x8000_0000), 0);
    assert_eq!(subset_count(0xffff_ffff), 0);
    assert_eq!(subset_count(0x1_0000_0000), 1);
    assert_eq!(subset_count(0x1_0000_0003), 8);
    assert_eq!(subset_count(0x1_0000_0040), u64::MAX);
    assert_eq!(subset_count(u64::MAX), 0);
}

#[test]
fn subset_count_is_the_sum_over_the_sizes() {
    for n in 0..=20u64 {
        let mut by_size: u64 = 0;
        for k in 0..=n {
            by_size += combination(n, k).unwrap();
        }
        assert_eq!(subset_count(n), by_size);
    }
}
