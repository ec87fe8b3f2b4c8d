use eoa::funcs::{naive_labs, naive_one_max};

fn check_one_max(bits: &[u8], res: i32) {
    assert_eq!(naive_one_max(bits), res);
}

fn check_labs(bits: &[u8], res: i32) {
    assert_eq!(naive_labs(bits), res);
}

#[test]
fn tests_one_max() {
    check_one_max(&[0], 0);
    check_one_max(&[1], 1);
    check_one_max(&[0, 0], 0);
    check_one_max(&[0, 1], 1);
    check_one_max(&[1, 0], 1);
    check_one_max(&[1, 1], 2);
    check_one_max(&[0, 0, 0], 0);
    check_one_max(&[0, 0, 1], 1);
    check_one_max(&[0, 1, 0], 1);
    check_one_max(&[0, 1, 1], 2);
    check_one_max(&[1, 0, 0], 1);
    check_one_max(&[1, 0, 1], 2);
    check_one_max(&[1, 1, 0], 2);
    check_one_max(&[1, 1, 1], 3);
    check_one_max(&[0, 0, 0, 0, 0, 0, 0, 0, 0, 0], 0);
    check_one_max(&[0, 1, 0, 1, 0, 1, 0, 1, 0, 1], 5);
    check_one_max(&[0, 0, 1, 1, 0, 0, 1, 1, 0, 0], 4);
    check_one_max(&[1, 1, 0, 0, 1, 1, 0, 0, 1, 1], 6);
    check_one_max(&[0, 0, 0, 0, 0, 1, 1, 1, 1, 1], 5);
    check_one_max(&[1, 1, 1, 1, 1, 0, 0, 0, 0, 0], 5);
    check_one_max(&[1, 1, 1, 1, 1, 1, 1, 1, 1, 1], 10);
}

#[test]
fn tests_labs() {
    check_labs(&[0], 0);
    check_labs(&[1], 0);
    check_labs(&[0, 0], 1);
    check_labs(&[0, 1], 1);
    check_labs(&[1, 0], 1);
    check_labs(&[1, 1], 1);
    check_labs(&[0, 0, 0], 5);
    check_labs(&[0, 0, 1], 1);
    check_labs(&[0, 1, 0], 5);
    check_labs(&[0, 1, 1], 1);
    check_labs(&[1, 0, 0], 1);
    check_labs(&[1, 0, 1], 5);
    check_labs(&[1, 1, 0], 1);
    check_labs(&[1, 1, 1], 5);
    check_labs(&[0, 0, 0, 0, 0, 0, 0, 0, 0, 0], 285);
    check_labs(&[0, 1, 0, 1, 0, 1, 0, 1, 0, 1], 285);
    check_labs(&[0, 0, 1, 1, 0, 0, 1, 1, 0, 0], 125);
    check_labs(&[1, 1, 0, 0, 1, 1, 0, 0, 1, 1], 125);
    check_labs(&[0, 0, 0, 0, 0, 1, 1, 1, 1, 1], 125);
    check_labs(&[1, 1, 1, 1, 1, 0, 0, 0, 0, 0], 125);
    check_labs(&[1, 1, 1, 1, 1, 1, 1, 1, 1, 1], 285);
}

#[test]
fn zero() {
    let _zero = eoa::bit_array::BitArray::<1>::zero(1);
    assert_eq!(_zero.bit_count, 1);
}

#[test]
fn bit_set_and_get_roundtrip() {
    let mut blocks: Vec<u64> = vec![0, 0];
    eoa::bit_array::set_bit(&mut blocks, 128, 3, true);
    eoa::bit_array::set_bit(&mut blocks, 128, 70, true);
    assert!(eoa::bit_array::get_bit(&blocks, 128, 3));
    assert!(eoa::bit_array::get_bit(&blocks, 128, 70));
    assert!(!eoa::bit_array::get_bit(&blocks, 128, 4));
    eoa::bit_array::set_bit(&mut blocks, 128, 3, false);
    assert!(!eoa::bit_array::get_bit(&blocks, 128, 3));
    assert!(eoa::bit_array::get_bit(&blocks, 128, 70));
}

#[test]
fn find_best_returns_first_minimum() {
    let fitness: Vec<i64> = vec![3, 1, 1, 2];
    assert_eq!(eoa::opt_data::find_best_fitness(&fitness), 1);
}
