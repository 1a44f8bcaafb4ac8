use schnorr_zk::encoding::{encode_u64, reduce_be};
use schnorr_zk::modular::{mul_mod, GroupError, ModGroup};

fn group_101() -> ModGroup {
    ModGroup::new(101, 5).unwrap()
}

#[test]
fn power_of_five_to_the_ninth_mod_101() {
    let grp = group_101();
    assert_eq!(grp.power(5, 9), 88);
    assert_eq!(grp.power(5, 0), 1);
    assert_eq!(grp.power(5, 25), 1);
}

#[test]
fn power_matches_repeated_multiplication() {
    let grp = group_101();
    for base in [2u64, 5, 45, 100] {
        let mut naive: u64 = 1;
        for x in 0..100u64 {
            assert_eq!(grp.power(base, x), naive, "base {} exponent {}", base, x);
            naive = naive * base % 101;
        }
    }
}

#[test]
fn power_with_large_modulus_does_not_overflow() {
    let p: u64 = 18446744073709551557; // the largest prime below 2^64
    let grp = ModGroup::new(p, 2).unwrap();
    assert_eq!(grp.power(2, 64), 59);
    assert_eq!(grp.power(p - 1, 2), 1);
    assert_eq!(grp.power(2, p - 1), 1);
}

#[test]
fn combine_and_identity() {
    let grp = group_101();
    assert_eq!(grp.combine(52, 88), 52 * 88 % 101);
    assert_eq!(grp.identity(), 1);
    assert_eq!(mul_mod(u64::MAX, u64::MAX, 1000), 225);
}

#[test]
fn new_accepts_prime_modulus() {
    let grp = group_101();
    assert_eq!(grp, ModGroup { p: 101, g: 5, q: 100 });
}

#[test]
fn new_rejects_bad_modulus() {
    assert_eq!(ModGroup::new(2, 1), Err(GroupError::InvalidModulus));
    assert_eq!(ModGroup::new(0, 1), Err(GroupError::InvalidModulus));
    assert_eq!(ModGroup::new(100, 3), Err(GroupError::InvalidModulus));
    // 91 = 7 * 13 fails the Fermat test to base 2
    assert_eq!(ModGroup::new(91, 2), Err(GroupError::InvalidModulus));
}

#[test]
fn new_rejects_bad_generator() {
    assert_eq!(ModGroup::new(101, 0), Err(GroupError::InvalidGenerator));
    assert_eq!(ModGroup::new(101, 101), Err(GroupError::InvalidGenerator));
    assert_eq!(ModGroup::new(101, 500), Err(GroupError::InvalidGenerator));
}

#[test]
fn with_order_checks_the_order() {
    assert_eq!(
        ModGroup::with_order(101, 5, 25),
        Ok(ModGroup { p: 101, g: 5, q: 25 })
    );
    assert_eq!(ModGroup::with_order(101, 5, 0), Err(GroupError::InvalidOrder));
    assert_eq!(ModGroup::with_order(101, 5, 24), Err(GroupError::InvalidOrder));
    assert_eq!(ModGroup::with_order(4, 1, 1), Err(GroupError::InvalidModulus));
    assert_eq!(ModGroup::with_order(101, 0, 25), Err(GroupError::InvalidGenerator));
}

#[test]
fn encode_is_big_endian_fixed_width() {
    assert_eq!(encode_u64(0), vec![0u8; 8]);
    assert_eq!(encode_u64(0x0102030405060708), vec![1, 2, 3, 4, 5, 6, 7, 8]);
    assert_eq!(encode_u64(88), vec![0, 0, 0, 0, 0, 0, 0, 88]);
}

#[test]
fn reduce_be_is_exact() {
    assert_eq!(reduce_be(&vec![1, 0], 7), 4);
    assert_eq!(reduce_be(&vec![], 7), 0);
    assert_eq!(reduce_be(&vec![0xff; 32], 1), 0);
    // 2^256 - 1 = 0 (mod 3), (mod 5), and 15 (mod 16)
    assert_eq!(reduce_be(&vec![0xff; 32], 3), 0);
    assert_eq!(reduce_be(&vec![0xff; 32], 5), 0);
    assert_eq!(reduce_be(&vec![0xff; 32], 16), 15);
    assert_eq!(reduce_be(&vec![0xff; 32], u64::MAX), 0);
}
