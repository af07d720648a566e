use secure_sum::ring::{add, sub};

const MODULUS: u64 = 1 << 32;

fn reference_add(a: u32, b: u32) -> u32 {
    ((a as u64 + b as u64) % MODULUS) as u32
}

fn reference_sub(a: u32, b: u32) -> u32 {
    ((a as u64 + MODULUS - b as u64) % MODULUS) as u32
}

const SAMPLES: [u32; 12] = [
    0,
    1,
    2,
    5,
    12,
    0x7fff_ffff,
    0x8000_0000,
    0x8000_0001,
    0xdead_beef,
    0xffff_fffd,
    0xffff_fffe,
    0xffff_ffff,
];

#[test]
fn add_without_overflow_is_plain_addition() {
    assert_eq!(add(0, 0), 0);
    assert_eq!(add(5, 7), 12);
    assert_eq!(add(0x7fff_ffff, 1), 0x8000_0000);
    assert_eq!(add(0xffff_fffe, 1), 0xffff_ffff);
}

#[test]
fn add_wraps_at_the_modulus() {
    assert_eq!(add(0xffff_ffff, 1), 0);
    assert_eq!(add(0xffff_ffff, 5), 4);
    assert_eq!(add(0xffff_ffff, 0xffff_ffff), 0xffff_fffe);
    assert_eq!(add(0x8000_0000, 0x8000_0000), 0);
}

#[test]
fn sub_without_underflow_is_plain_subtraction() {
    assert_eq!(sub(12, 7), 5);
    assert_eq!(sub(7, 7), 0);
    assert_eq!(sub(0xffff_ffff, 0xffff_ffff), 0);
}

#[test]
fn sub_wraps_below_zero() {
    assert_eq!(sub(0, 1), 0xffff_ffff);
    assert_eq!(sub(4, 0xffff_ffff), 5);
    assert_eq!(sub(3, 5), 0xffff_fffe);
    assert_eq!(sub(0, 0x8000_0000), 0x8000_0000);
}

#[test]
fn add_and_sub_agree_with_reference_arithmetic() {
    for &a in SAMPLES.iter() {
        for &b in SAMPLES.iter() {
            assert_eq!(add(a, b), reference_add(a, b), "add({}, {})", a, b);
            assert_eq!(sub(a, b), reference_sub(a, b), "sub({}, {})", a, b);
        }
    }
}

#[test]
fn small_accumulator_with_mask_near_the_top_wraps_correctly() {
    let accumulator: u32 = 9;
    let mask: u32 = 0xffff_fffb;
    assert_eq!(sub(accumulator, mask), 14);
    assert_eq!(add(accumulator, mask), 4);
    assert_eq!(add(sub(accumulator, mask), mask), accumulator);
    assert_eq!(sub(add(accumulator, mask), mask), accumulator);
}

#[test]
fn add_is_commutative_and_associative_on_samples() {
    for &a in SAMPLES.iter() {
        for &b in SAMPLES.iter() {
            assert_eq!(add(a, b), add(b, a));
            for &c in SAMPLES.iter() {
                assert_eq!(add(add(a, b), c), add(a, add(b, c)));
            }
        }
    }
}

#[test]
fn one_exchange_keeps_the_sum_of_two_accumulators() {
    for &a in SAMPLES.iter() {
        for &b in SAMPLES.iter() {
            for &mask in SAMPLES.iter() {
                assert_eq!(add(sub(a, mask), add(b, mask)), add(a, b));
            }
        }
    }
}
