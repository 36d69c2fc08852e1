use ethereum_types::U256;
use evm_analyzer::word::Word;

fn outside(w: Word) -> U256 {
    U256([w.w0, w.w1, w.w2, w.w3])
}

fn inside(u: U256) -> Word {
    Word { w0: u.0[0], w1: u.0[1], w2: u.0[2], w3: u.0[3] }
}

fn samples() -> Vec<Word> {
    vec![
        Word::zero(),
        Word::from_u64(1),
        Word::from_u64(0xffff_ffff_ffff_ffff),
        Word { w0: 0, w1: 1, w2: 0, w3: 0 },
        Word { w0: 5, w1: 0, w2: 7, w3: 0x8000_0000_0000_0000 },
        Word { w0: u64::MAX, w1: u64::MAX, w2: u64::MAX, w3: u64::MAX },
    ]
}

#[test]
fn from_u64_is_the_number() {
    assert_eq!(outside(Word::from_u64(120)), U256::from(120u64));
    assert_eq!(outside(Word::from_usize(77)), U256::from(77u64));
    assert_eq!(outside(Word::zero()), U256::zero());
}

#[test]
fn wrapping_add_wraps_at_two_to_the_256() {
    let max = Word { w0: u64::MAX, w1: u64::MAX, w2: u64::MAX, w3: u64::MAX };
    assert_eq!(max.wrapping_add(&Word::from_u64(1)), Word::zero());
    assert_eq!(max.wrapping_add(&Word::from_u64(2)), Word::from_u64(1));
    assert_eq!(
        Word::from_u64(u64::MAX).wrapping_add(&Word::from_u64(1)),
        Word { w0: 0, w1: 1, w2: 0, w3: 0 }
    );
    for a in samples() {
        for b in samples() {
            let (sum, _) = outside(a).overflowing_add(outside(b));
            assert_eq!(a.wrapping_add(&b), inside(sum));
        }
    }
}

#[test]
fn bitand_is_limb_by_limb() {
    let a = Word { w0: 0b1100, w1: 0xff, w2: 1, w3: 0 };
    let b = Word { w0: 0b1010, w1: 0x0f, w2: 0, w3: 9 };
    assert_eq!(a.bitand(&b), Word { w0: 0b1000, w1: 0x0f, w2: 0, w3: 0 });
}

#[test]
fn shl_moves_bits_up_and_out() {
    assert_eq!(Word::from_u64(1).shl(&Word::from_u64(4)), Word::from_u64(16));
    assert_eq!(Word::from_u64(1).shl(&Word::from_u64(64)), Word { w0: 0, w1: 1, w2: 0, w3: 0 });
    assert_eq!(
        Word::from_u64(3).shl(&Word::from_u64(255)),
        Word { w0: 0, w1: 0, w2: 0, w3: 0x8000_0000_0000_0000 }
    );
    assert_eq!(Word::from_u64(1).shl(&Word::from_u64(256)), Word::zero());
    assert_eq!(Word::from_u64(1).shl(&Word { w0: 0, w1: 1, w2: 0, w3: 0 }), Word::zero());
    for a in samples() {
        for s in [0u64, 1, 63, 64, 65, 128, 200, 255] {
            assert_eq!(a.shl(&Word::from_u64(s)), inside(outside(a) << U256::from(s)));
        }
    }
}

#[test]
fn shr_moves_bits_down_and_out() {
    assert_eq!(Word::from_u64(16).shr(&Word::from_u64(4)), Word::from_u64(1));
    assert_eq!(Word { w0: 0, w1: 1, w2: 0, w3: 0 }.shr(&Word::from_u64(64)), Word::from_u64(1));
    assert_eq!(Word::from_u64(9).shr(&Word::from_u64(256)), Word::zero());
    assert_eq!(
        Word::from_u64(9).shr(&Word { w0: 3, w1: 0, w2: 0, w3: 1 }),
        Word::zero()
    );
    for a in samples() {
        for s in [0u64, 1, 63, 64, 65, 128, 200, 255] {
            assert_eq!(a.shr(&Word::from_u64(s)), inside(outside(a) >> U256::from(s)));
        }
    }
}

#[test]
fn from_big_endian_reads_most_significant_first() {
    assert_eq!(Word::from_big_endian(&[]), Some(Word::zero()));
    assert_eq!(Word::from_big_endian(&[0x01, 0x02]), Some(Word::from_u64(0x0102)));
    let mut bytes = [0u8; 32];
    bytes[0] = 0x80;
    bytes[31] = 0x01;
    assert_eq!(
        Word::from_big_endian(&bytes),
        Some(Word { w0: 1, w1: 0, w2: 0, w3: 0x8000_0000_0000_0000 })
    );
    assert_eq!(Word::from_big_endian(&[0u8; 33]), None);
}

#[test]
fn to_usize_is_the_number_where_it_fits() {
    assert_eq!(Word::from_u64(42).to_usize(), Some(42));
    assert_eq!(Word::zero().to_usize(), Some(0));
    assert_eq!(Word { w0: 1, w1: 1, w2: 0, w3: 0 }.to_usize(), None);
    assert_eq!(Word { w0: 0, w1: 0, w2: 0, w3: 1 }.to_usize(), None);
}

#[test]
fn le_orders_by_number() {
    let small = Word::from_u64(u64::MAX);
    let big = Word { w0: 0, w1: 1, w2: 0, w3: 0 };
    assert!(small.le(&big));
    assert!(!big.le(&small));
    assert!(big.le(&big));
}

#[test]
fn sum_le_does_not_wrap() {
    let max = Word { w0: u64::MAX, w1: u64::MAX, w2: u64::MAX, w3: u64::MAX };
    let one = Word::from_u64(1);
    let two = Word::from_u64(2);
    // max + 1 wraps to 0, but as numbers it is larger than 1 + 2
    assert!(!Word::sum_le(&max, &one, &one, &two));
    assert!(Word::sum_le(&one, &two, &max, &one));
    assert!(Word::sum_le(&max, &one, &one, &max));
    assert!(Word::sum_le(&one, &one, &two, &Word::zero()));
    assert!(!Word::sum_le(&two, &two, &one, &two));
}

#[test]
fn is_zero_tells_zero() {
    assert!(Word::zero().is_zero());
    assert!(!Word { w0: 0, w1: 0, w2: 1, w3: 0 }.is_zero());
}
