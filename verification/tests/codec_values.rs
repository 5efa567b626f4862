use memedit::codec::{
    bytes_equal, bytes_less, decode, decode_signed, decode_unsigned, f32_bits_are_nan,
    f32_bits_rank, f64_bits_are_nan, f64_bits_rank, judge, operand_equal, operand_less, Operand,
};
use memedit::model::{ByteOrder, DataType, Literal, Predicate};

fn integer(value: Operand) -> i128 {
    match value {
        Operand::Integer(x) => x,
        other => panic!("not an integer: {:?}", other),
    }
}

#[test]
fn unsigned_little_endian_puts_the_first_byte_lowest() {
    assert_eq!(decode_unsigned(ByteOrder::Little, &[0x2A, 0x00, 0x00, 0x00]), 42);
    assert_eq!(decode_unsigned(ByteOrder::Little, &[0x78, 0x56, 0x34, 0x12]), 0x1234_5678);
    assert_eq!(decode_unsigned(ByteOrder::Little, &[0x01, 0x02]), 0x0201);
}

#[test]
fn unsigned_big_endian_puts_the_first_byte_highest() {
    assert_eq!(decode_unsigned(ByteOrder::Big, &[0x00, 0x00, 0x00, 0x2A]), 42);
    assert_eq!(decode_unsigned(ByteOrder::Big, &[0x12, 0x34, 0x56, 0x78]), 0x1234_5678);
    assert_eq!(decode_unsigned(ByteOrder::Big, &[0x01, 0x02]), 0x0102);
}

#[test]
fn unsigned_of_no_bytes_is_zero() {
    assert_eq!(decode_unsigned(ByteOrder::Little, &[]), 0);
    assert_eq!(decode_unsigned(ByteOrder::Big, &[]), 0);
}

#[test]
fn unsigned_of_eight_bytes_reaches_the_top() {
    assert_eq!(decode_unsigned(ByteOrder::Little, &[0xFF; 8]), u64::MAX);
    assert_eq!(
        decode_unsigned(ByteOrder::Big, &[0x01, 0x23, 0x45, 0x67, 0x89, 0xAB, 0xCD, 0xEF]),
        0x0123_4567_89AB_CDEF
    );
}

#[test]
fn unsigned_agrees_with_std() {
    let bytes = [0xDE, 0xAD, 0xBE, 0xEF, 0x01, 0x02, 0x03, 0x04];
    assert_eq!(decode_unsigned(ByteOrder::Little, &bytes), u64::from_le_bytes(bytes));
    assert_eq!(decode_unsigned(ByteOrder::Big, &bytes), u64::from_be_bytes(bytes));
}

#[test]
fn signed_is_twos_complement() {
    assert_eq!(decode_signed(ByteOrder::Little, &[0xFF]), -1);
    assert_eq!(decode_signed(ByteOrder::Little, &[0x80]), -128);
    assert_eq!(decode_signed(ByteOrder::Little, &[0x7F]), 127);
    assert_eq!(decode_signed(ByteOrder::Little, &[0xFE, 0xFF]), -2);
    assert_eq!(decode_signed(ByteOrder::Big, &[0xFF, 0xFE]), -2);
    assert_eq!(decode_signed(ByteOrder::Little, &[0x00, 0x00, 0x00, 0x80]), i32::MIN as i128);
    assert_eq!(decode_signed(ByteOrder::Little, &[0xFF; 8]), -1);
    assert_eq!(
        decode_signed(ByteOrder::Big, &[0x80, 0, 0, 0, 0, 0, 0, 0]),
        i64::MIN as i128
    );
    assert_eq!(
        decode_signed(ByteOrder::Big, &[0x7F, 0xFF, 0xFF, 0xFF, 0xFF, 0xFF, 0xFF, 0xFF]),
        i64::MAX as i128
    );
}

#[test]
fn signed_agrees_with_std() {
    for value in [-123_456_789i32, -1, 0, 1, i32::MAX, i32::MIN] {
        assert_eq!(decode_signed(ByteOrder::Little, &value.to_le_bytes()), value as i128);
        assert_eq!(decode_signed(ByteOrder::Big, &value.to_be_bytes()), value as i128);
    }
    for value in [-5i16, i16::MIN, i16::MAX] {
        assert_eq!(decode_signed(ByteOrder::Little, &value.to_le_bytes()), value as i128);
    }
}

#[test]
fn decode_reads_each_type() {
    let le = ByteOrder::Little;
    assert_eq!(integer(decode(DataType::Int8, le, &[0x9C]).unwrap()), -100);
    assert_eq!(integer(decode(DataType::UInt8, le, &[0x9C]).unwrap()), 156);
    assert_eq!(integer(decode(DataType::Int16, le, &[0x00, 0x80]).unwrap()), -32768);
    assert_eq!(integer(decode(DataType::UInt16, le, &[0x00, 0x80]).unwrap()), 32768);
    assert_eq!(integer(decode(DataType::Int32, le, &[0x2A, 0, 0, 0]).unwrap()), 42);
    assert_eq!(integer(decode(DataType::UInt32, le, &[0xFF; 4]).unwrap()), u32::MAX as i128);
    assert_eq!(integer(decode(DataType::Int64, le, &[0xFF; 8]).unwrap()), -1);
    assert_eq!(integer(decode(DataType::UInt64, le, &[0xFF; 8]).unwrap()), u64::MAX as i128);
    match decode(DataType::Float32, le, &1.5f32.to_le_bytes()).unwrap() {
        Operand::Float32(bits) => assert_eq!(bits, 1.5f32.to_bits()),
        other => panic!("not a float: {:?}", other),
    }
    match decode(DataType::Float64, ByteOrder::Big, &(-2.25f64).to_be_bytes()).unwrap() {
        Operand::Float64(bits) => assert_eq!(bits, (-2.25f64).to_bits()),
        other => panic!("not a float: {:?}", other),
    }
    match decode(DataType::Bytes(3), le, b"abc").unwrap() {
        Operand::Bytes(bytes) => assert_eq!(bytes, b"abc"),
        other => panic!("not bytes: {:?}", other),
    }
}

#[test]
fn decode_needs_exactly_the_bytes_of_one_value() {
    let le = ByteOrder::Little;
    assert!(decode(DataType::Int32, le, &[1, 2, 3]).is_none());
    assert!(decode(DataType::Int32, le, &[1, 2, 3, 4, 5]).is_none());
    assert!(decode(DataType::UInt8, le, &[]).is_none());
    assert!(decode(DataType::Float64, le, &[0; 4]).is_none());
    assert!(decode(DataType::Bytes(2), le, &[0; 3]).is_none());
    assert!(decode(DataType::Bytes(0), le, &[]).is_some());
}

#[test]
fn signed_of_any_length_up_to_eight() {
    assert_eq!(decode_signed(ByteOrder::Little, &[]), 0);
    assert_eq!(decode_signed(ByteOrder::Little, &[0xFF, 0xFF, 0xFF]), -1);
    assert_eq!(decode_signed(ByteOrder::Big, &[0x80, 0x00, 0x00]), -8_388_608);
    assert_eq!(decode_signed(ByteOrder::Big, &[0x7F, 0xFF, 0xFF]), 8_388_607);
    assert_eq!(decode_signed(ByteOrder::Little, &[1, 0, 0, 0, 0]), 1);
}

#[test]
fn nan_patterns_are_recognised() {
    assert!(f32_bits_are_nan(f32::NAN.to_bits()));
    assert!(f32_bits_are_nan(0x7F80_0001));
    assert!(f32_bits_are_nan(0xFFC0_0000));
    assert!(!f32_bits_are_nan(f32::INFINITY.to_bits()));
    assert!(!f32_bits_are_nan(f32::NEG_INFINITY.to_bits()));
    assert!(!f32_bits_are_nan(0.0f32.to_bits()));
    assert!(!f32_bits_are_nan((-0.0f32).to_bits()));
    assert!(f64_bits_are_nan(f64::NAN.to_bits()));
    assert!(f64_bits_are_nan(0xFFF0_0000_0000_0001));
    assert!(!f64_bits_are_nan(f64::INFINITY.to_bits()));
    assert!(!f64_bits_are_nan(f64::NEG_INFINITY.to_bits()));
}

#[test]
fn float_rank_has_exact_values() {
    assert_eq!(f32_bits_rank(0x0000_0000), 0);
    assert_eq!(f32_bits_rank(0x8000_0000), 0);
    assert_eq!(f32_bits_rank(0x0000_0001), 1);
    assert_eq!(f32_bits_rank(0x8000_0001), -1);
    assert_eq!(f32_bits_rank(0x7F80_0000), 0x7F80_0000);
    assert_eq!(f32_bits_rank(0xFF80_0000), -0x7F80_0000);
    assert_eq!(f64_bits_rank(0x0000_0000_0000_0000), 0);
    assert_eq!(f64_bits_rank(0x8000_0000_0000_0000), 0);
    assert_eq!(f64_bits_rank(0x3FF0_0000_0000_0000), 0x3FF0_0000_0000_0000);
    assert_eq!(f64_bits_rank(0xBFF0_0000_0000_0000), -0x3FF0_0000_0000_0000);
}

#[test]
fn float32_order_agrees_with_the_floats() {
    let values = [
        f32::NEG_INFINITY,
        -1.0e30,
        -2.5,
        -1.0,
        -f32::MIN_POSITIVE,
        -1.0e-45,
        -0.0,
        0.0,
        1.0e-45,
        f32::MIN_POSITIVE,
        0.5,
        1.0,
        1.5,
        3.0e30,
        f32::INFINITY,
        f32::NAN,
    ];
    for a in values {
        for b in values {
            let x = Operand::Float32(a.to_bits());
            let y = Operand::Float32(b.to_bits());
            assert_eq!(operand_less(&x, &y), a < b, "{} < {}", a, b);
            assert_eq!(
                operand_equal(&x, &y),
                a.to_bits() == b.to_bits() && !a.is_nan(),
                "{} == {}",
                a,
                b
            );
        }
    }
}

#[test]
fn float64_order_agrees_with_the_floats() {
    let values = [
        f64::NEG_INFINITY,
        -1.0e300,
        -1.0,
        -5.0e-324,
        -0.0,
        0.0,
        5.0e-324,
        1.0,
        2.0,
        1.0e300,
        f64::INFINITY,
        f64::NAN,
    ];
    for a in values {
        for b in values {
            let x = Operand::Float64(a.to_bits());
            let y = Operand::Float64(b.to_bits());
            assert_eq!(operand_less(&x, &y), a < b, "{} < {}", a, b);
            assert_eq!(
                operand_equal(&x, &y),
                a.to_bits() == b.to_bits() && !a.is_nan(),
                "{} == {}",
                a,
                b
            );
        }
    }
}

#[test]
fn nan_passes_only_not_equal_and_changed() {
    let nan = Operand::Float32(f32::NAN.to_bits());
    let one = Operand::Float32(1.0f32.to_bits());
    for reference in [nan, one] {
        assert!(!judge(Predicate::Equal, &nan, &reference));
        assert!(!judge(Predicate::Greater, &nan, &reference));
        assert!(!judge(Predicate::Less, &nan, &reference));
        assert!(!judge(Predicate::Unchanged, &nan, &reference));
        assert!(judge(Predicate::NotEqual, &nan, &reference));
        assert!(judge(Predicate::Changed, &nan, &reference));
    }
    assert!(!judge(Predicate::Greater, &one, &nan));
    assert!(!judge(Predicate::Less, &one, &nan));
}

#[test]
fn the_two_zeros_differ_in_bits_but_not_in_order() {
    let plus = Operand::Float64(0.0f64.to_bits());
    let minus = Operand::Float64((-0.0f64).to_bits());
    assert!(!judge(Predicate::Equal, &plus, &minus));
    assert!(judge(Predicate::NotEqual, &plus, &minus));
    assert!(!judge(Predicate::Less, &minus, &plus));
    assert!(!judge(Predicate::Greater, &plus, &minus));
}

#[test]
fn integers_compare_as_numbers() {
    let small = Operand::Integer(-3);
    let large = Operand::Integer(7);
    assert!(judge(Predicate::Less, &small, &large));
    assert!(judge(Predicate::Greater, &large, &small));
    assert!(!judge(Predicate::Greater, &small, &large));
    assert!(!judge(Predicate::Less, &small, &small));
    assert!(judge(Predicate::Equal, &small, &small));
    assert!(judge(Predicate::Unchanged, &large, &large));
    assert!(judge(Predicate::NotEqual, &small, &large));
    assert!(judge(Predicate::Changed, &small, &large));
    assert!(!judge(Predicate::Changed, &small, &small));
}

#[test]
fn values_of_different_kinds_are_neither_equal_nor_ordered() {
    let integer = Operand::Integer(1);
    let float = Operand::Float32(1.0f32.to_bits());
    let bytes = Operand::Bytes(&[1]);
    assert!(!operand_equal(&integer, &float));
    assert!(!operand_less(&integer, &float));
    assert!(!operand_less(&float, &integer));
    assert!(!operand_equal(&bytes, &integer));
    assert!(!operand_less(&bytes, &integer));
    assert!(judge(Predicate::NotEqual, &integer, &float));
}

#[test]
fn byte_strings_compare_from_the_front() {
    assert!(bytes_less(b"abc", b"abd"));
    assert!(bytes_less(b"abc", b"b\0\0"));
    assert!(!bytes_less(b"abd", b"abc"));
    assert!(!bytes_less(b"abc", b"abc"));
    assert!(!bytes_less(b"", b""));
    assert!(bytes_less(&[0x00, 0xFF], &[0x01, 0x00]));
    assert!(bytes_equal(b"abc", b"abc"));
    assert!(!bytes_equal(b"abc", b"abd"));
    assert!(!bytes_equal(b"abc", b"ab"));
    assert!(bytes_equal(b"", b""));
}

#[test]
fn literal_becomes_the_same_operand() {
    assert!(matches!(Literal::Integer(-9).as_operand(), Operand::Integer(-9)));
    assert!(matches!(Literal::Float32(7).as_operand(), Operand::Float32(7)));
    assert!(matches!(Literal::Float64(8).as_operand(), Operand::Float64(8)));
    let literal = Literal::Bytes(vec![1, 2, 3]);
    match literal.as_operand() {
        Operand::Bytes(bytes) => assert_eq!(bytes, &[1, 2, 3]),
        other => panic!("not bytes: {:?}", other),
    }
    assert_eq!(literal.duplicate(), literal);
}
