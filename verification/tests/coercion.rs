//! Coercion engine tests: deferred-side passthrough, integer and floating
//! conversions held against the platform's own casts, and the invalid
//! combinations.

use sffi::coerce::cast_bytes;
use sffi::error::Error;
use sffi::interface::FuncType;

fn cast(from: &FuncType, into: &FuncType, src: Vec<u8>) -> Vec<u8> {
    cast_bytes(from, into, &src).unwrap()
}

#[test]
fn auto_passthrough_is_bit_identical() {
    let src = vec![0x12, 0x34, 0x56, 0x78];
    let out = cast(&FuncType::Auto, &FuncType::S32, src.clone());
    assert_eq!(out, src);
    let out = cast(&FuncType::S32, &FuncType::Auto, src.clone());
    assert_eq!(out, src);
    let out = cast(&FuncType::Auto, &FuncType::F64, vec![1, 2, 3, 4, 5, 6, 7, 8]);
    assert_eq!(out, vec![1, 2, 3, 4, 5, 6, 7, 8]);
}

#[test]
fn signed_to_unsigned_matches_native() {
    let out = cast(
        &FuncType::S32,
        &FuncType::U32,
        (-1i32).to_le_bytes().to_vec(),
    );
    assert_eq!(u32::from_le_bytes(out.try_into().unwrap()), 4294967295);
}

#[test]
fn double_truncates_toward_zero() {
    let out = cast(&FuncType::F64, &FuncType::S32, 3.9f64.to_le_bytes().to_vec());
    assert_eq!(i32::from_le_bytes(out.try_into().unwrap()), 3);
    let out = cast(
        &FuncType::F64,
        &FuncType::S32,
        (-3.9f64).to_le_bytes().to_vec(),
    );
    assert_eq!(i32::from_le_bytes(out.try_into().unwrap()), -3);
}

#[test]
fn signed_sign_extends() {
    let out = cast(&FuncType::S8, &FuncType::S64, (-1i8).to_le_bytes().to_vec());
    assert_eq!(i64::from_le_bytes(out.try_into().unwrap()), -1);
}

#[test]
fn float_to_int_matches_native_casts() {
    for v in [
        0.0f64,
        1.0,
        -1.0,
        3.9,
        -3.9,
        0.49,
        1e10,
        -1e10,
        2.5e9,
        4.0e18,
        -4.0e18,
        1e300,
        -1e300,
        f64::INFINITY,
        f64::NEG_INFINITY,
        f64::NAN,
    ] {
        let out = cast(&FuncType::F64, &FuncType::S32, v.to_le_bytes().to_vec());
        assert_eq!(
            i32::from_le_bytes(out.try_into().unwrap()),
            v as i32,
            "f64 {} as i32",
            v
        );
        let out = cast(&FuncType::F64, &FuncType::U16, v.to_le_bytes().to_vec());
        assert_eq!(
            u16::from_le_bytes(out.try_into().unwrap()),
            v as u16,
            "f64 {} as u16",
            v
        );
        let out = cast(&FuncType::F64, &FuncType::S64, v.to_le_bytes().to_vec());
        assert_eq!(
            i64::from_le_bytes(out.try_into().unwrap()),
            v as i64,
            "f64 {} as i64",
            v
        );
    }
}

#[test]
fn int_to_float_matches_native_casts() {
    for v in [
        0i64,
        1,
        -1,
        3,
        123456789,
        -123456789,
        i64::MAX,
        i64::MIN,
        (1i64 << 53) + 1,
        (1i64 << 53) + 3,
        16777217,
    ] {
        let out = cast(&FuncType::S64, &FuncType::F64, v.to_le_bytes().to_vec());
        assert_eq!(
            f64::from_le_bytes(out.clone().try_into().unwrap()).to_bits(),
            (v as f64).to_bits(),
            "i64 {} as f64",
            v
        );
        let out = cast(&FuncType::S64, &FuncType::F32, v.to_le_bytes().to_vec());
        assert_eq!(
            f32::from_le_bytes(out.clone().try_into().unwrap()).to_bits(),
            (v as f32).to_bits(),
            "i64 {} as f32",
            v
        );
    }
    let out = cast(
        &FuncType::U64,
        &FuncType::F64,
        u64::MAX.to_le_bytes().to_vec(),
    );
    assert_eq!(
        f64::from_le_bytes(out.try_into().unwrap()).to_bits(),
        (u64::MAX as f64).to_bits()
    );
}

#[test]
fn float_width_changes_match_native_casts() {
    for v in [
        0.0f32,
        1.444,
        2.333,
        -7.25,
        f32::MIN_POSITIVE,
        1.0e-44,
        3.4e38,
        f32::INFINITY,
    ] {
        let out = cast(&FuncType::F32, &FuncType::F64, v.to_le_bytes().to_vec());
        assert_eq!(
            f64::from_le_bytes(out.try_into().unwrap()).to_bits(),
            (v as f64).to_bits(),
            "f32 {} as f64",
            v
        );
    }
    for v in [0.0f64, 1.444, -2.5, 1e-40, 1e-320, 5e-324, 1e39, -1e39, 0.1] {
        let out = cast(&FuncType::F64, &FuncType::F32, v.to_le_bytes().to_vec());
        assert_eq!(
            f32::from_le_bytes(out.try_into().unwrap()).to_bits(),
            (v as f32).to_bits(),
            "f64 {} as f32",
            v
        );
    }
}

#[test]
fn pointer_family_copies_the_word() {
    let src = 0x1122_3344_5566_7788_u64.to_le_bytes().to_vec();
    let out = cast(&FuncType::Pointer, &FuncType::RefStringPtr, src.clone());
    assert_eq!(out, src);
    let out = cast(&FuncType::RefStringPtr, &FuncType::BorrowStringPtr, src.clone());
    assert_eq!(out, src);
    let out = cast(&FuncType::ISize, &FuncType::USize, src.clone());
    assert_eq!(out, src);
}

#[test]
fn extended_precision_travels_as_integer_payload() {
    // A signed source widens into the 16-byte extended slot as an integer.
    let out = cast(&FuncType::S32, &FuncType::F128, (-5i32).to_le_bytes().to_vec());
    assert_eq!(i128::from_le_bytes(out.try_into().unwrap()), -5);
    // An extended source reads back as its integer payload and converts.
    let out = cast(
        &FuncType::F128,
        &FuncType::F64,
        3i128.to_le_bytes().to_vec(),
    );
    assert_eq!(f64::from_le_bytes(out.try_into().unwrap()), 3.0);
    // A double into the extended slot truncates toward zero to 128 bits.
    let out = cast(
        &FuncType::F64,
        &FuncType::LongDouble,
        9.75f64.to_le_bytes().to_vec(),
    );
    assert_eq!(i128::from_le_bytes(out.try_into().unwrap()), 9);
}

fn cast_err(from: &FuncType, into: &FuncType, src: Vec<u8>) -> Error {
    cast_bytes(from, into, &src).unwrap_err()
}

#[test]
fn invalid_casts_are_rejected() {
    match cast_err(&FuncType::S32, &FuncType::Pointer, 1i32.to_le_bytes().to_vec()) {
        Error::InvalidCast(Some(m)) => {
            assert_eq!(m, "Invalid cast from 'i32' into '*'");
        },
        other => panic!("expected an invalid-cast error, got {:?}", other),
    }
    assert!(matches!(
        cast_err(&FuncType::Void, &FuncType::Void, vec![]),
        Error::InvalidCast(Some(_))
    ));
    let st = sffi::structure::StructType::from_str("[i32]").unwrap();
    assert!(matches!(
        cast_err(&FuncType::Auto, &FuncType::Struct(st), vec![0, 0, 0, 0]),
        Error::InvalidCast(Some(_))
    ));
}
