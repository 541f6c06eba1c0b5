//! Descriptor grammar tests: atoms, aggregates, signatures, and the
//! format/re-parse round trip of the grammar examples.

use sffi::adapter::Adapter;
use sffi::error::Error;
use sffi::interface::{FuncDesc, FuncType};
use sffi::internal::{ends_with, starts_with};
use sffi::structure::StructType;

#[test]
fn interface_test_simple() {
    assert_eq!(FuncType::from_str("void").unwrap(), FuncType::Void);
    assert_eq!(FuncType::from_str("float").unwrap(), FuncType::Float);
    assert_eq!(FuncType::from_str("i64").unwrap(), FuncType::S64);
    assert_eq!(FuncType::from_str("&str").unwrap(), FuncType::RefStringPtr);
    assert_eq!(FuncType::from_str("*").unwrap(), FuncType::Pointer);
}

#[test]
fn test_struct() {
    assert_eq!(FuncType::from_str("[]").unwrap(), FuncType::structure(vec![]));
    assert_eq!(
        FuncType::from_str("[f32]").unwrap(),
        FuncType::structure(vec![FuncType::F32])
    );
    assert_eq!(
        FuncType::from_str("[f32,f64]").unwrap(),
        FuncType::structure(vec![FuncType::F32, FuncType::F64])
    );
}

#[test]
fn test_inner_struct() {
    assert_eq!(
        FuncType::from_str("[[]]").unwrap(),
        FuncType::structure(vec![FuncType::structure(vec![])])
    );
    assert_eq!(
        FuncType::from_str("[[],[]]").unwrap(),
        FuncType::structure(vec![
            FuncType::structure(vec![]),
            FuncType::structure(vec![])
        ])
    );
    assert_eq!(
        FuncType::from_str("[f32,[]]").unwrap(),
        FuncType::structure(vec![FuncType::F32, FuncType::structure(vec![])])
    );
    assert_eq!(
        FuncType::from_str("[f32,[i32,i64]]").unwrap(),
        FuncType::structure(vec![
            FuncType::F32,
            FuncType::structure(vec![FuncType::S32, FuncType::S64])
        ])
    );
    assert_eq!(
        FuncType::from_str("[f32,[i32,[i64]]]").unwrap(),
        FuncType::structure(vec![
            FuncType::F32,
            FuncType::structure(vec![
                FuncType::S32,
                FuncType::structure(vec![FuncType::S64])
            ])
        ])
    );
}

#[test]
fn test_simple_desc() {
    assert_eq!(
        FuncDesc::from_str("(i8,i8)i16").unwrap(),
        FuncDesc::new(vec![FuncType::S8, FuncType::S8], FuncType::S16)
    );
}

#[test]
fn structure_test_simple() {
    assert_eq!(
        FuncType::Struct(StructType::from_str("[]").unwrap()),
        FuncType::structure(vec![])
    );
    assert_eq!(
        FuncType::Struct(StructType::from_str("[i32,f32]").unwrap()),
        FuncType::structure(vec![FuncType::S32, FuncType::F32])
    );
}

#[test]
fn test_inner() {
    assert_eq!(
        FuncType::Struct(StructType::from_str("[[]]").unwrap()),
        FuncType::structure(vec![FuncType::structure(vec![])])
    );
    assert_eq!(
        FuncType::Struct(StructType::from_str("[i32,[f32]]").unwrap()),
        FuncType::structure(vec![
            FuncType::S32,
            FuncType::structure(vec![FuncType::F32])
        ])
    );
    assert_eq!(
        FuncType::Struct(StructType::from_str("[[],[]]").unwrap()),
        FuncType::structure(vec![
            FuncType::structure(vec![]),
            FuncType::structure(vec![])
        ])
    );
}

fn desc_round_trip(text: &str) {
    let parsed = FuncDesc::from_str(text).unwrap();
    let formatted = parsed.text();
    let reparsed = FuncDesc::from_str(formatted.as_str()).unwrap();
    assert_eq!(parsed, reparsed);
}

fn type_round_trip(text: &str) {
    let parsed = FuncType::from_str(text).unwrap();
    let formatted = parsed.text();
    let reparsed = FuncType::from_str(formatted.as_str()).unwrap();
    assert_eq!(parsed, reparsed);
}

#[test]
fn round_trip_grammar_examples() {
    desc_round_trip("(i32,i32)i32");
    desc_round_trip("(&str)void");
    desc_round_trip("()void");
    desc_round_trip("(f32,f32)f32");
    desc_round_trip("([i32,i32,i32])void");
    type_round_trip("[i32,i32,i32]");
    type_round_trip("[[],[i32,[f32]]]");
    for atom in [
        "auto",
        "void",
        "int",
        "float",
        "double",
        "longdouble",
        "isize",
        "usize",
        "i8",
        "i16",
        "i32",
        "i64",
        "u8",
        "u16",
        "u32",
        "u64",
        "f32",
        "f64",
        "f128",
        "*",
        "&str",
        "*str",
        "&[]",
        "*[]",
    ] {
        type_round_trip(atom);
    }
    assert_eq!(
        FuncType::from_str("?").unwrap().text().as_str(),
        "auto"
    );
}

#[test]
fn canonical_text_is_exact() {
    let st = StructType::from_str("[i32,[f32]]").unwrap();
    assert_eq!(st.text().as_str(), "[i32,[f32]]");
    let d = FuncDesc::from_str("(i32,i32)i32").unwrap();
    assert_eq!(d.text().as_str(), "(i32,i32)i32");
    assert_eq!(FuncType::LongDouble.text().as_str(), "longdouble");
    assert_eq!(FuncType::BorrowArrayPtr.text().as_str(), "*[]");
}

#[test]
fn adapter_bracket_sugar() {
    let adapter = Adapter::from_str("[f32,f32,f32]").unwrap();
    let direct = FuncDesc::from_str("(f32,f32,f32)void").unwrap();
    assert_eq!(*adapter.target(), direct);
    assert_eq!(adapter.target().text().as_str(), "(f32,f32,f32)void");
}

#[test]
fn parse_errors_are_descriptor_errors() {
    assert!(matches!(
        FuncType::from_str("bogus"),
        Err(Error::InvalidDescriptor(Some(_)))
    ));
    assert!(matches!(
        FuncDesc::from_str("i32)i32"),
        Err(Error::InvalidDescriptor(Some(_)))
    ));
    assert!(matches!(
        FuncDesc::from_str("(i32"),
        Err(Error::InvalidDescriptor(Some(_)))
    ));
    assert!(matches!(
        StructType::from_str("[i32"),
        Err(Error::InvalidDescriptor(Some(_)))
    ));
    assert!(matches!(
        StructType::from_str("i32]"),
        Err(Error::InvalidDescriptor(Some(_)))
    ));
    assert!(matches!(
        Adapter::from_str("[f32"),
        Err(Error::InvalidDescriptor(Some(_)))
    ));
    let err = FuncType::from_str("nonsense").unwrap_err();
    let msg = err.get_message().unwrap();
    assert_eq!(msg, "Unknown type: nonsense");
}

#[test]
fn whitespace_around_function_descriptors() {
    let spaced = FuncDesc::from_str("  (i32,i32)i32  ").unwrap();
    let plain = FuncDesc::from_str("(i32,i32)i32").unwrap();
    assert_eq!(spaced, plain);
}

#[test]
fn starts_and_ends_with() {
    assert!(starts_with("(i32)void", '('));
    assert!(!starts_with("i32", '('));
    assert!(!starts_with("", '('));
    assert!(ends_with("[f32]", ']'));
    assert!(!ends_with("[f32", ']'));
    assert!(!ends_with("", ']'));
}

#[test]
fn error_messages() {
    let e = Error::InvalidCast(Some(String::from("nope")));
    assert_eq!(e.get_message(), Some("nope"));
    assert_eq!(Error::FFIBadABI.get_message(), None);
    assert_eq!(Error::InvalidArguments(None).get_message(), None);
}
