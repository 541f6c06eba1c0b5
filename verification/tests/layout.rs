//! Aggregate layout tests: packed offsets and total sizes, and the raw
//! field accessors over value buffers.

use sffi::interface::FuncType;
use sffi::structure::StructType;

fn offsets(st: &StructType) -> Vec<u32> {
    st.fields().iter().map(|f| f.1).collect()
}

#[test]
fn layout_three_ints() {
    let st = StructType::from_str("[i32,i32,i32]").unwrap();
    assert_eq!(offsets(&st), vec![0, 4, 8]);
    assert_eq!(st.size(), 12);
}

#[test]
fn layout_three_floats() {
    let st = StructType::from_str("[f32,f32,f32]").unwrap();
    assert_eq!(offsets(&st), vec![0, 4, 8]);
    assert_eq!(st.size(), 12);
}

#[test]
fn layout_nested() {
    let st = StructType::from_str("[i32,[f32]]").unwrap();
    assert_eq!(offsets(&st), vec![0, 4]);
    assert_eq!(st.size(), 8);
    match &st.fields()[1].0 {
        FuncType::Struct(inner) => assert_eq!(inner.size(), 4),
        other => panic!("expected an aggregate field, got {:?}", other),
    }
}

#[test]
fn layout_mixed_widths() {
    let st = StructType::from_str("[u8,u16,u64,f128]").unwrap();
    assert_eq!(offsets(&st), vec![0, 1, 3, 11]);
    assert_eq!(st.size(), 27);
}

#[test]
fn raw_field_access() {
    let st = StructType::from_str("[i32,i32,i32]").unwrap();
    let mut buf = st.calloc();
    assert_eq!(buf.len(), 12);
    assert!(buf.iter().all(|b| *b == 0));
    st.set_raw(&mut buf, 0, &4i32.to_le_bytes().to_vec());
    st.set_raw(&mut buf, 1, &5i32.to_le_bytes().to_vec());
    let f0 = st.get_raw(&buf, 0);
    let f1 = st.get_raw(&buf, 1);
    let f2 = st.get_raw(&buf, 2);
    assert_eq!(i32::from_le_bytes(f0.try_into().unwrap()), 4);
    assert_eq!(i32::from_le_bytes(f1.try_into().unwrap()), 5);
    assert_eq!(i32::from_le_bytes(f2.try_into().unwrap()), 0);
}
