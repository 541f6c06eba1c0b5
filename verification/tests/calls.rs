//! Call-path tests: argument-count validation, the adapter call flow
//! around a simulated native callee, and field access through an adapter.
//! The native jump itself is the embedder's step; these tests stand in for
//! the callee with the same arithmetic.

use sffi::adapter::Adapter;
use sffi::error::Error;
use sffi::interface::{AbiType, FuncHandle};
use sffi::library::LibHandle;
use sffi::structure::StructType;

#[test]
fn argument_count_mismatch_is_rejected() {
    let func = FuncHandle::new(0x1000, "(i32,i32)i32").unwrap();
    let adapter = Adapter::from_str("(i32,i32)i32").unwrap();
    let three_args = vec![
        1i32.to_le_bytes().to_vec(),
        2i32.to_le_bytes().to_vec(),
        3i32.to_le_bytes().to_vec(),
    ];
    match adapter.call_prepare(&func, &three_args) {
        Err(Error::InvalidArguments(Some(m))) => {
            assert_eq!(m, "Accepted invalid arguments count (3 / 2)");
        },
        other => panic!("expected an argument-count error, got {:?}", other.is_ok()),
    }

    let narrow = Adapter::from_str("(i32)i32").unwrap();
    let two_args = vec![1i32.to_le_bytes().to_vec(), 2i32.to_le_bytes().to_vec()];
    let r = narrow.call_prepare(&func, &two_args);
    assert!(matches!(r, Err(Error::InvalidArguments(Some(_)))));
}

#[test]
fn handle_rejects_deferred_kinds() {
    match FuncHandle::new(0, "(auto)void") {
        Err(Error::InvalidDescriptor(Some(m))) => {
            assert_eq!(m, "Type 'auto' not supported for call");
        },
        other => panic!("expected a descriptor error, got {:?}", other.is_ok()),
    }
    assert!(matches!(
        FuncHandle::new(0, "(i32)?"),
        Err(Error::InvalidDescriptor(Some(_)))
    ));
    assert!(matches!(
        FuncHandle::new(0, "([i32,auto])void"),
        Err(Error::InvalidDescriptor(Some(_)))
    ));
}

#[test]
fn handle_maps_native_types() {
    let func = FuncHandle::new(0, "(i32,&str,[u8,f64])double").unwrap();
    let args = func.abi_args();
    assert!(matches!(args[0], AbiType::SInt32));
    assert!(matches!(args[1], AbiType::Pointer));
    match &args[2] {
        AbiType::Struct(fs) => {
            assert!(matches!(fs[0], AbiType::UInt8));
            assert!(matches!(fs[1], AbiType::Double));
        },
        other => panic!("expected an aggregate element list, got {:?}", other),
    }
    assert!(matches!(func.abi_ret(), AbiType::Double));
}

/// The end-to-end flow of `add(i32,i32)->i32` called through an adapter
/// declared `(f32,f32)f32`: the inputs truncate to 1 and 2 before the
/// native call, the simulated callee computes 3, and the result widens back
/// to 3.0.
#[test]
fn adapter_call_flow() {
    let func = FuncHandle::new(0x2000, "(i32,i32)i32").unwrap();

    // A raw call through the handle's own signature: 12 + 21 = 33.
    let raw = Adapter::from_str("(i32,i32)i32").unwrap();
    let args = vec![12i32.to_le_bytes().to_vec(), 21i32.to_le_bytes().to_vec()];
    let (bufs, dups) = raw.call_prepare(&func, &args).unwrap();
    assert!(dups.iter().all(|d| !*d));
    let a = i32::from_le_bytes(bufs[0].clone().try_into().unwrap());
    let b = i32::from_le_bytes(bufs[1].clone().try_into().unwrap());
    assert_eq!((a, b), (12, 21));
    let native_result = a + b;
    let out = raw
        .call_complete(&func, &native_result.to_le_bytes().to_vec())
        .unwrap();
    assert_eq!(i32::from_le_bytes(out.try_into().unwrap()), 33);

    // The same callee through a `(f32,f32)f32` adapter.
    let adapter = Adapter::from_str("(f32,f32)f32").unwrap();
    let args = vec![
        1.444f32.to_le_bytes().to_vec(),
        2.333f32.to_le_bytes().to_vec(),
    ];
    let (bufs, _) = adapter.call_prepare(&func, &args).unwrap();
    let a = i32::from_le_bytes(bufs[0].clone().try_into().unwrap());
    let b = i32::from_le_bytes(bufs[1].clone().try_into().unwrap());
    assert_eq!((a, b), (1, 2));
    let native_result = a + b;
    let out = adapter
        .call_complete(&func, &native_result.to_le_bytes().to_vec())
        .unwrap();
    assert_eq!(f32::from_le_bytes(out.try_into().unwrap()), 3.0);
}

/// The struct round trip: fields written raw and through an adapter, with a
/// simulated native `field[2] = field[0] + field[1]` in between.
#[test]
fn struct_round_trip() {
    let st = StructType::from_str("[i32,i32,i32]").unwrap();

    // Raw access: 4 + 5 = 9.
    let mut buf = st.calloc();
    st.set_raw(&mut buf, 0, &4i32.to_le_bytes().to_vec());
    st.set_raw(&mut buf, 1, &5i32.to_le_bytes().to_vec());
    let f0 = i32::from_le_bytes(st.get_raw(&buf, 0).try_into().unwrap());
    let f1 = i32::from_le_bytes(st.get_raw(&buf, 1).try_into().unwrap());
    st.set_raw(&mut buf, 2, &(f0 + f1).to_le_bytes().to_vec());
    let f2 = i32::from_le_bytes(st.get_raw(&buf, 2).try_into().unwrap());
    assert_eq!(f2, 9);

    // Adapter access with `[f32,f32,f32]`: 6.12 and 4.21 truncate to 6 and
    // 4, the callee writes 10, read back as 10.0.
    let adapter = Adapter::from_str("[f32,f32,f32]").unwrap();
    let mut buf = st.calloc();
    adapter
        .set(&st, &mut buf, 0, &6.12f32.to_le_bytes().to_vec())
        .unwrap();
    adapter
        .set(&st, &mut buf, 1, &4.21f32.to_le_bytes().to_vec())
        .unwrap();
    let f0 = i32::from_le_bytes(st.get_raw(&buf, 0).try_into().unwrap());
    let f1 = i32::from_le_bytes(st.get_raw(&buf, 1).try_into().unwrap());
    assert_eq!((f0, f1), (6, 4));
    st.set_raw(&mut buf, 2, &(f0 + f1).to_le_bytes().to_vec());
    let (out, dup) = adapter.get(&st, &buf, 2).unwrap();
    assert!(!dup);
    assert_eq!(f32::from_le_bytes(out.try_into().unwrap()), 10.0);
}

#[test]
fn field_access_validation() {
    let st = StructType::from_str("[i32,i32,i32]").unwrap();
    let adapter = Adapter::from_str("[f32,f32]").unwrap();
    let mut buf = st.calloc();
    // The adapter declares two fields against a three-field aggregate.
    let r = adapter.set(&st, &mut buf, 0, &1.0f32.to_le_bytes().to_vec());
    assert!(matches!(r, Err(Error::InvalidArguments(Some(_)))));
    // An index past the adapter's declared count.
    let wide = Adapter::from_str("[f32,f32,f32]").unwrap();
    let r = wide.set(&st, &mut buf, 3, &1.0f32.to_le_bytes().to_vec());
    assert!(matches!(r, Err(Error::InvalidArguments(Some(_)))));
}

#[test]
fn library_cache_first_registration_wins() {
    let mut lib = LibHandle::new(0x77);
    assert_eq!(lib.as_raw(), 0x77);
    assert!(lib.find_function("add").is_none());
    let i = lib.func("add", "(i32,i32)i32", 0x2000).unwrap();
    assert_eq!(i, 0);
    // A second request for the same name with another descriptor returns
    // the first registration unchanged: the documented cache quirk.
    let j = lib.func("add", "(f32,f32)f32", 0x3000).unwrap();
    assert_eq!(j, 0);
    let f = lib.function_at(j);
    assert_eq!(f.desc().text().as_str(), "(i32,i32)i32");
    assert_eq!(f.symbol(), 0x2000);
    // A different name resolves and registers anew.
    let k = lib.func("sub", "(i32,i32)i32", 0x4000).unwrap();
    assert_eq!(k, 1);
    assert_eq!(lib.find_function("sub"), Some(1));
    // A bad descriptor on a cache miss is reported and caches nothing.
    let r = lib.func("mystery", "(wat)void", 0x5000);
    assert!(matches!(r, Err(Error::InvalidDescriptor(Some(_)))));
    assert!(lib.find_function("mystery").is_none());
}
