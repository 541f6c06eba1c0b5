//! The value coercion engine: turns a source value buffer of one descriptor
//! kind into a destination buffer of another, by the precedence rules of the
//! engine: a deferred (`Auto`) side copies the concrete side's bits
//! verbatim; two pointer-family kinds copy the pointer word; otherwise the
//! source is read through its numeric family (signed, unsigned or floating)
//! and rewritten with the platform's standard numeric conversion. Aggregates
//! never coerce.

use vstd::prelude::*;
use vstd::string::StringExecFns;

use crate::error::Error;
use crate::grammar::{ty_is_float, ty_is_numeric, ty_is_ptr, ty_is_signed, ty_is_unsigned, ty_size, Ty};
use crate::interface::{ty_wf, FuncType};
use crate::numeric::{
    emod_exec, f32b_to_f64b, f32b_to_f64b_spec, f64b_as_int, f64b_as_int_spec,
    f64b_to_f32b, f64b_to_f32b_spec, int_to_f64b, int_to_f64b_spec, le_bytes, le_val,
    p2, read_le, read_sext, sval, write_le,
};

verus! {

/// The byte length the source buffer of a coercion must have: the concrete
/// side's size when the source is deferred.
pub open spec fn cast_src_size(from: Ty, into: Ty) -> int {
    if from is Auto {
        ty_size(into)
    } else {
        ty_size(from)
    }
}

/// The byte length the coercion produces.
pub open spec fn cast_dst_size(from: Ty, into: Ty) -> int {
    if into is Auto {
        ty_size(from)
    } else {
        ty_size(into)
    }
}

/// When a coercion succeeds. It depends on the two kinds alone: a deferred
/// side accepts any concrete kind but an aggregate; two pointer-family kinds
/// always coerce; a numeric source coerces into any numeric kind; everything
/// else is an invalid cast.
pub open spec fn cast_ok(from: Ty, into: Ty) -> bool {
    if from is Auto {
        !(into is Auto) && !(into is Struct)
    } else if into is Auto {
        !(from is Struct)
    } else if ty_is_ptr(from) && ty_is_ptr(into) {
        true
    } else if ty_is_signed(from) || ty_is_unsigned(from) || ty_is_float(from) {
        ty_is_numeric(into)
    } else {
        false
    }
}

/// True when the coercion aliases a caller-owned string into a borrowed
/// string slot, so the runtime embedder owes a duplication of the pointed-to
/// bytes instead of the plain pointer copy.
pub open spec fn needs_dup(from: Ty, into: Ty) -> bool {
    from is RefStringPtr && into is BorrowStringPtr
}

/// The destination bytes of a numeric write of the integer `v` into kind
/// `t`: integer kinds truncate modulo their width; floating kinds round to
/// nearest.
pub open spec fn num_write(v: int, t: Ty) -> Seq<u8> {
    let neg = v < 0;
    let mag = if v < 0 {
        -v
    } else {
        v
    };
    match t {
        Ty::Int => le_bytes(v % p2(32), 4),
        Ty::S8 => le_bytes(v % p2(8), 1),
        Ty::S16 => le_bytes(v % p2(16), 2),
        Ty::S32 => le_bytes(v % p2(32), 4),
        Ty::S64 => le_bytes(v % p2(64), 8),
        Ty::ISize => le_bytes(v % p2(64), 8),
        Ty::U8 => le_bytes(v % p2(8), 1),
        Ty::U16 => le_bytes(v % p2(16), 2),
        Ty::U32 => le_bytes(v % p2(32), 4),
        Ty::U64 => le_bytes(v % p2(64), 8),
        Ty::USize => le_bytes(v % p2(64), 8),
        Ty::LongDouble => le_bytes(v % p2(128), 16),
        Ty::F128 => le_bytes(v % p2(128), 16),
        Ty::Float => le_bytes(crate::numeric::int_to_f32b_spec(neg, mag), 4),
        Ty::F32 => le_bytes(crate::numeric::int_to_f32b_spec(neg, mag), 4),
        Ty::Double => le_bytes(int_to_f64b_spec(neg, mag), 8),
        Ty::F64 => le_bytes(int_to_f64b_spec(neg, mag), 8),
        _ => Seq::empty(),
    }
}

/// The 64-bit float pattern a floating-family source buffer reads as: a
/// 32-bit pattern widens exactly; the extended-precision kinds read their 16
/// bytes as a signed integer and convert it.
pub open spec fn float_read(from: Ty, src: Seq<u8>) -> int {
    match from {
        Ty::Float => f32b_to_f64b_spec(le_val(src)),
        Ty::F32 => f32b_to_f64b_spec(le_val(src)),
        Ty::Double => le_val(src),
        Ty::F64 => le_val(src),
        _ => {
            let v = sval(src);
            int_to_f64b_spec(v < 0, if v < 0 {
                -v
            } else {
                v
            })
        },
    }
}

/// The destination bytes of a floating write of the 64-bit pattern `fb`
/// into kind `t`: integer kinds truncate toward zero and saturate; the
/// 32-bit kinds round to nearest; the extended-precision kinds take the
/// saturated 128-bit integer.
pub open spec fn float_write(fb: int, t: Ty) -> Seq<u8> {
    match t {
        Ty::Int => le_bytes(f64b_as_int_spec(fb, -p2(31), p2(31) - 1) % p2(32), 4),
        Ty::S8 => le_bytes(f64b_as_int_spec(fb, -p2(7), p2(7) - 1) % p2(8), 1),
        Ty::S16 => le_bytes(f64b_as_int_spec(fb, -p2(15), p2(15) - 1) % p2(16), 2),
        Ty::S32 => le_bytes(f64b_as_int_spec(fb, -p2(31), p2(31) - 1) % p2(32), 4),
        Ty::S64 => le_bytes(f64b_as_int_spec(fb, -p2(63), p2(63) - 1) % p2(64), 8),
        Ty::ISize => le_bytes(f64b_as_int_spec(fb, -p2(63), p2(63) - 1) % p2(64), 8),
        Ty::U8 => le_bytes(f64b_as_int_spec(fb, 0, p2(8) - 1), 1),
        Ty::U16 => le_bytes(f64b_as_int_spec(fb, 0, p2(16) - 1), 2),
        Ty::U32 => le_bytes(f64b_as_int_spec(fb, 0, p2(32) - 1), 4),
        Ty::U64 => le_bytes(f64b_as_int_spec(fb, 0, p2(64) - 1), 8),
        Ty::USize => le_bytes(f64b_as_int_spec(fb, 0, p2(64) - 1), 8),
        Ty::LongDouble => le_bytes(
            f64b_as_int_spec(fb, -p2(127), p2(127) - 1) % p2(128),
            16,
        ),
        Ty::F128 => le_bytes(f64b_as_int_spec(fb, -p2(127), p2(127) - 1) % p2(128), 16),
        Ty::Float => le_bytes(f64b_to_f32b_spec(fb), 4),
        Ty::F32 => le_bytes(f64b_to_f32b_spec(fb), 4),
        Ty::Double => le_bytes(fb, 8),
        Ty::F64 => le_bytes(fb, 8),
        _ => Seq::empty(),
    }
}

/// The destination bytes of a successful coercion.
pub open spec fn cast_bytes_spec(from: Ty, into: Ty, src: Seq<u8>) -> Seq<u8> {
    if from is Auto || into is Auto {
        src
    } else if ty_is_ptr(from) && ty_is_ptr(into) {
        src
    } else if ty_is_signed(from) {
        num_write(sval(src), into)
    } else if ty_is_unsigned(from) {
        num_write(le_val(src), into)
    } else {
        float_write(float_read(from, src), into)
    }
}

/// A fresh copy of a byte buffer.
fn dup_bytes(src: &Vec<u8>) -> (r: Vec<u8>)
    ensures
        r@ == src@,
{
    let mut out: Vec<u8> = Vec::new();
    let n = src.len();
    let mut i: usize = 0;
    while i < n
        invariant
            n == src@.len(),
            i <= n,
            out@ =~= src@.take(i as int),
        decreases n - i,
    {
        out.push(src[i]);
        i = i + 1;
    }
    proof {
        assert(src@.take(n as int) =~= src@);
    }
    out
}

/// The invalid-cast diagnostic: both kinds by their canonical spellings.
pub open spec fn cast_msg_text(from: Ty, into: Ty) -> Seq<char> {
    "Invalid cast from '"@ + crate::grammar::ty_text(from) + "' into '"@
        + crate::grammar::ty_text(into) + "'"@
}

/// The invalid-cast diagnostic, naming both kinds.
fn invalid_cast_msg(from: &FuncType, into: &FuncType) -> (r: String)
    ensures
        r@ == cast_msg_text(from@, into@),
{
    let mut msg = "Invalid cast from '".to_owned();
    msg.append(from.text().as_str());
    msg.append("' into '");
    msg.append(into.text().as_str());
    msg.append("'");
    proof {
        assert(msg@ =~= cast_msg_text(from@, into@));
    }
    msg
}

/// Writes the integer `v` into a numeric destination kind.
fn num_write_exec(v: i128, into: &FuncType, from: &FuncType) -> (r: Result<
    Vec<u8>,
    Error,
>)
    requires
        -p2(64) <= v < p2(64),
    ensures
        match r {
            Ok(out) => ty_is_numeric(into@) && out@ == num_write(v as int, into@)
                && out@.len() == ty_size(into@),
            Err(e) => !ty_is_numeric(into@) && (e matches Error::InvalidCast(m)
                && m matches Some(s) && s@ == cast_msg_text(from@, into@)),
        },
{
    proof {
        crate::numeric::lemma_p2_127();
        crate::numeric::lemma_le_bytes_len(v as int, 16);
    }
    let neg = v < 0;
    let mag: u128 = if v < 0 {
        (-v) as u128
    } else {
        v as u128
    };
    match into {
        FuncType::Int => Ok(write_le(emod_exec(v, 32), 4)),
        FuncType::S8 => Ok(write_le(emod_exec(v, 8), 1)),
        FuncType::S16 => Ok(write_le(emod_exec(v, 16), 2)),
        FuncType::S32 => Ok(write_le(emod_exec(v, 32), 4)),
        FuncType::S64 => Ok(write_le(emod_exec(v, 64), 8)),
        FuncType::ISize => Ok(write_le(emod_exec(v, 64), 8)),
        FuncType::U8 => Ok(write_le(emod_exec(v, 8), 1)),
        FuncType::U16 => Ok(write_le(emod_exec(v, 16), 2)),
        FuncType::U32 => Ok(write_le(emod_exec(v, 32), 4)),
        FuncType::U64 => Ok(write_le(emod_exec(v, 64), 8)),
        FuncType::USize => Ok(write_le(emod_exec(v, 64), 8)),
        FuncType::LongDouble => Ok(write_le(emod_exec(v, 128), 16)),
        FuncType::F128 => Ok(write_le(emod_exec(v, 128), 16)),
        FuncType::Float => Ok(write_le(crate::numeric::int_to_f32b(neg, mag) as u128, 4)),
        FuncType::F32 => Ok(write_le(crate::numeric::int_to_f32b(neg, mag) as u128, 4)),
        FuncType::Double => Ok(write_le(int_to_f64b(neg, mag) as u128, 8)),
        FuncType::F64 => Ok(write_le(int_to_f64b(neg, mag) as u128, 8)),
        _ => Err(Error::InvalidCast(Some(invalid_cast_msg(from, into)))),
    }
}

/// Writes the 64-bit float pattern `fb` into a numeric destination kind.
fn float_write_exec(fb: u64, into: &FuncType, from: &FuncType) -> (r: Result<
    Vec<u8>,
    Error,
>)
    ensures
        match r {
            Ok(out) => ty_is_numeric(into@) && out@ == float_write(fb as int, into@)
                && out@.len() == ty_size(into@),
            Err(e) => !ty_is_numeric(into@) && (e matches Error::InvalidCast(m)
                && m matches Some(s) && s@ == cast_msg_text(from@, into@)),
        },
{
    proof {
        crate::numeric::lemma_p2_127();
        crate::numeric::lemma_le_bytes_len(fb as int, 16);
    }
    match into {
        FuncType::Int => Ok(write_le(emod_exec(f64b_as_int(fb, -0x8000_0000, 0x7fff_ffff), 32), 4)),
        FuncType::S8 => Ok(write_le(emod_exec(f64b_as_int(fb, -0x80, 0x7f), 8), 1)),
        FuncType::S16 => Ok(write_le(emod_exec(f64b_as_int(fb, -0x8000, 0x7fff), 16), 2)),
        FuncType::S32 => Ok(write_le(emod_exec(f64b_as_int(fb, -0x8000_0000, 0x7fff_ffff), 32), 4)),
        FuncType::S64 => Ok(write_le(
            emod_exec(f64b_as_int(fb, -0x8000_0000_0000_0000, 0x7fff_ffff_ffff_ffff), 64),
            8,
        )),
        FuncType::ISize => Ok(write_le(
            emod_exec(f64b_as_int(fb, -0x8000_0000_0000_0000, 0x7fff_ffff_ffff_ffff), 64),
            8,
        )),
        FuncType::U8 => Ok(write_le(f64b_as_int(fb, 0, 0xff) as u128, 1)),
        FuncType::U16 => Ok(write_le(f64b_as_int(fb, 0, 0xffff) as u128, 2)),
        FuncType::U32 => Ok(write_le(f64b_as_int(fb, 0, 0xffff_ffff) as u128, 4)),
        FuncType::U64 => Ok(write_le(f64b_as_int(fb, 0, 0xffff_ffff_ffff_ffff) as u128, 8)),
        FuncType::USize => Ok(write_le(f64b_as_int(fb, 0, 0xffff_ffff_ffff_ffff) as u128, 8)),
        FuncType::LongDouble => Ok(write_le(
            emod_exec(f64b_as_int(fb, i128::MIN, i128::MAX), 128),
            16,
        )),
        FuncType::F128 => Ok(write_le(
            emod_exec(f64b_as_int(fb, i128::MIN, i128::MAX), 128),
            16,
        )),
        FuncType::Float => Ok(write_le(f64b_to_f32b(fb) as u128, 4)),
        FuncType::F32 => Ok(write_le(f64b_to_f32b(fb) as u128, 4)),
        FuncType::Double => Ok(write_le(fb as u128, 8)),
        FuncType::F64 => Ok(write_le(fb as u128, 8)),
        _ => Err(Error::InvalidCast(Some(invalid_cast_msg(from, into)))),
    }
}

/// True when this coercion obliges the embedder to duplicate the pointed-to
/// string rather than alias the pointer.
pub fn needs_string_dup(from: &FuncType, into: &FuncType) -> (r: bool)
    ensures
        r == needs_dup(from@, into@),
{
    from.is_ref_str() && into.is_borrow_str()
}

/// Coerces the source value buffer `src`, holding a value of kind `from`,
/// into a fresh buffer holding it as kind `into`. Succeeds exactly when the
/// two kinds coerce; every failure is an invalid cast.
pub fn cast_bytes(from: &FuncType, into: &FuncType, src: &Vec<u8>) -> (r: Result<
    Vec<u8>,
    Error,
>)
    requires
        ty_wf(*from),
        ty_wf(*into),
        !(from@ is Auto && into@ is Auto),
        src@.len() == cast_src_size(from@, into@),
    ensures
        r is Ok <==> cast_ok(from@, into@),
        r matches Ok(out) ==> out@ == cast_bytes_spec(from@, into@, src@)
            && out@.len() == cast_dst_size(from@, into@),
        r matches Err(e) ==> (e matches Error::InvalidCast(m) && m matches Some(s)
            && s@ == cast_msg_text(from@, into@)),
{
    proof {
        crate::numeric::lemma_p2_127();
    }
    if from.is_auto() || into.is_auto() {
        let concrete = if from.is_auto() {
            into
        } else {
            from
        };
        if matches!(concrete, FuncType::Struct(_)) {
            return Err(Error::InvalidCast(Some(invalid_cast_msg(from, into))));
        }
        return Ok(dup_bytes(src));
    }
    if from.is_ptr() && into.is_ptr() {
        return Ok(dup_bytes(src));
    }
    let signed = matches!(
        from,
        FuncType::Int | FuncType::ISize | FuncType::S8 | FuncType::S16 | FuncType::S32
            | FuncType::S64
    );
    if signed {
        proof {
            crate::numeric::lemma_le_val_bounds(src@);
            crate::numeric::lemma_p2_mono((8 * src@.len()) as nat, 64);
        }
        let v = read_sext(src);
        return num_write_exec(v, into, from);
    }
    let unsigned = matches!(
        from,
        FuncType::USize | FuncType::U8 | FuncType::U16 | FuncType::U32 | FuncType::U64
    );
    if unsigned {
        let n = src.len();
        let u = read_le(src, 0, n);
        proof {
            assert(src@.subrange(0, n as int) =~= src@);
            crate::numeric::lemma_le_val_bounds(src@);
            crate::numeric::lemma_p2_mono((8 * src@.len()) as nat, 64);
        }
        return num_write_exec(u as i128, into, from);
    }
    let floaty = matches!(
        from,
        FuncType::Float | FuncType::Double | FuncType::LongDouble | FuncType::F32
            | FuncType::F64 | FuncType::F128
    );
    if floaty {
        let fb: u64 = match from {
            FuncType::Float | FuncType::F32 => {
                let n = src.len();
                let u = read_le(src, 0, n);
                proof {
                    assert(src@.subrange(0, n as int) =~= src@);
                    crate::numeric::lemma_le_val_bounds(src@);
                }
                f32b_to_f64b(u as u32)
            },
            FuncType::Double | FuncType::F64 => {
                let n = src.len();
                let u = read_le(src, 0, n);
                proof {
                    assert(src@.subrange(0, n as int) =~= src@);
                    crate::numeric::lemma_le_val_bounds(src@);
                }
                u as u64
            },
            _ => {
                let v = read_sext(src);
                let neg = v < 0;
                let mag: u128 = if v < 0 && v > i128::MIN {
                    (-v) as u128
                } else if v == i128::MIN {
                    0x8000_0000_0000_0000_0000_0000_0000_0000
                } else {
                    v as u128
                };
                int_to_f64b(neg, mag)
            },
        };
        return float_write_exec(fb, into, from);
    }
    Err(Error::InvalidCast(Some(invalid_cast_msg(from, into))))
}

/// Deferred-side passthrough is bit-identical: when either side of a
/// successful coercion is the deferred kind, the destination bytes are
/// exactly the source bytes, with no numeric conversion.
pub proof fn lemma_auto_passthrough(from: Ty, into: Ty, src: Seq<u8>)
    requires
        from is Auto || into is Auto,
        cast_ok(from, into),
    ensures
        cast_bytes_spec(from, into, src) == src,
{
}

/// Pointer-family coercion is a plain copy of the pointer word; the
/// separate duplication flag alone distinguishes the borrowed-string case.
pub proof fn lemma_pointer_copy(from: Ty, into: Ty, src: Seq<u8>)
    requires
        !(from is Auto),
        !(into is Auto),
        ty_is_ptr(from),
        ty_is_ptr(into),
    ensures
        cast_ok(from, into),
        cast_bytes_spec(from, into, src) == src,
{
}

} // verus!
