//! Function signature types: the descriptor type kinds, the signature of a
//! native function, and the validated handle that an embedder invokes
//! through.

use vstd::prelude::*;

use crate::grammar::{fields_size, ty_size, Ty};
use crate::structure::{fields_view, lemma_fields_view, st_wf, StructType};

verus! {

/// One descriptor type kind: `Auto` (deferred, resolved from the other side
/// of a coercion), `Void`, the fixed-width and platform-width numerics, the
/// pointer family, and a nested packed aggregate.
#[derive(Debug)]
pub enum FuncType {
    Auto,
    Void,
    Int,
    Float,
    Double,
    LongDouble,
    ISize,
    USize,
    S8,
    S16,
    S32,
    S64,
    U8,
    U16,
    U32,
    U64,
    F32,
    F64,
    F128,
    Pointer,
    RefStringPtr,
    BorrowStringPtr,
    RefArrayPtr,
    BorrowArrayPtr,
    Struct(StructType),
}

/// The abstract type tree of `t`.
pub open spec fn ty_view(t: FuncType) -> Ty
    decreases t,
{
    match t {
        FuncType::Auto => Ty::Auto,
        FuncType::Void => Ty::Void,
        FuncType::Int => Ty::Int,
        FuncType::Float => Ty::Float,
        FuncType::Double => Ty::Double,
        FuncType::LongDouble => Ty::LongDouble,
        FuncType::ISize => Ty::ISize,
        FuncType::USize => Ty::USize,
        FuncType::S8 => Ty::S8,
        FuncType::S16 => Ty::S16,
        FuncType::S32 => Ty::S32,
        FuncType::S64 => Ty::S64,
        FuncType::U8 => Ty::U8,
        FuncType::U16 => Ty::U16,
        FuncType::U32 => Ty::U32,
        FuncType::U64 => Ty::U64,
        FuncType::F32 => Ty::F32,
        FuncType::F64 => Ty::F64,
        FuncType::F128 => Ty::F128,
        FuncType::Pointer => Ty::Pointer,
        FuncType::RefStringPtr => Ty::RefStringPtr,
        FuncType::BorrowStringPtr => Ty::BorrowStringPtr,
        FuncType::RefArrayPtr => Ty::RefArrayPtr,
        FuncType::BorrowArrayPtr => Ty::BorrowArrayPtr,
        FuncType::Struct(st) => Ty::Struct(fields_view(st.fields@)),
    }
}

impl View for FuncType {
    type V = Ty;

    open spec fn view(&self) -> Ty {
        ty_view(*self)
    }
}

/// The abstract type trees of an ordered type list.
pub open spec fn tys_of(v: Seq<FuncType>) -> Seq<Ty> {
    v.map_values(|t: FuncType| ty_view(t))
}

/// Well-formedness of a type: every aggregate in it carries correct packed
/// offsets and total size.
pub open spec fn ty_wf(t: FuncType) -> bool
    decreases t,
{
    match t {
        FuncType::Struct(st) => st_wf(st),
        _ => true,
    }
}

impl FuncType {
    /// The byte size of a value of this kind.
    pub fn size(&self) -> (r: u32)
        requires
            ty_wf(*self),
        ensures
            r as int == ty_size(self@),
    {
        match self {
            FuncType::Auto => 0,
            FuncType::Void => 0,
            FuncType::Int => 4,
            FuncType::Float => 4,
            FuncType::Double => 8,
            FuncType::LongDouble => 16,
            FuncType::ISize => 8,
            FuncType::USize => 8,
            FuncType::S8 => 1,
            FuncType::S16 => 2,
            FuncType::S32 => 4,
            FuncType::S64 => 8,
            FuncType::U8 => 1,
            FuncType::U16 => 2,
            FuncType::U32 => 4,
            FuncType::U64 => 8,
            FuncType::F32 => 4,
            FuncType::F64 => 8,
            FuncType::F128 => 16,
            FuncType::Pointer => 8,
            FuncType::RefStringPtr => 8,
            FuncType::BorrowStringPtr => 8,
            FuncType::RefArrayPtr => 8,
            FuncType::BorrowArrayPtr => 8,
            FuncType::Struct(st) => st.total,
        }
    }

    /// True of the deferred kind.
    pub fn is_auto(&self) -> (r: bool)
        ensures
            r == (self@ is Auto),
    {
        match self {
            FuncType::Auto => true,
            _ => false,
        }
    }

    /// True of the pointer family: the platform integers and every pointer
    /// kind.
    pub fn is_ptr(&self) -> (r: bool)
        ensures
            r == crate::grammar::ty_is_ptr(self@),
    {
        match self {
            FuncType::ISize
            | FuncType::USize
            | FuncType::Pointer
            | FuncType::RefStringPtr
            | FuncType::BorrowStringPtr
            | FuncType::RefArrayPtr
            | FuncType::BorrowArrayPtr => true,
            _ => false,
        }
    }

    /// True of the caller-owned string pointer kind.
    pub fn is_ref_str(&self) -> (r: bool)
        ensures
            r == (self@ is RefStringPtr),
    {
        match self {
            FuncType::RefStringPtr => true,
            _ => false,
        }
    }

    /// True of the borrowed string pointer kind.
    pub fn is_borrow_str(&self) -> (r: bool)
        ensures
            r == (self@ is BorrowStringPtr),
    {
        match self {
            FuncType::BorrowStringPtr => true,
            _ => false,
        }
    }

    /// An aggregate type over the given fields, with its packed layout.
    pub fn structure(fields: Vec<FuncType>) -> (r: FuncType)
        requires
            forall|i: int| 0 <= i < fields@.len() ==> ty_wf(#[trigger] fields@[i]),
            fields_size(tys_of(fields@)) <= u32::MAX,
        ensures
            ty_wf(r),
            r@ == Ty::Struct(tys_of(fields@)),
    {
        FuncType::Struct(StructType::new(fields))
    }
}

impl Clone for FuncType {
    /// A deep copy: the same type tree, with layout data preserved.
    fn clone(&self) -> (r: Self)
        ensures
            r@ == self@,
            ty_wf(*self) ==> ty_wf(r),
        decreases *self,
    {
        match self {
            FuncType::Auto => FuncType::Auto,
            FuncType::Void => FuncType::Void,
            FuncType::Int => FuncType::Int,
            FuncType::Float => FuncType::Float,
            FuncType::Double => FuncType::Double,
            FuncType::LongDouble => FuncType::LongDouble,
            FuncType::ISize => FuncType::ISize,
            FuncType::USize => FuncType::USize,
            FuncType::S8 => FuncType::S8,
            FuncType::S16 => FuncType::S16,
            FuncType::S32 => FuncType::S32,
            FuncType::S64 => FuncType::S64,
            FuncType::U8 => FuncType::U8,
            FuncType::U16 => FuncType::U16,
            FuncType::U32 => FuncType::U32,
            FuncType::U64 => FuncType::U64,
            FuncType::F32 => FuncType::F32,
            FuncType::F64 => FuncType::F64,
            FuncType::F128 => FuncType::F128,
            FuncType::Pointer => FuncType::Pointer,
            FuncType::RefStringPtr => FuncType::RefStringPtr,
            FuncType::BorrowStringPtr => FuncType::BorrowStringPtr,
            FuncType::RefArrayPtr => FuncType::RefArrayPtr,
            FuncType::BorrowArrayPtr => FuncType::BorrowArrayPtr,
            FuncType::Struct(st) => FuncType::Struct(st.clone()),
        }
    }
}

/// The abstract native type representation the ABI invoker prepares a call
/// interface from.
pub ghost enum AbiTy {
    Void,
    SInt8,
    SInt16,
    SInt32,
    SInt64,
    UInt8,
    UInt16,
    UInt32,
    UInt64,
    Float,
    Double,
    LongDouble,
    Pointer,
    Struct(Seq<AbiTy>),
}

/// The invoker's native representation of each descriptor kind: the 32-bit
/// native `int`, 64-bit platform words, pointers for the pointer family, and
/// a recursive element list for aggregates. The deferred kind has none; it
/// may never reach the invoker.
pub open spec fn abi_of(t: Ty) -> AbiTy
    decreases t,
{
    match t {
        Ty::Auto => AbiTy::Void,
        Ty::Void => AbiTy::Void,
        Ty::Int => AbiTy::SInt32,
        Ty::Float => AbiTy::Float,
        Ty::Double => AbiTy::Double,
        Ty::LongDouble => AbiTy::LongDouble,
        Ty::ISize => AbiTy::SInt64,
        Ty::USize => AbiTy::UInt64,
        Ty::S8 => AbiTy::SInt8,
        Ty::S16 => AbiTy::SInt16,
        Ty::S32 => AbiTy::SInt32,
        Ty::S64 => AbiTy::SInt64,
        Ty::U8 => AbiTy::UInt8,
        Ty::U16 => AbiTy::UInt16,
        Ty::U32 => AbiTy::UInt32,
        Ty::U64 => AbiTy::UInt64,
        Ty::F32 => AbiTy::Float,
        Ty::F64 => AbiTy::Double,
        Ty::F128 => AbiTy::LongDouble,
        Ty::Pointer => AbiTy::Pointer,
        Ty::RefStringPtr => AbiTy::Pointer,
        Ty::BorrowStringPtr => AbiTy::Pointer,
        Ty::RefArrayPtr => AbiTy::Pointer,
        Ty::BorrowArrayPtr => AbiTy::Pointer,
        Ty::Struct(fs) => AbiTy::Struct(abi_of_fields(fs)),
    }
}

/// `abi_of`, pointwise over an ordered field list.
pub open spec fn abi_of_fields(fs: Seq<Ty>) -> Seq<AbiTy>
    decreases fs,
{
    if fs.len() == 0 {
        Seq::empty()
    } else {
        abi_of_fields(fs.drop_last()).push(abi_of(fs.last()))
    }
}

pub proof fn lemma_abi_of_fields(fs: Seq<Ty>)
    ensures
        abi_of_fields(fs).len() == fs.len(),
        forall|i: int| 0 <= i < fs.len() ==> abi_of_fields(fs)[i] == abi_of(#[trigger] fs[i]),
    decreases fs,
{
    if fs.len() > 0 {
        lemma_abi_of_fields(fs.drop_last());
        assert forall|i: int|
            0 <= i < fs.len() implies abi_of_fields(fs)[i] == abi_of(
            #[trigger] fs[i],
        ) by {
            if i < fs.len() - 1 {
                assert(fs.drop_last()[i] == fs[i]);
            }
        }
    }
}

/// The executable native type representation handed to the embedder, which
/// builds the invoker's concrete call interface from it.
#[derive(Debug)]
pub enum AbiType {
    Void,
    SInt8,
    SInt16,
    SInt32,
    SInt64,
    UInt8,
    UInt16,
    UInt32,
    UInt64,
    Float,
    Double,
    LongDouble,
    Pointer,
    Struct(Vec<AbiType>),
}

/// The abstract representation of an executable native type.
pub open spec fn abi_view(a: AbiType) -> AbiTy
    decreases a,
{
    match a {
        AbiType::Void => AbiTy::Void,
        AbiType::SInt8 => AbiTy::SInt8,
        AbiType::SInt16 => AbiTy::SInt16,
        AbiType::SInt32 => AbiTy::SInt32,
        AbiType::SInt64 => AbiTy::SInt64,
        AbiType::UInt8 => AbiTy::UInt8,
        AbiType::UInt16 => AbiTy::UInt16,
        AbiType::UInt32 => AbiTy::UInt32,
        AbiType::UInt64 => AbiTy::UInt64,
        AbiType::Float => AbiTy::Float,
        AbiType::Double => AbiTy::Double,
        AbiType::LongDouble => AbiTy::LongDouble,
        AbiType::Pointer => AbiTy::Pointer,
        AbiType::Struct(fs) => AbiTy::Struct(abi_fields_view(fs@)),
    }
}

/// `abi_view`, pointwise over an element list.
pub open spec fn abi_fields_view(fs: Seq<AbiType>) -> Seq<AbiTy>
    decreases fs,
{
    if fs.len() == 0 {
        Seq::empty()
    } else {
        abi_fields_view(fs.drop_last()).push(abi_view(fs.last()))
    }
}

impl View for AbiType {
    type V = AbiTy;

    open spec fn view(&self) -> AbiTy {
        abi_view(*self)
    }
}

/// Maps a descriptor type to the invoker's native type representation.
/// Fails exactly when the deferred kind occurs anywhere in `t`: `Auto` may
/// never reach the invoker.
#[verifier::loop_isolation(false)]
pub fn map_abi(t: &FuncType) -> (r: Result<AbiType, crate::error::Error>)
    ensures
        r is Ok <==> !crate::grammar::ty_has_auto(t@),
        r matches Ok(a) ==> a@ == abi_of(t@),
        r matches Err(e) ==> (e matches crate::error::Error::InvalidDescriptor(m)
            && m matches Some(s) && s@ == "Type 'auto' not supported for call"@),
    decreases *t,
{
    match t {
        FuncType::Auto => crate::error::Error::invalid_desc_from_str(
            "Type 'auto' not supported for call",
        ),
        FuncType::Void => Ok(AbiType::Void),
        FuncType::Int => Ok(AbiType::SInt32),
        FuncType::Float => Ok(AbiType::Float),
        FuncType::Double => Ok(AbiType::Double),
        FuncType::LongDouble => Ok(AbiType::LongDouble),
        FuncType::ISize => Ok(AbiType::SInt64),
        FuncType::USize => Ok(AbiType::UInt64),
        FuncType::S8 => Ok(AbiType::SInt8),
        FuncType::S16 => Ok(AbiType::SInt16),
        FuncType::S32 => Ok(AbiType::SInt32),
        FuncType::S64 => Ok(AbiType::SInt64),
        FuncType::U8 => Ok(AbiType::UInt8),
        FuncType::U16 => Ok(AbiType::UInt16),
        FuncType::U32 => Ok(AbiType::UInt32),
        FuncType::U64 => Ok(AbiType::UInt64),
        FuncType::F32 => Ok(AbiType::Float),
        FuncType::F64 => Ok(AbiType::Double),
        FuncType::F128 => Ok(AbiType::LongDouble),
        FuncType::Pointer => Ok(AbiType::Pointer),
        FuncType::RefStringPtr => Ok(AbiType::Pointer),
        FuncType::BorrowStringPtr => Ok(AbiType::Pointer),
        FuncType::RefArrayPtr => Ok(AbiType::Pointer),
        FuncType::BorrowArrayPtr => Ok(AbiType::Pointer),
        FuncType::Struct(st) => {
            proof {
                crate::structure::lemma_fields_view(st.fields@);
            }
            let n = st.fields.len();
            let mut out: Vec<AbiType> = Vec::new();
            let ghost fs = st@;
            let mut i: usize = 0;
            while i < n
                invariant
                    n == st.fields@.len(),
                    fs == fields_view(st.fields@),
                    fs.len() == n,
                    forall|j: int| 0 <= j < n ==> fs[j] == #[trigger] st.fields@[j].0@,
                    i <= n,
                    out@.len() == i,
                    abi_fields_view(out@) == abi_of_fields(fs.take(i as int)),
                    forall|j: int| 0 <= j < i ==> !crate::grammar::ty_has_auto(fs[j]),
                decreases n - i,
            {
                let ghost out0 = out@;
                let a = match map_abi(&st.fields[i].0) {
                    Ok(a) => a,
                    Err(e) => {
                        proof {
                            assert(crate::grammar::ty_has_auto(fs[i as int]));
                            assert(crate::grammar::ty_has_auto(t@));
                        }
                        return Err(e);
                    },
                };
                out.push(a);
                proof {
                    assert(out@.drop_last() =~= out0);
                    assert(abi_fields_view(out@) == abi_fields_view(out0).push(a@));
                    assert(fs.take(i + 1).drop_last() =~= fs.take(i as int));
                    assert(fs.take(i + 1).last() == fs[i as int]);
                }
                i = i + 1;
            }
            proof {
                assert(fs.take(n as int) =~= fs);
                if crate::grammar::ty_has_auto(t@) {
                    let j = choose|j: int|
                        0 <= j < fs.len() && crate::grammar::ty_has_auto(#[trigger] fs[j]);
                    assert(!crate::grammar::ty_has_auto(fs[j]));
                }
            }
            Ok(AbiType::Struct(out))
        },
    }
}

/// A function signature: an ordered argument type list and one return type.
#[derive(Debug)]
pub struct FuncDesc {
    pub argument_types: Vec<FuncType>,
    pub return_type: FuncType,
}

/// The abstract argument type trees of a signature.
pub open spec fn desc_args(d: FuncDesc) -> Seq<Ty> {
    tys_of(d.argument_types@)
}

/// The abstract return type tree of a signature.
pub open spec fn desc_ret(d: FuncDesc) -> Ty {
    d.return_type@
}

/// Well-formedness of a signature: every type in it well formed.
pub open spec fn desc_wf(d: FuncDesc) -> bool {
    &&& forall|i: int|
        0 <= i < d.argument_types@.len() ==> ty_wf(#[trigger] d.argument_types@[i])
    &&& ty_wf(d.return_type)
}

impl FuncDesc {
    /// A signature from its parts.
    pub fn new(argument_types: Vec<FuncType>, return_type: FuncType) -> (r: FuncDesc)
        requires
            forall|i: int|
                0 <= i < argument_types@.len() ==> ty_wf(#[trigger] argument_types@[i]),
            ty_wf(return_type),
        ensures
            desc_wf(r),
            desc_args(r) == tys_of(argument_types@),
            desc_ret(r) == return_type@,
    {
        FuncDesc { argument_types, return_type }
    }

    /// The ordered argument types.
    pub fn argument_types(&self) -> (r: &Vec<FuncType>)
        ensures
            r == &self.argument_types,
    {
        &self.argument_types
    }

    /// The return type.
    pub fn return_type(&self) -> (r: &FuncType)
        ensures
            r == &self.return_type,
    {
        &self.return_type
    }
}


/// A resolved, validated native function: a code address paired with its
/// parsed signature and the native type representation the invoker prepares
/// its call interface from. The deferred kind never occurs in it.
pub struct FuncHandle {
    pub symbol: usize,
    pub desc: FuncDesc,
    pub abi_args: Vec<AbiType>,
    pub abi_ret: AbiType,
}

/// Well-formedness of a handle: a well-formed signature free of the
/// deferred kind, whose stored native representation is its ABI mapping.
pub open spec fn handle_wf(h: FuncHandle) -> bool {
    &&& desc_wf(h.desc)
    &&& forall|i: int|
        0 <= i < desc_args(h.desc).len() ==> !crate::grammar::ty_has_auto(
            #[trigger] desc_args(h.desc)[i],
        )
    &&& !crate::grammar::ty_has_auto(desc_ret(h.desc))
    &&& abi_fields_view(h.abi_args@) == abi_of_fields(desc_args(h.desc))
    &&& h.abi_ret@ == abi_of(desc_ret(h.desc))
}

impl FuncHandle {
    /// Validates a descriptor against a resolved code address: parses it and
    /// maps every type to the invoker's representation. Succeeds exactly
    /// when the descriptor parses and holds no deferred kind.
    #[verifier::loop_isolation(false)]
    pub fn new(symbol: usize, desc: &str) -> (r: Result<FuncHandle, crate::error::Error>)
        ensures
            r is Ok <==> (match crate::grammar::parse_desc(desc@) {
                Some((args, ret)) => !crate::grammar::ty_has_auto(ret) && (forall|i: int|
                    0 <= i < args.len() ==> !crate::grammar::ty_has_auto(#[trigger] args[i])),
                None => false,
            }),
            r matches Ok(h) ==> {
                &&& crate::grammar::parse_desc(desc@) == Some(
                    (desc_args(h.desc), desc_ret(h.desc)),
                )
                &&& handle_wf(h)
                &&& h.symbol == symbol
            },
            r matches Err(e) ==> (e matches crate::error::Error::InvalidDescriptor(m)
                && m is Some),
            (r is Err && crate::grammar::parse_desc(desc@) is Some) ==> (r matches Err(
                e,
            ) && e matches crate::error::Error::InvalidDescriptor(m) && m matches Some(
                s,
            ) && s@ == "Type 'auto' not supported for call"@),
    {
        let d = match crate::parse::p_desc(desc) {
            Ok(d) => d,
            Err(e) => {
                return Err(e);
            },
        };
        let abi_ret = match map_abi(&d.return_type) {
            Ok(a) => a,
            Err(e) => {
                return Err(e);
            },
        };
        let ghost args = desc_args(d);
        let n = d.argument_types.len();
        let mut abi_args: Vec<AbiType> = Vec::new();
        let mut i: usize = 0;
        proof {
            assert(abi_fields_view(abi_args@) =~= abi_of_fields(args.take(0)));
        }
        while i < n
            invariant
                n == d.argument_types@.len(),
                args == desc_args(d),
                args.len() == n,
                forall|j: int| 0 <= j < n ==> args[j] == #[trigger] d.argument_types@[j]@,
                i <= n,
                abi_args@.len() == i,
                abi_fields_view(abi_args@) == abi_of_fields(args.take(i as int)),
                forall|j: int|
                    0 <= j < i ==> !crate::grammar::ty_has_auto(#[trigger] args[j]),
            decreases n - i,
        {
            let ghost prev = abi_args@;
            let a = match map_abi(&d.argument_types[i]) {
                Ok(a) => a,
                Err(e) => {
                    proof {
                        assert(crate::grammar::ty_has_auto(args[i as int]));
                        let p = crate::grammar::parse_desc(desc@);
                        assert(p matches Some(x) ==> crate::grammar::ty_has_auto(
                            x.0[i as int],
                        ));
                        assert(p matches Some(x) ==> !(forall|j: int|
                            0 <= j < x.0.len() ==> !crate::grammar::ty_has_auto(
                                #[trigger] x.0[j],
                            )));
                    }
                    return Err(e);
                },
            };
            abi_args.push(a);
            proof {
                assert(abi_args@.drop_last() =~= prev);
                assert(abi_fields_view(abi_args@) == abi_fields_view(prev).push(a@));
                assert(args.take(i + 1).drop_last() =~= args.take(i as int));
                assert(args.take(i + 1).last() == args[i as int]);
            }
            i = i + 1;
        }
        proof {
            assert(args.take(n as int) =~= args);
        }
        Ok(FuncHandle { symbol, desc: d, abi_args, abi_ret })
    }

    /// The validated signature.
    pub fn desc(&self) -> (r: &FuncDesc)
        ensures
            r == &self.desc,
    {
        &self.desc
    }

    /// The resolved native code address.
    pub fn symbol(&self) -> (r: usize)
        ensures
            r == self.symbol,
    {
        self.symbol
    }

    /// The native argument type representations for the invoker.
    pub fn abi_args(&self) -> (r: &Vec<AbiType>)
        ensures
            r == &self.abi_args,
    {
        &self.abi_args
    }

    /// The native return type representation for the invoker.
    pub fn abi_ret(&self) -> (r: &AbiType)
        ensures
            r == &self.abi_ret,
    {
        &self.abi_ret
    }
}


/// `ty_eq`, executably.
pub(crate) fn ty_eq_exec(a: &FuncType, other: &FuncType) -> (r: bool)
    ensures
        r == ty_eq(*a, *other),
    decreases *a,
{
    {
        match (a, other) {
            (FuncType::Auto, FuncType::Auto) => true,
            (FuncType::Void, FuncType::Void) => true,
            (FuncType::Int, FuncType::Int) => true,
            (FuncType::Float, FuncType::Float) => true,
            (FuncType::Double, FuncType::Double) => true,
            (FuncType::LongDouble, FuncType::LongDouble) => true,
            (FuncType::ISize, FuncType::ISize) => true,
            (FuncType::USize, FuncType::USize) => true,
            (FuncType::S8, FuncType::S8) => true,
            (FuncType::S16, FuncType::S16) => true,
            (FuncType::S32, FuncType::S32) => true,
            (FuncType::S64, FuncType::S64) => true,
            (FuncType::U8, FuncType::U8) => true,
            (FuncType::U16, FuncType::U16) => true,
            (FuncType::U32, FuncType::U32) => true,
            (FuncType::U64, FuncType::U64) => true,
            (FuncType::F32, FuncType::F32) => true,
            (FuncType::F64, FuncType::F64) => true,
            (FuncType::F128, FuncType::F128) => true,
            (FuncType::Pointer, FuncType::Pointer) => true,
            (FuncType::RefStringPtr, FuncType::RefStringPtr) => true,
            (FuncType::BorrowStringPtr, FuncType::BorrowStringPtr) => true,
            (FuncType::RefArrayPtr, FuncType::RefArrayPtr) => true,
            (FuncType::BorrowArrayPtr, FuncType::BorrowArrayPtr) => true,
            (FuncType::Struct(sa), FuncType::Struct(sb)) => crate::structure::st_eq_exec(
                sa,
                sb,
            ),
            _ => false,
        }
    }
}

impl PartialEq for FuncType {
    fn eq(&self, other: &FuncType) -> (r: bool)
        ensures
            r == ty_eq(*self, *other),
    {
        ty_eq_exec(self, other)
    }
}

/// Structural equality of descriptor types: equal type trees, with equal
/// stored totals on every aggregate.
pub open spec fn ty_eq(a: FuncType, b: FuncType) -> bool
    decreases a,
{
    match (a, b) {
        (FuncType::Struct(sa), FuncType::Struct(sb)) => crate::structure::st_eq(sa, sb),
        _ => a@ == b@,
    }
}

impl vstd::std_specs::cmp::PartialEqSpecImpl for FuncType {
    open spec fn obeys_eq_spec() -> bool {
        true
    }

    open spec fn eq_spec(&self, other: &FuncType) -> bool {
        ty_eq(*self, *other)
    }
}

/// Structural equality of signatures: pairwise equal argument types and an
/// equal return type.
pub open spec fn fd_eq(a: FuncDesc, b: FuncDesc) -> bool {
    &&& a.argument_types@.len() == b.argument_types@.len()
    &&& forall|i: int|
        0 <= i < a.argument_types@.len() ==> ty_eq(
            #[trigger] a.argument_types@[i],
            b.argument_types@[i],
        )
    &&& ty_eq(a.return_type, b.return_type)
}

impl PartialEq for FuncDesc {
    fn eq(&self, other: &FuncDesc) -> (r: bool)
        ensures
            r == fd_eq(*self, *other),
    {
        let n = self.argument_types.len();
        if n != other.argument_types.len() {
            return false;
        }
        if !ty_eq_exec(&self.return_type, &other.return_type) {
            return false;
        }
        let mut i: usize = 0;
        while i < n
            invariant
                n == self.argument_types@.len(),
                n == other.argument_types@.len(),
                i <= n,
                forall|j: int|
                    0 <= j < i ==> ty_eq(
                        #[trigger] self.argument_types@[j],
                        other.argument_types@[j],
                    ),
            decreases n - i,
        {
            if !ty_eq_exec(&self.argument_types[i], &other.argument_types[i]) {
                return false;
            }
            i = i + 1;
        }
        true
    }
}

impl vstd::std_specs::cmp::PartialEqSpecImpl for FuncDesc {
    open spec fn obeys_eq_spec() -> bool {
        true
    }

    open spec fn eq_spec(&self, other: &FuncDesc) -> bool {
        fd_eq(*self, *other)
    }
}

} // verus!
