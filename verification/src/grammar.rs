//! The mathematical model of the descriptor language: the type tree, the
//! grammar (a specification-level parser), and the canonical text of a type.
//!
//! Executable parsers and formatters elsewhere in the crate are specified
//! against the functions of this module.

use vstd::prelude::*;

verus! {

/// The abstract type tree. `Struct` owns the ordered field types of a packed
/// aggregate; every other variant is a leaf kind.
pub ghost enum Ty {
    Auto,
    Void,
    Int,
    Float,
    Double,
    LongDouble,
    ISize,
    USize,
    S8,
    S16,
    S32,
    S64,
    U8,
    U16,
    U32,
    U64,
    F32,
    F64,
    F128,
    Pointer,
    RefStringPtr,
    BorrowStringPtr,
    RefArrayPtr,
    BorrowArrayPtr,
    Struct(Seq<Ty>),
}

/// The byte size of a value of kind `t`: natural sizes for the fixed-width
/// kinds, the 64-bit word size for the pointer family and the platform
/// integers, and the packed sum of the field sizes for an aggregate.
pub open spec fn ty_size(t: Ty) -> int
    decreases t,
{
    match t {
        Ty::Auto => 0,
        Ty::Void => 0,
        Ty::Int => 4,
        Ty::Float => 4,
        Ty::Double => 8,
        Ty::LongDouble => 16,
        Ty::ISize => 8,
        Ty::USize => 8,
        Ty::S8 => 1,
        Ty::S16 => 2,
        Ty::S32 => 4,
        Ty::S64 => 8,
        Ty::U8 => 1,
        Ty::U16 => 2,
        Ty::U32 => 4,
        Ty::U64 => 8,
        Ty::F32 => 4,
        Ty::F64 => 8,
        Ty::F128 => 16,
        Ty::Pointer => 8,
        Ty::RefStringPtr => 8,
        Ty::BorrowStringPtr => 8,
        Ty::RefArrayPtr => 8,
        Ty::BorrowArrayPtr => 8,
        Ty::Struct(fs) => fields_size(fs),
    }
}

/// The packed size of an ordered field list: the sum of the field sizes.
pub open spec fn fields_size(fs: Seq<Ty>) -> int
    decreases fs,
{
    if fs.len() == 0 {
        0
    } else {
        fields_size(fs.drop_last()) + ty_size(fs.last())
    }
}

/// The byte offset of field `i`: the packed sum of the sizes of the fields
/// before it.
pub open spec fn field_offset(fs: Seq<Ty>, i: int) -> int {
    fields_size(fs.take(i))
}

pub proof fn lemma_ty_size_nonneg(t: Ty)
    ensures
        ty_size(t) >= 0,
    decreases t,
{
    match t {
        Ty::Struct(fs) => {
            lemma_fields_size_nonneg(fs);
        },
        _ => {},
    }
}

pub proof fn lemma_fields_size_nonneg(fs: Seq<Ty>)
    ensures
        fields_size(fs) >= 0,
    decreases fs,
{
    if fs.len() > 0 {
        lemma_fields_size_nonneg(fs.drop_last());
        lemma_ty_size_nonneg(fs.last());
    }
}

/// Offsets are monotone: a prefix of the fields never outgrows the whole.
pub proof fn lemma_fields_size_take(fs: Seq<Ty>, i: int)
    requires
        0 <= i <= fs.len(),
    ensures
        fields_size(fs.take(i)) <= fields_size(fs),
        i < fs.len() ==> fields_size(fs.take(i)) + ty_size(fs[i]) == fields_size(
            fs.take(i + 1),
        ),
    decreases fs.len() - i,
{
    if i < fs.len() {
        assert(fs.take(i + 1).drop_last() =~= fs.take(i));
        assert(fs.take(i + 1).last() == fs[i]);
        lemma_fields_size_take(fs, i + 1);
        lemma_ty_size_nonneg(fs[i]);
    } else {
        assert(fs.take(i) =~= fs);
    }
}

/// True when `Auto` occurs anywhere in `t`, aggregates included. A signature
/// holding such a kind can never reach the ABI invoker.
pub open spec fn ty_has_auto(t: Ty) -> bool
    decreases t,
{
    match t {
        Ty::Auto => true,
        Ty::Struct(fs) => exists|i: int| 0 <= i < fs.len() && ty_has_auto(#[trigger] fs[i]),
        _ => false,
    }
}

/// The pointer family: the platform integers and every pointer kind, all of
/// word size.
pub open spec fn ty_is_ptr(t: Ty) -> bool {
    match t {
        Ty::ISize | Ty::USize | Ty::Pointer | Ty::RefStringPtr | Ty::BorrowStringPtr
        | Ty::RefArrayPtr | Ty::BorrowArrayPtr => true,
        _ => false,
    }
}

/// The signed integer source family of the coercion matrix.
pub open spec fn ty_is_signed(t: Ty) -> bool {
    match t {
        Ty::Int | Ty::ISize | Ty::S8 | Ty::S16 | Ty::S32 | Ty::S64 => true,
        _ => false,
    }
}

/// The unsigned integer source family of the coercion matrix.
pub open spec fn ty_is_unsigned(t: Ty) -> bool {
    match t {
        Ty::USize | Ty::U8 | Ty::U16 | Ty::U32 | Ty::U64 => true,
        _ => false,
    }
}

/// The floating source family of the coercion matrix. The extended-precision
/// kinds travel through it as 128-bit integer payloads.
pub open spec fn ty_is_float(t: Ty) -> bool {
    match t {
        Ty::Float | Ty::Double | Ty::LongDouble | Ty::F32 | Ty::F64 | Ty::F128 => true,
        _ => false,
    }
}

/// The kinds a numeric coercion may write into.
pub open spec fn ty_is_numeric(t: Ty) -> bool {
    match t {
        Ty::Int | Ty::Float | Ty::Double | Ty::LongDouble | Ty::ISize | Ty::USize
        | Ty::S8 | Ty::S16 | Ty::S32 | Ty::S64 | Ty::U8 | Ty::U16 | Ty::U32 | Ty::U64
        | Ty::F32 | Ty::F64 | Ty::F128 => true,
        _ => false,
    }
}

// ------------------------------------------------------------------
// The grammar.
// ------------------------------------------------------------------

/// The keyword table of the leaf atoms. `None` for any other text, the empty
/// text included.
pub open spec fn atom_ty(s: Seq<char>) -> Option<Ty> {
    if s == "auto"@ || s == "?"@ {
        Some(Ty::Auto)
    } else if s == "void"@ {
        Some(Ty::Void)
    } else if s == "int"@ {
        Some(Ty::Int)
    } else if s == "float"@ {
        Some(Ty::Float)
    } else if s == "double"@ {
        Some(Ty::Double)
    } else if s == "longdouble"@ {
        Some(Ty::LongDouble)
    } else if s == "isize"@ {
        Some(Ty::ISize)
    } else if s == "usize"@ {
        Some(Ty::USize)
    } else if s == "i8"@ {
        Some(Ty::S8)
    } else if s == "i16"@ {
        Some(Ty::S16)
    } else if s == "i32"@ {
        Some(Ty::S32)
    } else if s == "i64"@ {
        Some(Ty::S64)
    } else if s == "u8"@ {
        Some(Ty::U8)
    } else if s == "u16"@ {
        Some(Ty::U16)
    } else if s == "u32"@ {
        Some(Ty::U32)
    } else if s == "u64"@ {
        Some(Ty::U64)
    } else if s == "f32"@ {
        Some(Ty::F32)
    } else if s == "f64"@ {
        Some(Ty::F64)
    } else if s == "f128"@ {
        Some(Ty::F128)
    } else if s == "*"@ {
        Some(Ty::Pointer)
    } else if s == "&str"@ {
        Some(Ty::RefStringPtr)
    } else if s == "*str"@ {
        Some(Ty::BorrowStringPtr)
    } else if s == "&[]"@ {
        Some(Ty::RefArrayPtr)
    } else if s == "*[]"@ {
        Some(Ty::BorrowArrayPtr)
    } else {
        None
    }
}

/// Reveals the spelling of every atom keyword of the grammar.
pub proof fn reveal_atoms()
    ensures
        "auto"@.len() == 4,
        "?"@ == seq!['?'],
        "void"@.len() == 4,
        "int"@.len() == 3,
        "float"@.len() == 5,
        "double"@.len() == 6,
        "longdouble"@.len() == 10,
        "isize"@.len() == 5,
        "usize"@.len() == 5,
        "i8"@.len() == 2,
        "i16"@.len() == 3,
        "i32"@.len() == 3,
        "i64"@.len() == 3,
        "u8"@.len() == 2,
        "u16"@.len() == 3,
        "u32"@.len() == 3,
        "u64"@.len() == 3,
        "f32"@.len() == 3,
        "f64"@.len() == 3,
        "f128"@.len() == 4,
        "*"@ == seq!['*'],
        "&str"@.len() == 4,
        "*str"@.len() == 4,
        "&[]"@.len() == 3,
        "*[]"@.len() == 3,
{
    reveal_strlit("auto");
    reveal_strlit("?");
    reveal_strlit("void");
    reveal_strlit("int");
    reveal_strlit("float");
    reveal_strlit("double");
    reveal_strlit("longdouble");
    reveal_strlit("isize");
    reveal_strlit("usize");
    reveal_strlit("i8");
    reveal_strlit("i16");
    reveal_strlit("i32");
    reveal_strlit("i64");
    reveal_strlit("u8");
    reveal_strlit("u16");
    reveal_strlit("u32");
    reveal_strlit("u64");
    reveal_strlit("f32");
    reveal_strlit("f64");
    reveal_strlit("f128");
    reveal_strlit("*");
    reveal_strlit("&str");
    reveal_strlit("*str");
    reveal_strlit("&[]");
    reveal_strlit("*[]");
    assert("?"@ =~= seq!['?']);
    assert("*"@ =~= seq!['*']);
}

/// An atom is never the empty text.
pub proof fn lemma_atom_nonempty(s: Seq<char>)
    requires
        atom_ty(s) is Some,
    ensures
        s.len() > 0,
{
    reveal_atoms();
}

/// The position of the first occurrence of `c` in `s`, if any.
pub open spec fn first_index(s: Seq<char>, c: char) -> Option<int>
    decreases s.len(),
{
    if s.len() == 0 {
        None
    } else if s[0] == c {
        Some(0)
    } else {
        match first_index(s.skip(1), c) {
            Some(i) => Some(i + 1),
            None => None,
        }
    }
}

pub proof fn lemma_first_index(s: Seq<char>, c: char)
    ensures
        match first_index(s, c) {
            Some(i) => 0 <= i < s.len() && s[i] == c && forall|j: int|
                0 <= j < i ==> s[j] != c,
            None => forall|j: int| 0 <= j < s.len() ==> s[j] != c,
        },
    decreases s.len(),
{
    if s.len() > 0 && s[0] != c {
        lemma_first_index(s.skip(1), c);
        match first_index(s.skip(1), c) {
            Some(i) => {
                assert(s.skip(1)[i] == s[i + 1]);
                assert forall|j: int| 0 <= j < i + 1 implies s[j] != c by {
                    if j >= 1 {
                        assert(s.skip(1)[j - 1] == s[j]);
                    }
                }
            },
            None => {
                assert forall|j: int| 0 <= j < s.len() implies s[j] != c by {
                    if j >= 1 {
                        assert(s.skip(1)[j - 1] == s[j]);
                    }
                }
            },
        }
    }
}

pub proof fn lemma_first_index_is(s: Seq<char>, c: char, i: int)
    requires
        0 <= i < s.len(),
        s[i] == c,
        forall|j: int| 0 <= j < i ==> s[j] != c,
    ensures
        first_index(s, c) == Some(i),
    decreases i,
{
    if i > 0 {
        assert(s.skip(1)[i - 1] == s[i]);
        assert forall|j: int| 0 <= j < i - 1 implies s.skip(1)[j] != c by {
            assert(s.skip(1)[j] == s[j + 1]);
        }
        lemma_first_index_is(s.skip(1), c, i - 1);
    }
}

pub proof fn lemma_first_index_absent(s: Seq<char>, c: char)
    requires
        forall|j: int| 0 <= j < s.len() ==> s[j] != c,
    ensures
        first_index(s, c) is None,
    decreases s.len(),
{
    if s.len() > 0 {
        assert forall|j: int| 0 <= j < s.skip(1).len() implies s.skip(1)[j] != c by {
            assert(s.skip(1)[j] == s[j + 1]);
        }
        lemma_first_index_absent(s.skip(1), c);
    }
}

pub proof fn lemma_trim_start_at(s: Seq<char>, k: int)
    requires
        0 <= k <= s.len(),
        forall|j: int| 0 <= j < k ==> is_space(s[j]),
        k < s.len() ==> !is_space(s[k]),
    ensures
        trim_start(s) == s.skip(k),
    decreases k,
{
    if k == 0 {
        assert(s.skip(0) =~= s);
    } else {
        assert forall|j: int| 0 <= j < k - 1 implies is_space(s.skip(1)[j]) by {
            assert(s.skip(1)[j] == s[j + 1]);
        }
        assert(k - 1 < s.skip(1).len() ==> !is_space(s.skip(1)[k - 1]));
        lemma_trim_start_at(s.skip(1), k - 1);
        assert(s.skip(1).skip(k - 1) =~= s.skip(k));
    }
}

pub proof fn lemma_trim_end_at(s: Seq<char>, k: int)
    requires
        0 <= k <= s.len(),
        forall|j: int| k <= j < s.len() ==> is_space(s[j]),
        k > 0 ==> !is_space(s[k - 1]),
    ensures
        trim_end(s) == s.take(k),
    decreases s.len() - k,
{
    if k == s.len() {
        assert(s.take(k) =~= s);
    } else {
        assert(is_space(s.last()));
        assert forall|j: int| k <= j < s.drop_last().len() implies is_space(
            s.drop_last()[j],
        ) by {
            assert(s.drop_last()[j] == s[j]);
        }
        lemma_trim_end_at(s.drop_last(), k);
        assert(s.drop_last().take(k) =~= s.take(k));
    }
}

/// One type form at the front of `s`: a bracketed aggregate or a leaf atom.
/// The result pairs the parsed type with the count of characters consumed,
/// a separating comma after the form included.
pub open spec fn parse_one(s: Seq<char>) -> Option<(Ty, int)>
    decreases s.len(), 1int,
{
    if s.len() > 0 && s[0] == '[' {
        match parse_struct(s) {
            Some((fs, k)) => {
                if 0 <= k < s.len() && s[k] == ',' {
                    Some((Ty::Struct(fs), k + 1))
                } else {
                    Some((Ty::Struct(fs), k))
                }
            },
            None => None,
        }
    } else {
        match first_index(s, ',') {
            Some(i) => match atom_ty(s.take(i)) {
                Some(t) => Some((t, i + 1)),
                None => None,
            },
            None => match atom_ty(s) {
                Some(t) => Some((t, s.len() as int)),
                None => None,
            },
        }
    }
}

/// A bracketed aggregate at the front of `s` (so `s[0]` is `[`); consumes up
/// to and including the matching `]`. An aggregate whose packed size cannot
/// be held in the 32-bit layout arithmetic is rejected.
pub open spec fn parse_struct(s: Seq<char>) -> Option<(Seq<Ty>, int)>
    decreases s.len(), 0int,
{
    if s.len() == 0 {
        None
    } else {
        match parse_fields(s.skip(1)) {
            Some((fs, k)) => {
                if fields_size(fs) > 0xffff_ffff {
                    None
                } else {
                    Some((fs, 1 + k))
                }
            },
            None => None,
        }
    }
}

/// A bracketed aggregate that consumes all of `s`.
pub open spec fn parse_struct_full(s: Seq<char>) -> Option<Seq<Ty>> {
    if s.len() > 0 && s[0] == '[' {
        match parse_struct(s) {
            Some((fs, k)) => {
                if k == s.len() {
                    Some(fs)
                } else {
                    None
                }
            },
            None => None,
        }
    } else {
        None
    }
}

/// A field list followed by the closing `]` of its aggregate; consumes the
/// `]`. A field is a leaf atom or a nested aggregate; a comma after a field
/// is consumed with it.
pub open spec fn parse_fields(s: Seq<char>) -> Option<(Seq<Ty>, int)>
    decreases s.len(), 2int,
{
    if s.len() == 0 {
        None
    } else if s[0] == ']' {
        Some((Seq::empty(), 1))
    } else if s[0] == '[' {
        match parse_struct(s) {
            Some((inner, k)) => {
                if !(1 <= k <= s.len()) {
                    None
                } else {
                    let k2 = if k < s.len() && s[k] == ',' {
                        k + 1
                    } else {
                        k
                    };
                    match parse_fields(s.skip(k2)) {
                        Some((rest, m)) => Some((seq![Ty::Struct(inner)] + rest, k2 + m)),
                        None => None,
                    }
                }
            },
            None => None,
        }
    } else {
        let sep = match first_index(s, ',') {
            Some(i) => Some(i),
            None => first_index(s, ']'),
        };
        match sep {
            None => None,
            Some(i) => {
                if !(0 < i < s.len()) {
                    None
                } else {
                    match atom_ty(s.take(i)) {
                        None => None,
                        Some(t) => {
                            let j = if s[i] == ',' {
                                i + 1
                            } else {
                                i
                            };
                            match parse_fields(s.skip(j)) {
                                Some((rest, m)) => Some((seq![t] + rest, j + m)),
                                None => None,
                            }
                        },
                    }
                }
            },
        }
    }
}

/// A comma-separated, possibly empty list of type forms that consumes all of
/// `s`.
pub open spec fn parse_list(s: Seq<char>) -> Option<Seq<Ty>>
    decreases s.len(),
{
    if s.len() == 0 {
        Some(Seq::empty())
    } else {
        match parse_one(s) {
            Some((t, k)) => {
                if !(1 <= k <= s.len()) {
                    None
                } else {
                    match parse_list(s.skip(k)) {
                        Some(rest) => Some(seq![t] + rest),
                        None => None,
                    }
                }
            },
            None => None,
        }
    }
}

/// One type form that consumes all of `s`.
pub open spec fn parse_type(s: Seq<char>) -> Option<Ty> {
    match parse_one(s) {
        Some((t, k)) => {
            if k == s.len() {
                Some(t)
            } else {
                None
            }
        },
        None => None,
    }
}

/// The whitespace the descriptor grammar tolerates around a form.
pub open spec fn is_space(c: char) -> bool {
    c == ' ' || c == '\t' || c == '\n' || c == '\r'
}

/// `s` without its leading whitespace.
pub open spec fn trim_start(s: Seq<char>) -> Seq<char>
    decreases s.len(),
{
    if s.len() > 0 && is_space(s[0]) {
        trim_start(s.skip(1))
    } else {
        s
    }
}

/// `s` without its trailing whitespace.
pub open spec fn trim_end(s: Seq<char>) -> Seq<char>
    decreases s.len(),
{
    if s.len() > 0 && is_space(s.last()) {
        trim_end(s.drop_last())
    } else {
        s
    }
}

/// A function descriptor: `(` argument list `)` return type, with
/// whitespace tolerated around the whole form.
pub open spec fn parse_desc(s: Seq<char>) -> Option<(Seq<Ty>, Ty)> {
    let t = trim_end(trim_start(s));
    if t.len() == 0 || t[0] != '(' {
        None
    } else {
        match first_index(t, ')') {
            None => None,
            Some(e) => {
                let args = parse_list(t.subrange(1, e));
                let ret = parse_type(t.skip(e + 1));
                match (args, ret) {
                    (Some(a), Some(r)) => Some((a, r)),
                    _ => None,
                }
            },
        }
    }
}

/// An adapter descriptor: a function descriptor, or the bracketed sugar
/// `[fields]`, which reads as `(fields)void`.
pub open spec fn parse_adapter(s: Seq<char>) -> Option<(Seq<Ty>, Ty)> {
    let t = trim_start(s);
    if t.len() > 0 && t[0] == '[' {
        if t.last() == ']' {
            match parse_list(t.subrange(1, t.len() - 1)) {
                Some(a) => Some((a, Ty::Void)),
                None => None,
            }
        } else {
            None
        }
    } else {
        parse_desc(s)
    }
}

// ------------------------------------------------------------------
// The canonical text of a type.
// ------------------------------------------------------------------

/// The canonical spelling of a type: the atom keywords of the grammar, and
/// `[f1,f2,...]` for an aggregate.
pub open spec fn ty_text(t: Ty) -> Seq<char>
    decreases t, 1int,
{
    match t {
        Ty::Auto => "auto"@,
        Ty::Void => "void"@,
        Ty::Int => "int"@,
        Ty::Float => "float"@,
        Ty::Double => "double"@,
        Ty::LongDouble => "longdouble"@,
        Ty::ISize => "isize"@,
        Ty::USize => "usize"@,
        Ty::S8 => "i8"@,
        Ty::S16 => "i16"@,
        Ty::S32 => "i32"@,
        Ty::S64 => "i64"@,
        Ty::U8 => "u8"@,
        Ty::U16 => "u16"@,
        Ty::U32 => "u32"@,
        Ty::U64 => "u64"@,
        Ty::F32 => "f32"@,
        Ty::F64 => "f64"@,
        Ty::F128 => "f128"@,
        Ty::Pointer => "*"@,
        Ty::RefStringPtr => "&str"@,
        Ty::BorrowStringPtr => "*str"@,
        Ty::RefArrayPtr => "&[]"@,
        Ty::BorrowArrayPtr => "*[]"@,
        Ty::Struct(fs) => seq!['['] + list_text(fs) + seq![']'],
    }
}

/// The canonical comma-separated spelling of a type list.
pub open spec fn list_text(fs: Seq<Ty>) -> Seq<char>
    decreases fs, 0int,
{
    if fs.len() == 0 {
        Seq::empty()
    } else if fs.len() == 1 {
        ty_text(fs[0])
    } else {
        ty_text(fs[0]) + seq![','] + list_text(fs.skip(1))
    }
}

/// The canonical spelling of a function descriptor.
pub open spec fn desc_text(args: Seq<Ty>, ret: Ty) -> Seq<char> {
    seq!['('] + list_text(args) + seq![')'] + ty_text(ret)
}

/// Text without brackets, as every leaf atom keyword but the array
/// pointers is.
pub open spec fn bracket_free(s: Seq<char>) -> bool {
    forall|i: int|
        0 <= i < s.len() ==> !((#[trigger] s[i]) == '[' || s[i] == ']')
}

/// Text free of the separators the top-level grammar splits on: commas,
/// parentheses and whitespace. Leaf atom keywords are all such (the array
/// pointer atoms hold brackets, which only the field-list grammar splits
/// on).
pub open spec fn plain_text(s: Seq<char>) -> bool {
    forall|i: int|
        0 <= i < s.len() ==> !((#[trigger] s[i]) == ',' || s[i] == '(' || s[i] == ')'
            || is_space(s[i]))
}

/// A leaf atom's canonical spelling parses back to it.
#[verifier::rlimit(50)]
pub proof fn lemma_atom_text(t: Ty)
    requires
        !(t is Struct),
    ensures
        atom_ty(ty_text(t)) == Some(t),
        plain_text(ty_text(t)),
        ty_text(t).len() > 0,
        ty_text(t)[0] != '[',
        !(t is RefArrayPtr || t is BorrowArrayPtr) ==> bracket_free(ty_text(t)),
{
    broadcast use vstd::string::group_string_axioms;

    reveal_strlit("auto");
    reveal_strlit("?");
    reveal_strlit("void");
    reveal_strlit("int");
    reveal_strlit("float");
    reveal_strlit("double");
    reveal_strlit("longdouble");
    reveal_strlit("isize");
    reveal_strlit("usize");
    reveal_strlit("i8");
    reveal_strlit("i16");
    reveal_strlit("i32");
    reveal_strlit("i64");
    reveal_strlit("u8");
    reveal_strlit("u16");
    reveal_strlit("u32");
    reveal_strlit("u64");
    reveal_strlit("f32");
    reveal_strlit("f64");
    reveal_strlit("f128");
    reveal_strlit("*");
    reveal_strlit("&str");
    reveal_strlit("*str");
    reveal_strlit("&[]");
    reveal_strlit("*[]");
    assert("auto"@.len() == 4);
    assert("auto"@[0] == 'a');
    assert("auto"@[1] == 'u');
    assert("?"@.len() == 1);
    assert("?"@[0] == '?');
    assert("void"@.len() == 4);
    assert("void"@[0] == 'v');
    assert("void"@[1] == 'o');
    assert("int"@.len() == 3);
    assert("int"@[0] == 'i');
    assert("int"@[1] == 'n');
    assert("float"@.len() == 5);
    assert("float"@[0] == 'f');
    assert("float"@[1] == 'l');
    assert("double"@.len() == 6);
    assert("double"@[0] == 'd');
    assert("double"@[1] == 'o');
    assert("longdouble"@.len() == 10);
    assert("longdouble"@[0] == 'l');
    assert("longdouble"@[1] == 'o');
    assert("isize"@.len() == 5);
    assert("isize"@[0] == 'i');
    assert("isize"@[1] == 's');
    assert("usize"@.len() == 5);
    assert("usize"@[0] == 'u');
    assert("usize"@[1] == 's');
    assert("i8"@.len() == 2);
    assert("i8"@[0] == 'i');
    assert("i8"@[1] == '8');
    assert("i16"@.len() == 3);
    assert("i16"@[0] == 'i');
    assert("i16"@[1] == '1');
    assert("i32"@.len() == 3);
    assert("i32"@[0] == 'i');
    assert("i32"@[1] == '3');
    assert("i64"@.len() == 3);
    assert("i64"@[0] == 'i');
    assert("i64"@[1] == '6');
    assert("u8"@.len() == 2);
    assert("u8"@[0] == 'u');
    assert("u8"@[1] == '8');
    assert("u16"@.len() == 3);
    assert("u16"@[0] == 'u');
    assert("u16"@[1] == '1');
    assert("u32"@.len() == 3);
    assert("u32"@[0] == 'u');
    assert("u32"@[1] == '3');
    assert("u64"@.len() == 3);
    assert("u64"@[0] == 'u');
    assert("u64"@[1] == '6');
    assert("f32"@.len() == 3);
    assert("f32"@[0] == 'f');
    assert("f32"@[1] == '3');
    assert("f64"@.len() == 3);
    assert("f64"@[0] == 'f');
    assert("f64"@[1] == '6');
    assert("f128"@.len() == 4);
    assert("f128"@[0] == 'f');
    assert("f128"@[1] == '1');
    assert("*"@.len() == 1);
    assert("*"@[0] == '*');
    assert("&str"@.len() == 4);
    assert("&str"@[0] == '&');
    assert("&str"@[1] == 's');
    assert("*str"@.len() == 4);
    assert("*str"@[0] == '*');
    assert("*str"@[1] == 's');
    assert("&[]"@.len() == 3);
    assert("&[]"@[0] == '&');
    assert("&[]"@[1] == '[');
    assert("*[]"@.len() == 3);
    assert("*[]"@[0] == '*');
    assert("*[]"@[1] == '[');
    match t {
        Ty::Auto => {
            assert(atom_ty("auto"@) == Some(Ty::Auto));
            assert(plain_text("auto"@));
            assert(bracket_free("auto"@));
        },
        Ty::Void => {
            assert(atom_ty("void"@) == Some(Ty::Void));
            assert(plain_text("void"@));
            assert(bracket_free("void"@));
        },
        Ty::Int => {
            assert(atom_ty("int"@) == Some(Ty::Int));
            assert(plain_text("int"@));
            assert(bracket_free("int"@));
        },
        Ty::Float => {
            assert(atom_ty("float"@) == Some(Ty::Float));
            assert(plain_text("float"@));
            assert(bracket_free("float"@));
        },
        Ty::Double => {
            assert(atom_ty("double"@) == Some(Ty::Double));
            assert(plain_text("double"@));
            assert(bracket_free("double"@));
        },
        Ty::LongDouble => {
            assert(atom_ty("longdouble"@) == Some(Ty::LongDouble));
            assert(plain_text("longdouble"@));
            assert(bracket_free("longdouble"@));
        },
        Ty::ISize => {
            assert(atom_ty("isize"@) == Some(Ty::ISize));
            assert(plain_text("isize"@));
            assert(bracket_free("isize"@));
        },
        Ty::USize => {
            assert(atom_ty("usize"@) == Some(Ty::USize));
            assert(plain_text("usize"@));
            assert(bracket_free("usize"@));
        },
        Ty::S8 => {
            assert(atom_ty("i8"@) == Some(Ty::S8));
            assert(plain_text("i8"@));
            assert(bracket_free("i8"@));
        },
        Ty::S16 => {
            assert(atom_ty("i16"@) == Some(Ty::S16));
            assert(plain_text("i16"@));
            assert(bracket_free("i16"@));
        },
        Ty::S32 => {
            assert(atom_ty("i32"@) == Some(Ty::S32));
            assert(plain_text("i32"@));
            assert(bracket_free("i32"@));
        },
        Ty::S64 => {
            assert(atom_ty("i64"@) == Some(Ty::S64));
            assert(plain_text("i64"@));
            assert(bracket_free("i64"@));
        },
        Ty::U8 => {
            assert(atom_ty("u8"@) == Some(Ty::U8));
            assert(plain_text("u8"@));
            assert(bracket_free("u8"@));
        },
        Ty::U16 => {
            assert(atom_ty("u16"@) == Some(Ty::U16));
            assert(plain_text("u16"@));
            assert(bracket_free("u16"@));
        },
        Ty::U32 => {
            assert(atom_ty("u32"@) == Some(Ty::U32));
            assert(plain_text("u32"@));
            assert(bracket_free("u32"@));
        },
        Ty::U64 => {
            assert(atom_ty("u64"@) == Some(Ty::U64));
            assert(plain_text("u64"@));
            assert(bracket_free("u64"@));
        },
        Ty::F32 => {
            assert(atom_ty("f32"@) == Some(Ty::F32));
            assert(plain_text("f32"@));
            assert(bracket_free("f32"@));
        },
        Ty::F64 => {
            assert(atom_ty("f64"@) == Some(Ty::F64));
            assert(plain_text("f64"@));
            assert(bracket_free("f64"@));
        },
        Ty::F128 => {
            assert(atom_ty("f128"@) == Some(Ty::F128));
            assert(plain_text("f128"@));
            assert(bracket_free("f128"@));
        },
        Ty::Pointer => {
            assert(atom_ty("*"@) == Some(Ty::Pointer));
            assert(plain_text("*"@));
            assert(bracket_free("*"@));
        },
        Ty::RefStringPtr => {
            assert(atom_ty("&str"@) == Some(Ty::RefStringPtr));
            assert(plain_text("&str"@));
            assert(bracket_free("&str"@));
        },
        Ty::BorrowStringPtr => {
            assert(atom_ty("*str"@) == Some(Ty::BorrowStringPtr));
            assert(plain_text("*str"@));
            assert(bracket_free("*str"@));
        },
        Ty::RefArrayPtr => {
            assert(atom_ty("&[]"@) == Some(Ty::RefArrayPtr));
            assert(plain_text("&[]"@));
        },
        Ty::BorrowArrayPtr => {
            assert(atom_ty("*[]"@) == Some(Ty::BorrowArrayPtr));
            assert(plain_text("*[]"@));
        },
        Ty::Struct(_) => {},
    }
}

/// Text without a comma.
pub open spec fn comma_free(s: Seq<char>) -> bool {
    forall|i: int| 0 <= i < s.len() ==> (#[trigger] s[i]) != ','
}

/// The rightmost descent of `t` ends in an empty aggregate. The canonical
/// text of such a type tolerates a comma after its closing bracket: the
/// field grammar splits an atom's segment at the first comma anywhere in
/// the remaining text, so an aggregate that closes right after a leaf atom
/// must not be followed by one.
pub open spec fn close_safe(t: Ty) -> bool
    decreases t,
{
    match t {
        Ty::Struct(fs) => fs.len() == 0 || close_safe(fs.last()),
        _ => false,
    }
}

/// The canonical text of `t` survives a following comma in its list.
pub open spec fn comma_safe(t: Ty) -> bool {
    match t {
        Ty::Struct(fs) => fs.len() == 0 || close_safe(fs.last()),
        _ => true,
    }
}

/// Every aggregate inside `t` re-parses from its canonical text: its packed
/// size fits the 32-bit layout arithmetic, no array-pointer atom sits among
/// its fields (the field grammar splits on their brackets), and every field
/// with a following sibling tolerates the comma after it.
pub open spec fn text_ok(t: Ty) -> bool
    decreases t,
{
    match t {
        Ty::Struct(fs) => {
            &&& fields_size(fs) <= 0xffff_ffff
            &&& forall|i: int| 0 <= i < fs.len() ==> text_ok(#[trigger] fs[i])
            &&& forall|i: int|
                0 <= i < fs.len() ==> !((#[trigger] fs[i]) is RefArrayPtr
                    || fs[i] is BorrowArrayPtr)
            &&& forall|i: int| 0 <= i < fs.len() - 1 ==> comma_safe(#[trigger] fs[i])
        },
        _ => true,
    }
}

/// No character of any canonical type text is a parenthesis or whitespace,
/// and the text is never empty.
pub proof fn lemma_ty_text_wild(t: Ty)
    ensures
        forall|j: int|
            0 <= j < ty_text(t).len() ==> !((#[trigger] ty_text(t)[j]) == '('
                || ty_text(t)[j] == ')' || is_space(ty_text(t)[j])),
        ty_text(t).len() > 0,
    decreases t, 1int,
{
    match t {
        Ty::Struct(fs) => {
            lemma_list_text_wild(fs);
            let lt = list_text(fs);
            assert(ty_text(t) == seq!['['] + lt + seq![']']);
            assert forall|j: int|
                0 <= j < ty_text(t).len() implies !((#[trigger] ty_text(t)[j]) == '('
                || ty_text(t)[j] == ')' || is_space(ty_text(t)[j])) by {
                if j == 0 {
                    assert(ty_text(t)[j] == '[');
                } else if j <= lt.len() {
                    assert(ty_text(t)[j] == lt[j - 1]);
                } else {
                    assert(ty_text(t)[j] == ']');
                }
            }
        },
        _ => {
            lemma_atom_text(t);
        },
    }
}

/// No character of any canonical type-list text is a parenthesis or
/// whitespace.
pub proof fn lemma_list_text_wild(ts: Seq<Ty>)
    ensures
        forall|j: int|
            0 <= j < list_text(ts).len() ==> !((#[trigger] list_text(ts)[j]) == '('
                || list_text(ts)[j] == ')' || is_space(list_text(ts)[j])),
    decreases ts, 0int,
{
    if ts.len() == 1 {
        lemma_ty_text_wild(ts[0]);
        assert(list_text(ts) == ty_text(ts[0]));
    } else if ts.len() > 1 {
        lemma_ty_text_wild(ts[0]);
        lemma_list_text_wild(ts.skip(1));
        let a = ty_text(ts[0]);
        let tail = list_text(ts.skip(1));
        assert(list_text(ts) == a + seq![','] + tail);
        assert forall|j: int|
            0 <= j < list_text(ts).len() implies !((#[trigger] list_text(ts)[j]) == '('
            || list_text(ts)[j] == ')' || is_space(list_text(ts)[j])) by {
            if j < a.len() {
                assert(list_text(ts)[j] == a[j]);
            } else if j == a.len() {
                assert(list_text(ts)[j] == ',');
            } else {
                assert(list_text(ts)[j] == tail[j - a.len() - 1]);
            }
        }
    }
}

/// The first `c` of a concatenation whose head is `c`-free sits at the
/// head's end.
pub proof fn lemma_first_index_concat(a: Seq<char>, b: Seq<char>, c: char)
    requires
        forall|i: int| 0 <= i < a.len() ==> (#[trigger] a[i]) != c,
        b.len() > 0 && b[0] == c,
    ensures
        first_index(a + b, c) == Some(a.len() as int),
{
    let s = a + b;
    assert(s[a.len() as int] == c);
    assert forall|j: int| 0 <= j < a.len() implies s[j] != c by {
        assert(s[j] == a[j]);
    }
    lemma_first_index_is(s, c, a.len() as int);
}

/// One leaf form at the front of a list context: consumed together with a
/// separating comma, or alone at the end of the text.
pub proof fn lemma_parse_one_leaf(t: Ty, rest: Seq<char>)
    requires
        !(t is Struct),
        rest.len() == 0 || rest[0] == ',',
    ensures
        parse_one(ty_text(t) + rest) == Some(
            (
                t,
                if rest.len() > 0 {
                    ty_text(t).len() + 1
                } else {
                    ty_text(t).len()
                } as int,
            ),
        ),
{
    lemma_atom_text(t);
    let a = ty_text(t);
    let s = a + rest;
    assert(s[0] == a[0]);
    assert(s[0] != '[');
    if rest.len() > 0 {
        lemma_first_index_concat(a, rest, ',');
        assert(s.take(a.len() as int) =~= a);
    } else {
        assert(s =~= a);
        assert forall|j: int| 0 <= j < s.len() implies s[j] != ',' by {
            assert(s[j] == a[j]);
        }
        lemma_first_index_absent(s, ',');
    }
}

/// The canonical text of a field list followed by its closing bracket and
/// arbitrary trailing text parses back to exactly that list, consuming
/// through the bracket — provided every field re-parses, commas only follow
/// comma-tolerant fields, and a trailing comma only follows a
/// close-tolerant final field.
pub proof fn lemma_fields_text(fs: Seq<Ty>, tail: Seq<char>)
    requires
        forall|i: int| 0 <= i < fs.len() ==> text_ok(#[trigger] fs[i]),
        forall|i: int|
            0 <= i < fs.len() ==> !((#[trigger] fs[i]) is RefArrayPtr
                || fs[i] is BorrowArrayPtr),
        forall|i: int| 0 <= i < fs.len() - 1 ==> comma_safe(#[trigger] fs[i]),
        comma_free(tail) || fs.len() == 0 || close_safe(fs.last()),
    ensures
        parse_fields(list_text(fs) + seq![']'] + tail) == Some(
            (fs, list_text(fs).len() + 1int),
        ),
    decreases fs,
{
    let s = list_text(fs) + seq![']'] + tail;
    if fs.len() == 0 {
        assert(s =~= seq![']'] + tail);
        assert(s[0] == ']');
        assert(Seq::<Ty>::empty() =~= fs);
    } else {
        let t0 = fs[0];
        let a = ty_text(t0);
        let rest_elems = fs.skip(1);
        let ghost mid: Seq<char> = if fs.len() >= 2 {
            seq![','] + list_text(rest_elems)
        } else {
            Seq::empty()
        };
        assert(list_text(fs) == if fs.len() >= 2 {
            a + seq![','] + list_text(rest_elems)
        } else {
            a
        });
        assert(s =~= a + (mid + seq![']'] + tail));
        let suffix = mid + seq![']'] + tail;
        assert forall|i: int|
            0 <= i < rest_elems.len() implies text_ok(#[trigger] rest_elems[i]) && !(
        rest_elems[i] is RefArrayPtr || rest_elems[i] is BorrowArrayPtr) by {
            assert(rest_elems[i] == fs[i + 1]);
        }
        assert forall|i: int|
            0 <= i < rest_elems.len() - 1 implies comma_safe(#[trigger] rest_elems[i]) by {
            assert(rest_elems[i] == fs[i + 1]);
        }
        if fs.len() >= 2 {
            assert(rest_elems.last() == fs.last());
        }
        match t0 {
            Ty::Struct(inner) => {
                lemma_ty_text_wild(t0);
                assert(a == seq!['['] + list_text(inner) + seq![']']);
                assert(s[0] == a[0]);
                assert(s[0] == '[');
                assert(s.skip(1) =~= list_text(inner) + seq![']'] + suffix);
                assert forall|i: int|
                    0 <= i < inner.len() implies text_ok(#[trigger] inner[i]) && !(
                inner[i] is RefArrayPtr || inner[i] is BorrowArrayPtr) && (i < inner.len()
                    - 1 ==> comma_safe(inner[i])) by {
                    assert(text_ok(t0));
                }
                if fs.len() >= 2 {
                    assert(suffix[0] == ',');
                    assert(!comma_free(suffix));
                    assert(comma_safe(t0));
                    assert(inner.len() == 0 || close_safe(inner.last()));
                } else {
                    if !comma_free(tail) {
                        assert(close_safe(fs.last()));
                        assert(close_safe(t0));
                        assert(inner.len() == 0 || close_safe(inner.last()));
                    } else {
                        assert(suffix =~= seq![']'] + tail);
                        if !(inner.len() == 0 || close_safe(inner.last())) {
                            assert forall|i: int|
                                0 <= i < suffix.len() implies (#[trigger] suffix[i])
                                != ',' by {
                                if i > 0 {
                                    assert(suffix[i] == tail[i - 1]);
                                }
                            }
                            assert(comma_free(suffix));
                        }
                    }
                }
                assert(comma_free(suffix) || inner.len() == 0 || close_safe(
                    inner.last(),
                )) by {
                    if fs.len() >= 2 {
                    } else if comma_free(tail) {
                        assert forall|i: int|
                            0 <= i < suffix.len() implies (#[trigger] suffix[i])
                            != ',' by {
                            if i > 0 {
                                assert(suffix[i] == tail[i - 1]);
                            } else {
                                assert(suffix[0] == ']');
                            }
                        }
                    }
                }
                lemma_fields_text(inner, suffix);
                assert(parse_fields(s.skip(1)) == Some(
                    (inner, list_text(inner).len() + 1int),
                ));
                assert(fields_size(inner) <= 0xffff_ffff) by {
                    assert(text_ok(t0));
                }
                let k = list_text(inner).len() + 2;
                assert(parse_struct(s) == Some((inner, k as int)));
                assert(k == a.len());
                assert(1 <= k <= s.len());
                if fs.len() >= 2 {
                    assert(s[k as int] == suffix[0]);
                    assert(s[k as int] == ',');
                    let k2 = k + 1;
                    assert(s.skip(k2 as int) =~= list_text(rest_elems) + seq![']']
                        + tail);
                    lemma_fields_text(rest_elems, tail);
                    assert(parse_fields(s.skip(k2 as int)) == Some(
                        (rest_elems, list_text(rest_elems).len() + 1int),
                    ));
                    assert(seq![t0] + rest_elems =~= fs);
                    assert(parse_fields(s) == Some(
                        (fs, k2 + list_text(rest_elems).len() + 1int),
                    ));
                    assert(list_text(fs).len() == a.len() + 1 + list_text(
                        rest_elems,
                    ).len());
                } else {
                    assert(s[k as int] == ']');
                    assert(s.skip(k as int) =~= seq![']'] + tail);
                    assert((seq![']'] + tail)[0] == ']');
                    assert(parse_fields(s.skip(k as int)) == Some(
                        (Seq::<Ty>::empty(), 1int),
                    ));
                    assert(seq![t0] + Seq::<Ty>::empty() =~= fs);
                    assert(parse_fields(s) == Some((fs, k + 1int)));
                    assert(list_text(fs).len() == a.len());
                }
            },
            _ => {
                lemma_atom_text(t0);
                assert(bracket_free(a));
                assert(s[0] == a[0]);
                assert(s[0] != ']' && s[0] != '[');
                if fs.len() >= 2 {
                    assert(suffix[0] == ',');
                    lemma_first_index_concat(a, suffix, ',');
                    assert(first_index(s, ',') == Some(a.len() as int));
                    let i = a.len() as int;
                    assert(0 < i < s.len());
                    assert(s.take(i) =~= a);
                    assert(s[i] == ',');
                    let j = i + 1;
                    assert(s.skip(j) =~= list_text(rest_elems) + seq![']'] + tail);
                    lemma_fields_text(rest_elems, tail);
                    assert(seq![t0] + rest_elems =~= fs);
                    assert(parse_fields(s) == Some(
                        (fs, j + list_text(rest_elems).len() + 1int),
                    ));
                    assert(list_text(fs).len() == a.len() + 1 + list_text(
                        rest_elems,
                    ).len());
                } else {
                    assert(comma_free(tail)) by {
                        assert(!close_safe(fs.last()));
                    }
                    assert(s =~= a + seq![']'] + tail);
                    assert forall|x: int| 0 <= x < s.len() implies (#[trigger] s[x])
                        != ',' by {
                        if x < a.len() {
                            assert(s[x] == a[x]);
                        } else if x == a.len() {
                            assert(s[x] == ']');
                        } else {
                            assert(s[x] == tail[x - a.len() - 1]);
                        }
                    }
                    lemma_first_index_absent(s, ',');
                    assert forall|x: int| 0 <= x < a.len() implies (#[trigger] s[x])
                        != ']' by {
                        assert(s[x] == a[x]);
                    }
                    assert(s[a.len() as int] == ']');
                    lemma_first_index_is(s, ']', a.len() as int);
                    let i = a.len() as int;
                    assert(0 < i < s.len());
                    assert(s.take(i) =~= a);
                    assert(s[i] == ']');
                    assert(s.skip(i) =~= seq![']'] + tail);
                    assert((seq![']'] + tail)[0] == ']');
                    assert(parse_fields(s.skip(i)) == Some((Seq::<Ty>::empty(), 1int)));
                    assert(seq![t0] + Seq::<Ty>::empty() =~= fs);
                    assert(parse_fields(s) == Some((fs, i + 1int)));
                    assert(list_text(fs).len() == a.len());
                }
            },
        }
    }
}

/// The canonical text of a type list parses back to exactly that list,
/// provided every element re-parses and commas only follow comma-tolerant
/// elements.
pub proof fn lemma_list_text_round_trip(ts: Seq<Ty>)
    requires
        forall|i: int| 0 <= i < ts.len() ==> text_ok(#[trigger] ts[i]),
        forall|i: int| 0 <= i < ts.len() - 1 ==> comma_safe(#[trigger] ts[i]),
    ensures
        parse_list(list_text(ts)) == Some(ts),
    decreases ts.len(),
{
    if ts.len() == 0 {
        assert(list_text(ts).len() == 0);
        assert(Seq::<Ty>::empty() =~= ts);
    } else {
        let t0 = ts[0];
        let a = ty_text(t0);
        let rest_elems = ts.skip(1);
        let ghost rest: Seq<char> = if ts.len() >= 2 {
            seq![','] + list_text(rest_elems)
        } else {
            Seq::empty()
        };
        let s = list_text(ts);
        assert(s =~= a + rest);
        lemma_ty_text_wild(t0);
        assert forall|i: int|
            0 <= i < rest_elems.len() implies text_ok(#[trigger] rest_elems[i]) && (i
            < rest_elems.len() - 1 ==> comma_safe(rest_elems[i])) by {
            assert(rest_elems[i] == ts[i + 1]);
        }
        let ghost consumed: int = if ts.len() >= 2 {
            a.len() + 1int
        } else {
            a.len() as int
        };
        match t0 {
            Ty::Struct(inner) => {
                assert(a == seq!['['] + list_text(inner) + seq![']']);
                assert(s[0] == a[0]);
                assert(s[0] == '[');
                assert(s.skip(1) =~= list_text(inner) + seq![']'] + rest);
                assert forall|i: int|
                    0 <= i < inner.len() implies text_ok(#[trigger] inner[i]) && !(
                inner[i] is RefArrayPtr || inner[i] is BorrowArrayPtr) && (i < inner.len()
                    - 1 ==> comma_safe(inner[i])) by {
                    assert(text_ok(t0));
                }
                if ts.len() >= 2 {
                    assert(rest[0] == ',');
                    assert(comma_safe(ts[0]));
                    assert(inner.len() == 0 || close_safe(inner.last()));
                } else {
                    assert(comma_free(rest));
                }
                lemma_fields_text(inner, rest);
                assert(parse_fields(s.skip(1)) == Some(
                    (inner, list_text(inner).len() + 1int),
                ));
                assert(fields_size(inner) <= 0xffff_ffff) by {
                    assert(text_ok(t0));
                }
                let k = list_text(inner).len() + 2;
                assert(parse_struct(s) == Some((inner, k as int)));
                assert(k == a.len());
                if ts.len() >= 2 {
                    assert(s[k as int] == rest[0]);
                    assert(s[k as int] == ',');
                    assert(parse_one(s) == Some((t0, k + 1int)));
                } else {
                    assert(k == s.len());
                    assert(parse_one(s) == Some((t0, k as int)));
                }
            },
            _ => {
                lemma_parse_one_leaf(t0, rest);
                assert(parse_one(a + rest) == Some((t0, consumed)));
                assert(parse_one(s) == Some((t0, consumed)));
            },
        }
        assert(parse_one(s) == Some((t0, consumed)));
        assert(1 <= consumed <= s.len());
        if ts.len() >= 2 {
            assert(s.skip(consumed) =~= list_text(rest_elems));
        } else {
            assert(s.skip(consumed) =~= list_text(rest_elems)) by {
                assert(rest_elems.len() == 0);
                assert(list_text(rest_elems).len() == 0);
            }
        }
        lemma_list_text_round_trip(rest_elems);
        assert(seq![t0] + rest_elems =~= ts);
    }
}

/// The round trip of a function descriptor: formatting a signature
/// canonically and re-parsing it gives back exactly the same argument list
/// and return type. Every type must re-parse (`text_ok`), and an argument
/// with a following sibling must tolerate the comma after it: the inherited
/// field grammar splits an atom's segment at the first comma anywhere in
/// the remaining text, so an aggregate closing right after a leaf atom must
/// not be followed by one.
pub proof fn lemma_desc_text_round_trip(args: Seq<Ty>, ret: Ty)
    requires
        forall|i: int| 0 <= i < args.len() ==> text_ok(#[trigger] args[i]),
        forall|i: int| 0 <= i < args.len() - 1 ==> comma_safe(#[trigger] args[i]),
        text_ok(ret),
    ensures
        parse_desc(desc_text(args, ret)) == Some((args, ret)),
{
    lemma_ty_text_wild(ret);
    lemma_list_text_wild(args);
    lemma_list_text_round_trip(args);
    let lt = list_text(args);
    let rt = ty_text(ret);
    let s = desc_text(args, ret);
    assert(s == seq!['('] + lt + seq![')'] + rt);
    assert(s.len() == 2 + lt.len() + rt.len());
    assert(s[0] == '(');
    assert(!is_space('('));
    assert(trim_start(s) == s);
    assert(s.last() == rt[rt.len() - 1]) by {
        assert(s[s.len() - 1] == rt[rt.len() - 1]);
    }
    assert(!is_space(s.last()));
    assert(trim_end(s) == s);
    let head = seq!['('] + lt;
    let tail = seq![')'] + rt;
    assert(s =~= head + tail);
    assert forall|j: int| 0 <= j < head.len() implies (#[trigger] head[j]) != ')' by {
        if j > 0 {
            assert(head[j] == lt[j - 1]);
        }
    }
    lemma_first_index_concat(head, tail, ')');
    assert(first_index(s, ')') == Some(head.len() as int));
    let e = head.len() as int;
    assert(s.subrange(1, e) =~= lt);
    assert(s.skip(e + 1) =~= rt);
    match ret {
        Ty::Struct(inner) => {
            assert(rt == seq!['['] + list_text(inner) + seq![']']);
            assert(rt[0] == '[');
            assert(rt.skip(1) =~= list_text(inner) + seq![']'] + Seq::<char>::empty());
            assert forall|i: int|
                0 <= i < inner.len() implies text_ok(#[trigger] inner[i]) && !(
            inner[i] is RefArrayPtr || inner[i] is BorrowArrayPtr) && (i < inner.len() - 1
                ==> comma_safe(inner[i])) by {
                assert(text_ok(ret));
            }
            lemma_fields_text(inner, Seq::empty());
            assert(parse_fields(rt.skip(1)) == Some(
                (inner, list_text(inner).len() + 1int),
            ));
            assert(fields_size(inner) <= 0xffff_ffff) by {
                assert(text_ok(ret));
            }
            let k = list_text(inner).len() + 2;
            assert(parse_struct(rt) == Some((inner, k as int)));
            assert(k == rt.len());
            assert(parse_one(rt) == Some((ret, k as int)));
            assert(parse_type(rt) == Some(ret));
        },
        _ => {
            lemma_parse_one_leaf(ret, Seq::empty());
            assert(rt + Seq::<char>::empty() =~= rt);
            assert(parse_one(rt) == Some((ret, rt.len() as int)));
            assert(parse_type(rt) == Some(ret));
        },
    }
}

/// The round trip of the adapter's bracketed sugar: the canonical text of
/// an aggregate re-parses as an adapter descriptor to the same field list
/// with a `void` return, under the same conditions as the field grammar.
pub proof fn lemma_adapter_sugar_round_trip(fields: Seq<Ty>)
    requires
        forall|i: int| 0 <= i < fields.len() ==> text_ok(#[trigger] fields[i]),
        forall|i: int| 0 <= i < fields.len() - 1 ==> comma_safe(#[trigger] fields[i]),
    ensures
        parse_adapter(ty_text(Ty::Struct(fields))) == Some((fields, Ty::Void)),
{
    lemma_list_text_round_trip(fields);
    lemma_list_text_wild(fields);
    let s = ty_text(Ty::Struct(fields));
    let lt = list_text(fields);
    assert(s == seq!['['] + lt + seq![']']);
    assert(s[0] == '[');
    assert(!is_space('['));
    assert(trim_start(s) == s);
    assert(s.last() == ']') by {
        assert(s[s.len() - 1] == ']');
    }
    assert(s.subrange(1, s.len() - 1) =~= lt);
}

/// Unrolls `list_text` one element at the tail, for iterative builders.
pub proof fn lemma_list_text_take(fs: Seq<Ty>, i: int)
    requires
        0 <= i < fs.len(),
    ensures
        list_text(fs.take(i + 1)) == if i == 0 {
            ty_text(fs[0])
        } else {
            list_text(fs.take(i)) + seq![','] + ty_text(fs[i])
        },
    decreases i,
{
    let a = fs.take(i + 1);
    if i == 0 {
        assert(a.len() == 1);
        assert(a[0] == fs[0]);
        assert(list_text(a) == ty_text(fs[0]));
    } else {
        assert(a.len() == i + 1 >= 2);
        assert(a[0] == fs[0]);
        assert(a.skip(1) =~= fs.skip(1).take(i));
        lemma_list_text_take(fs.skip(1), i - 1);
        assert(fs.skip(1)[i - 1] == fs[i]);
        if i == 1 {
            assert(fs.skip(1).take(1) =~= fs.skip(1).take(0int + 1));
            assert(list_text(fs.skip(1).take(1)) == ty_text(fs.skip(1)[0]));
            assert(fs.skip(1)[0] == fs[1]);
            assert(fs.take(1).len() == 1);
            assert(fs.take(1)[0] == fs[0]);
            assert(list_text(fs.take(1)) == ty_text(fs[0]));
            assert(list_text(a) == ty_text(fs[0]) + seq![','] + ty_text(fs[1]));
            assert(list_text(fs.take(i)) + seq![','] + ty_text(fs[i]) == ty_text(fs[0])
                + seq![','] + ty_text(fs[1]));
        } else {
            assert(list_text(fs.skip(1).take(i)) == list_text(fs.skip(1).take(i - 1))
                + seq![','] + ty_text(fs[i]));
            assert(list_text(a) == ty_text(fs[0]) + seq![','] + list_text(
                fs.skip(1).take(i),
            ));
            let b = fs.take(i);
            assert(b.len() == i >= 2);
            assert(b[0] == fs[0]);
            assert(b.skip(1) =~= fs.skip(1).take(i - 1));
            assert(list_text(b) == ty_text(fs[0]) + seq![','] + list_text(
                fs.skip(1).take(i - 1),
            ));
            assert(list_text(a) =~= list_text(b) + seq![','] + ty_text(fs[i]));
        }
    }
}

} // verus!
