//! The executable recursive-descent parser of the descriptor grammar,
//! specified against the grammar functions of `crate::grammar`.

use vstd::prelude::*;
use vstd::string::{StrSliceExecFns, StringExecFns};

use crate::error::Error;
use crate::grammar::{
    atom_ty, fields_size, first_index, is_space, lemma_fields_size_take,
    lemma_first_index, lemma_first_index_absent, lemma_first_index_is,
    lemma_ty_size_nonneg, parse_fields, parse_one, parse_struct, trim_end, trim_start,
    Ty,
};
use crate::interface::{ty_wf, tys_of, FuncDesc, FuncType};
use crate::structure::{st_wf, StructType};

verus! {

/// True when the characters of `s` in `[from, to)` spell exactly `kw`.
pub(crate) fn seg_eq(s: &str, from: usize, to: usize, kw: &str) -> (r: bool)
    requires
        from <= to <= s@.len(),
    ensures
        r == (s@.subrange(from as int, to as int) == kw@),
{
    let n = kw.unicode_len();
    if to - from != n {
        assert(s@.subrange(from as int, to as int).len() != kw@.len());
        return false;
    }
    let mut i: usize = 0;
    while i < n
        invariant
            from <= to <= s@.len(),
            n == kw@.len(),
            to - from == n,
            i <= n,
            forall|j: int| 0 <= j < i ==> s@[from + j] == kw@[j],
        decreases n - i,
    {
        if s.get_char(from + i) != kw.get_char(i) {
            assert(s@.subrange(from as int, to as int)[i as int] != kw@[i as int]);
            return false;
        }
        i = i + 1;
    }
    proof {
        assert(s@.subrange(from as int, to as int) =~= kw@);
    }
    true
}

/// The leaf atom spelled by the characters of `s` in `[from, to)`, if any.
fn atom_at(s: &str, from: usize, to: usize) -> (r: Option<FuncType>)
    requires
        from <= to <= s@.len(),
    ensures
        match r {
            Some(t) => atom_ty(s@.subrange(from as int, to as int)) == Some(t@) && ty_wf(
                t,
            ),
            None => atom_ty(s@.subrange(from as int, to as int)) is None,
        },
{
    if seg_eq(s, from, to, "auto") || seg_eq(s, from, to, "?") {
        Some(FuncType::Auto)
    } else if seg_eq(s, from, to, "void") {
        Some(FuncType::Void)
    } else if seg_eq(s, from, to, "int") {
        Some(FuncType::Int)
    } else if seg_eq(s, from, to, "float") {
        Some(FuncType::Float)
    } else if seg_eq(s, from, to, "double") {
        Some(FuncType::Double)
    } else if seg_eq(s, from, to, "longdouble") {
        Some(FuncType::LongDouble)
    } else if seg_eq(s, from, to, "isize") {
        Some(FuncType::ISize)
    } else if seg_eq(s, from, to, "usize") {
        Some(FuncType::USize)
    } else if seg_eq(s, from, to, "i8") {
        Some(FuncType::S8)
    } else if seg_eq(s, from, to, "i16") {
        Some(FuncType::S16)
    } else if seg_eq(s, from, to, "i32") {
        Some(FuncType::S32)
    } else if seg_eq(s, from, to, "i64") {
        Some(FuncType::S64)
    } else if seg_eq(s, from, to, "u8") {
        Some(FuncType::U8)
    } else if seg_eq(s, from, to, "u16") {
        Some(FuncType::U16)
    } else if seg_eq(s, from, to, "u32") {
        Some(FuncType::U32)
    } else if seg_eq(s, from, to, "u64") {
        Some(FuncType::U64)
    } else if seg_eq(s, from, to, "f32") {
        Some(FuncType::F32)
    } else if seg_eq(s, from, to, "f64") {
        Some(FuncType::F64)
    } else if seg_eq(s, from, to, "f128") {
        Some(FuncType::F128)
    } else if seg_eq(s, from, to, "*") {
        Some(FuncType::Pointer)
    } else if seg_eq(s, from, to, "&str") {
        Some(FuncType::RefStringPtr)
    } else if seg_eq(s, from, to, "*str") {
        Some(FuncType::BorrowStringPtr)
    } else if seg_eq(s, from, to, "&[]") {
        Some(FuncType::RefArrayPtr)
    } else if seg_eq(s, from, to, "*[]") {
        Some(FuncType::BorrowArrayPtr)
    } else {
        None
    }
}

/// The position of the first `c` at or after `pos`, as an absolute index.
fn find_at(s: &str, pos: usize, c: char) -> (r: Option<usize>)
    requires
        pos <= s@.len(),
    ensures
        match r {
            Some(i) => pos <= i < s@.len() && s@[i as int] == c && first_index(
                s@.skip(pos as int),
                c,
            ) == Some(i - pos),
            None => first_index(s@.skip(pos as int), c) is None,
        },
{
    let n = s.unicode_len();
    let mut i: usize = pos;
    while i < n
        invariant
            pos <= i <= n,
            n == s@.len(),
            forall|j: int| pos <= j < i ==> s@[j] != c,
        decreases n - i,
    {
        if s.get_char(i) == c {
            proof {
                assert(s@.skip(pos as int)[i - pos] == c);
                assert forall|j: int| 0 <= j < i - pos implies s@.skip(pos as int)[j]
                    != c by {
                    assert(s@.skip(pos as int)[j] == s@[pos + j]);
                }
                lemma_first_index_is(s@.skip(pos as int), c, i - pos);
            }
            return Some(i);
        }
        i = i + 1;
    }
    proof {
        assert forall|j: int| 0 <= j < s@.skip(pos as int).len() implies s@.skip(
            pos as int,
        )[j] != c by {
            assert(s@.skip(pos as int)[j] == s@[pos + j]);
        }
        lemma_first_index_absent(s@.skip(pos as int), c);
    }
    None
}

/// The unknown-atom diagnostic: the offending fragment after a fixed
/// prefix.
pub open spec fn unknown_text(frag: Seq<char>) -> Seq<char> {
    "Unknown type: "@ + frag
}

/// The unknown-atom diagnostic, naming the offending fragment.
fn unknown_type_msg(s: &str, from: usize, to: usize) -> (r: String)
    requires
        from <= to <= s@.len(),
    ensures
        r@ == unknown_text(s@.subrange(from as int, to as int)),
{
    let mut msg = "Unknown type: ".to_owned();
    msg.append(s.substring_char(from, to));
    proof {
        assert(msg@ =~= unknown_text(s@.subrange(from as int, to as int)));
    }
    msg
}

/// A field list from `pos`, up to and including the closing `]` of its
/// aggregate.
pub(crate) fn p_fields(s: &str, pos: usize) -> (r: Result<(Vec<FuncType>, usize), Error>)
    requires
        pos <= s@.len(),
    ensures
        match r {
            Ok((v, np)) => {
                &&& pos < np <= s@.len()
                &&& parse_fields(s@.skip(pos as int)) == Some((tys_of(v@), np - pos))
                &&& forall|i: int| 0 <= i < v@.len() ==> ty_wf(#[trigger] v@[i])
            },
            Err(e) => parse_fields(s@.skip(pos as int)) is None && (e matches
                Error::InvalidDescriptor(m) && m is Some),
        },
    decreases s@.len() - pos, 1int,
{
    let ghost sub = s@.skip(pos as int);
    let n = s.unicode_len();
    if pos >= n {
        return Error::invalid_desc_from_str("Struct without end");
    }
    let c0 = s.get_char(pos);
    assert(sub[0] == c0);
    if c0 == ']' {
        let v: Vec<FuncType> = Vec::new();
        assert(tys_of(v@) =~= Seq::<Ty>::empty());
        return Ok((v, pos + 1));
    }
    if c0 == '[' {
        let (st, np1) = match p_struct(s, pos) {
            Ok(x) => x,
            Err(e) => {
                return Err(e);
            },
        };
        let k2 = if np1 < n && s.get_char(np1) == ',' {
            np1 + 1
        } else {
            np1
        };
        proof {
            assert(np1 - pos < sub.len() ==> sub[np1 - pos] == s@[np1 as int]);
        }
        let (mut rest, np) = match p_fields(s, k2) {
            Ok(x) => x,
            Err(e) => {
                proof {
                    assert(sub.skip(k2 - pos) =~= s@.skip(k2 as int));
                }
                return Err(e);
            },
        };
        proof {
            assert(sub.skip(k2 - pos) =~= s@.skip(k2 as int));
        }
        let ghost rest0 = rest@;
        rest.insert(0, FuncType::Struct(st));
        proof {
            assert(tys_of(rest@) =~= seq![Ty::Struct(st@)] + tys_of(rest0));
            assert forall|i: int| 0 <= i < rest@.len() implies ty_wf(
                #[trigger] rest@[i],
            ) by {
                if i > 0 {
                    assert(rest@[i] == rest0[i - 1]);
                }
            }
        }
        return Ok((rest, np));
    }
    let sep = match find_at(s, pos, ',') {
        Some(i) => Some(i),
        None => find_at(s, pos, ']'),
    };
    match sep {
        None => Error::invalid_desc_from_str("Struct without end"),
        Some(i) => {
            if i == pos {
                return Err(Error::InvalidDescriptor(Some(unknown_type_msg(s, pos, i))));
            }
            proof {
                assert(sub.take(i - pos) =~= s@.subrange(pos as int, i as int));
            }
            let t = match atom_at(s, pos, i) {
                Some(t) => t,
                None => {
                    return Err(Error::InvalidDescriptor(
                        Some(unknown_type_msg(s, pos, i)),
                    ));
                },
            };
            let j = if s.get_char(i) == ',' {
                i + 1
            } else {
                i
            };
            let (mut rest, np) = match p_fields(s, j) {
                Ok(x) => x,
                Err(e) => {
                    proof {
                        assert(sub.skip(j - pos) =~= s@.skip(j as int));
                    }
                    return Err(e);
                },
            };
            proof {
                assert(sub.skip(j - pos) =~= s@.skip(j as int));
            }
            let ghost rest0 = rest@;
            rest.insert(0, t);
            proof {
                assert(tys_of(rest@) =~= seq![t@] + tys_of(rest0));
                assert forall|i2: int| 0 <= i2 < rest@.len() implies ty_wf(
                    #[trigger] rest@[i2],
                ) by {
                    if i2 > 0 {
                        assert(rest@[i2] == rest0[i2 - 1]);
                    }
                }
            }
            Ok((rest, np))
        },
    }
}

/// A bracketed aggregate at `pos`: parses its field list, checks that the
/// packed size fits the 32-bit layout arithmetic, and builds the layout.
pub(crate) fn p_struct(s: &str, pos: usize) -> (r: Result<(StructType, usize), Error>)
    requires
        pos < s@.len(),
        s@.len() <= usize::MAX,
    ensures
        match r {
            Ok((st, np)) => {
                &&& pos < np <= s@.len()
                &&& st_wf(st)
                &&& parse_struct(s@.skip(pos as int)) == Some((st@, np - pos))
            },
            Err(e) => parse_struct(s@.skip(pos as int)) is None && (e matches
                Error::InvalidDescriptor(m) && m is Some),
        },
    decreases s@.len() - pos, 0int,
{
    let ghost sub = s@.skip(pos as int);
    let (fields, np) = match p_fields(s, pos + 1) {
        Ok(x) => x,
        Err(e) => {
            proof {
                assert(sub.skip(1) =~= s@.skip(pos + 1));
            }
            return Err(e);
        },
    };
    proof {
        assert(sub.skip(1) =~= s@.skip(pos + 1));
    }
    let ghost tys = tys_of(fields@);
    let mut acc: u64 = 0;
    let mut i: usize = 0;
    proof {
        assert(tys.take(0) =~= Seq::<Ty>::empty());
    }
    while i < fields.len()
        invariant
            i <= fields@.len(),
            tys == tys_of(fields@),
            tys.len() == fields@.len(),
            sub == s@.skip(pos as int),
            pos < s@.len(),
            pos < np <= s@.len(),
            parse_fields(sub.skip(1)) == Some((tys, np - (pos + 1))),
            forall|j: int| 0 <= j < fields@.len() ==> ty_wf(#[trigger] fields@[j]),
            acc as int == fields_size(tys.take(i as int)),
            acc <= 0xffff_ffffu64,
        decreases fields@.len() - i,
    {
        let size = fields[i].size();
        proof {
            lemma_fields_size_take(tys, i as int);
            assert(tys.take(i + 1).drop_last() =~= tys.take(i as int));
            assert(tys.take(i + 1).last() == tys[i as int]);
        }
        acc = acc + size as u64;
        if acc > 0xffff_ffff {
            proof {
                assert(fields_size(tys.take(i + 1)) == acc as int);
                lemma_fields_size_monotone(tys, i + 1);
                assert(fields_size(tys) > 0xffff_ffff);
                assert(parse_struct(sub) is None);
            }
            return Error::invalid_desc_from_str("Aggregate too large");
        }
        i = i + 1;
    }
    proof {
        assert(tys.take(fields@.len() as int) =~= tys);
    }
    let st = StructType::new(fields);
    Ok((st, np))
}

/// The packed size of a prefix never exceeds the packed size of the whole.
proof fn lemma_fields_size_monotone(fs: Seq<Ty>, i: int)
    requires
        0 <= i <= fs.len(),
    ensures
        fields_size(fs.take(i)) <= fields_size(fs),
{
    lemma_fields_size_take(fs, i);
}

/// One type form at `pos`: a bracketed aggregate or a leaf atom, a
/// separating comma after it included in the consumed count.
pub(crate) fn p_one(s: &str, pos: usize) -> (r: Result<(FuncType, usize), Error>)
    requires
        pos <= s@.len(),
    ensures
        match r {
            Ok((t, np)) => {
                &&& pos < np <= s@.len()
                &&& ty_wf(t)
                &&& parse_one(s@.skip(pos as int)) == Some((t@, np - pos))
            },
            Err(e) => {
                &&& parse_one(s@.skip(pos as int)) is None
                &&& (e matches Error::InvalidDescriptor(m) && m is Some)
                &&& (s@.skip(pos as int).len() == 0 || s@.skip(pos as int)[0] != '[')
                    ==> {
                    let frag = match first_index(s@.skip(pos as int), ',') {
                        Some(i) => s@.skip(pos as int).take(i),
                        None => s@.skip(pos as int),
                    };
                    atom_ty(frag) is None && (e matches Error::InvalidDescriptor(m2)
                        && m2 matches Some(t) && t@ == unknown_text(frag))
                }
            },
        },
    decreases s@.len() - pos, 1int,
{
    let ghost sub = s@.skip(pos as int);
    let n = s.unicode_len();
    if pos < n && s.get_char(pos) == '[' {
        assert(sub[0] == '[');
        let (st, np1) = match p_struct(s, pos) {
            Ok(x) => x,
            Err(e) => {
                return Err(e);
            },
        };
        proof {
            assert(np1 - pos < sub.len() ==> sub[np1 - pos] == s@[np1 as int]);
        }
        let np = if np1 < n && s.get_char(np1) == ',' {
            np1 + 1
        } else {
            np1
        };
        return Ok((FuncType::Struct(st), np));
    }
    assert(sub.len() > 0 ==> sub[0] != '[');
    match find_at(s, pos, ',') {
        Some(i) => {
            proof {
                assert(sub.take(i - pos) =~= s@.subrange(pos as int, i as int));
            }
            match atom_at(s, pos, i) {
                Some(t) => Ok((t, i + 1)),
                None => Err(Error::InvalidDescriptor(Some(unknown_type_msg(s, pos, i)))),
            }
        },
        None => {
            proof {
                assert(sub =~= s@.subrange(pos as int, s@.len() as int));
            }
            match atom_at(s, pos, n) {
                Some(t) => {
                    proof {
                        crate::grammar::lemma_atom_nonempty(sub);
                    }
                    Ok((t, n))
                },
                None => Err(Error::InvalidDescriptor(Some(unknown_type_msg(s, pos, n)))),
            }
        },
    }
}

/// A comma-separated, possibly empty list of type forms consuming all of
/// `s`.
pub(crate) fn p_list(s: &str) -> (r: Result<Vec<FuncType>, Error>)
    ensures
        match r {
            Ok(v) => crate::grammar::parse_list(s@) == Some(tys_of(v@)) && forall|i: int|
                0 <= i < v@.len() ==> ty_wf(#[trigger] v@[i]),
            Err(e) => crate::grammar::parse_list(s@) is None && (e matches
                Error::InvalidDescriptor(m) && m is Some),
        },
{
    let n = s.unicode_len();
    let mut v: Vec<FuncType> = Vec::new();
    let mut pos: usize = 0;
    proof {
        assert(s@.skip(0) =~= s@);
        assert(tys_of(v@) =~= Seq::<Ty>::empty());
    }
    while pos < n
        invariant
            pos <= n,
            n == s@.len(),
            forall|i: int| 0 <= i < v@.len() ==> ty_wf(#[trigger] v@[i]),
            crate::grammar::parse_list(s@) == (match crate::grammar::parse_list(
                s@.skip(pos as int),
            ) {
                Some(rest) => Some(tys_of(v@) + rest),
                None => None,
            }),
        decreases n - pos,
    {
        let ghost pos0 = pos as int;
        let ghost v0 = v@;
        let (t, np) = match p_one(s, pos) {
            Ok(x) => x,
            Err(e) => {
                return Err(e);
            },
        };
        v.push(t);
        pos = np;
        proof {
            assert(s@.skip(pos0).skip(np - pos0) =~= s@.skip(np as int));
            assert(tys_of(v@) =~= tys_of(v0).push(t@));
            match crate::grammar::parse_list(s@.skip(np as int)) {
                Some(rest) => {
                    assert(crate::grammar::parse_list(s@.skip(pos0)) == Some(
                        seq![t@] + rest,
                    ));
                    assert(tys_of(v0) + (seq![t@] + rest) =~= tys_of(v@) + rest);
                },
                None => {},
            }
        }
    }
    proof {
        assert(s@.skip(n as int) =~= Seq::<char>::empty());
        assert(crate::grammar::parse_list(Seq::<char>::empty()) == Some(
            Seq::<Ty>::empty(),
        ));
        assert(tys_of(v@) + Seq::<Ty>::empty() =~= tys_of(v@));
    }
    Ok(v)
}

/// True when `c` is whitespace the grammar tolerates.
fn space_char(c: char) -> (r: bool)
    ensures
        r == is_space(c),
{
    c == ' ' || c == '\t' || c == '\n' || c == '\r'
}

impl FuncType {
    /// Parses one type form; the whole text must be consumed.
    pub fn from_str(s: &str) -> (r: Result<FuncType, Error>)
        ensures
            match r {
                Ok(t) => crate::grammar::parse_type(s@) == Some(t@) && ty_wf(t),
                Err(e) => {
                    &&& crate::grammar::parse_type(s@) is None
                    &&& (e matches Error::InvalidDescriptor(m) && m is Some)
                    &&& (s@.len() == 0 || s@[0] != '[') ==> {
                        let frag = match first_index(s@, ',') {
                            Some(i) => s@.take(i),
                            None => s@,
                        };
                        atom_ty(frag) is None ==> (e matches Error::InvalidDescriptor(
                            m2,
                        ) && m2 matches Some(t) && t@ == unknown_text(frag))
                    }
                },
            },
    {
        proof {
            assert(s@.skip(0) =~= s@);
        }
        let n = s.unicode_len();
        let (t, np) = match p_one(s, 0) {
            Ok(x) => x,
            Err(e) => {
                return Err(e);
            },
        };
        if np == n {
            Ok(t)
        } else {
            Error::invalid_desc_from_str("Trailing characters after type")
        }
    }

    /// Parses a comma-separated, possibly empty list of type forms; the
    /// whole text must be consumed.
    pub fn from_str_list(s: &str) -> (r: Result<Vec<FuncType>, Error>)
        ensures
            match r {
                Ok(v) => crate::grammar::parse_list(s@) == Some(tys_of(v@)) && forall|
                    i: int,
                |
                    0 <= i < v@.len() ==> ty_wf(#[trigger] v@[i]),
                Err(e) => crate::grammar::parse_list(s@) is None && (e matches
                    Error::InvalidDescriptor(m) && m is Some),
            },
    {
        p_list(s)
    }
}

impl StructType {
    /// Parses a bracketed aggregate descriptor; the whole text must be
    /// consumed.
    pub fn from_str(s: &str) -> (r: Result<StructType, Error>)
        ensures
            match r {
                Ok(st) => crate::grammar::parse_struct_full(s@) == Some(st@) && st_wf(
                    st,
                ),
                Err(e) => crate::grammar::parse_struct_full(s@) is None && (e matches
                    Error::InvalidDescriptor(m) && m is Some),
            },
    {
        proof {
            assert(s@.skip(0) =~= s@);
        }
        let n = s.unicode_len();
        if n == 0 {
            return Error::invalid_desc_from_str("Invalid descriptor start");
        }
        if s.get_char(0) != '[' {
            return Error::invalid_desc_from_str("Invalid descriptor start");
        }
        let (st, np) = match p_struct(s, 0) {
            Ok(x) => x,
            Err(e) => {
                return Err(e);
            },
        };
        if np == n {
            Ok(st)
        } else {
            Error::invalid_desc_from_str("Invalid descriptor end")
        }
    }
}

/// The leading-whitespace count of `s`, fixing `trim_start(s@)`.
fn scan_spaces(s: &str) -> (lo: usize)
    ensures
        lo <= s@.len(),
        crate::grammar::trim_start(s@) == s@.skip(lo as int),
{
    let n = s.unicode_len();
    let mut lo: usize = 0;
    while lo < n && space_char(s.get_char(lo))
        invariant
            lo <= n,
            n == s@.len(),
            forall|j: int| 0 <= j < lo ==> is_space(s@[j]),
        decreases n - lo,
    {
        lo = lo + 1;
    }
    proof {
        crate::grammar::lemma_trim_start_at(s@, lo as int);
    }
    lo
}

/// Parses a function descriptor: `(` argument list `)` return type, with
/// surrounding whitespace tolerated.
pub(crate) fn p_desc(s: &str) -> (r: Result<FuncDesc, Error>)
    ensures
        match r {
            Ok(d) => crate::grammar::parse_desc(s@) == Some(
                (crate::interface::desc_args(d), crate::interface::desc_ret(d)),
            ) && crate::interface::desc_wf(d),
            Err(e) => crate::grammar::parse_desc(s@) is None && (e matches
                Error::InvalidDescriptor(m) && m is Some),
        },
{
    let n = s.unicode_len();
    let lo = scan_spaces(s);
    let mut hi: usize = n;
    while hi > lo && space_char(s.get_char(hi - 1))
        invariant
            lo <= hi <= n,
            n == s@.len(),
            forall|j: int| hi <= j < n ==> is_space(s@[j]),
        decreases hi,
    {
        hi = hi - 1;
    }
    proof {
        crate::grammar::lemma_trim_end_at(s@.skip(lo as int), hi - lo);
    }
    let t = s.substring_char(lo, hi);
    proof {
        assert(t@ =~= s@.skip(lo as int).take(hi - lo));
        assert(t@ == trim_end(trim_start(s@)));
    }
    let tn = hi - lo;
    if tn == 0 {
        return Error::invalid_desc_from_str("Invalid descriptor start");
    }
    if t.get_char(0) != '(' {
        return Error::invalid_desc_from_str("Invalid descriptor start");
    }
    let e = match find_at(t, 0, ')') {
        Some(e) => e,
        None => {
            proof {
                assert(t@.skip(0) =~= t@);
            }
            return Error::invalid_desc_from_str("Invalid descriptor end");
        },
    };
    proof {
        assert(t@.skip(0) =~= t@);
    }
    let ret_str = t.substring_char(e + 1, tn);
    let return_type = match FuncType::from_str(ret_str) {
        Ok(x) => x,
        Err(e2) => {
            proof {
                assert(ret_str@ =~= t@.skip(e + 1));
            }
            return Err(e2);
        },
    };
    proof {
        assert(ret_str@ =~= t@.skip(e + 1));
    }
    let args_str = t.substring_char(1, e);
    let argument_types = match p_list(args_str) {
        Ok(x) => x,
        Err(e2) => {
            proof {
                assert(args_str@ =~= t@.subrange(1, e as int));
            }
            return Err(e2);
        },
    };
    proof {
        assert(args_str@ =~= t@.subrange(1, e as int));
    }
    Ok(FuncDesc { argument_types, return_type })
}

impl FuncDesc {
    /// Parses a function descriptor: `(` argument list `)` return type.
    pub fn from_str(s: &str) -> (r: Result<FuncDesc, Error>)
        ensures
            match r {
                Ok(d) => crate::grammar::parse_desc(s@) == Some(
                    (crate::interface::desc_args(d), crate::interface::desc_ret(d)),
                ) && crate::interface::desc_wf(d),
                Err(e) => crate::grammar::parse_desc(s@) is None && (e matches
                    Error::InvalidDescriptor(m) && m is Some),
            },
    {
        p_desc(s)
    }
}

/// Parses an adapter descriptor: a function descriptor, or the bracketed
/// field-list sugar `[fields]`, which reads as `(fields)void`.
pub(crate) fn p_adapter(s: &str) -> (r: Result<FuncDesc, Error>)
    ensures
        match r {
            Ok(d) => crate::grammar::parse_adapter(s@) == Some(
                (crate::interface::desc_args(d), crate::interface::desc_ret(d)),
            ) && crate::interface::desc_wf(d),
            Err(e) => crate::grammar::parse_adapter(s@) is None && (e matches
                Error::InvalidDescriptor(m) && m is Some),
        },
{
    let n = s.unicode_len();
    let lo = scan_spaces(s);
    let ghost t = trim_start(s@);
    if lo < n && s.get_char(lo) == '[' {
        assert(t[0] == '[');
        if s.get_char(n - 1) == ']' {
            assert(t.last() == ']');
            let inner = s.substring_char(lo + 1, n - 1);
            proof {
                assert(inner@ =~= t.subrange(1, t.len() - 1));
            }
            let argument_types = match p_list(inner) {
                Ok(x) => x,
                Err(e2) => {
                    return Err(e2);
                },
            };
            Ok(FuncDesc { argument_types, return_type: FuncType::Void })
        } else {
            assert(t.last() == s@[n - 1]);
            Error::invalid_desc_from_str("Invalid descriptor end")
        }
    } else {
        p_desc(s)
    }
}

} // verus!
