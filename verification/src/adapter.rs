//! The adapter: a caller-side signature whose value representation may
//! diverge from a callee's native one. At call time every argument is
//! coerced into the callee's representation and the result back; against an
//! aggregate layout the same machinery coerces single fields in and out.
//!
//! The native jump itself is outside work: `call_prepare` validates counts
//! and coerces the arguments, the embedder performs the invocation with the
//! prepared buffers, and `call_complete` coerces the returned bytes.

use vstd::prelude::*;
use vstd::string::StringExecFns;

use crate::coerce::{
    cast_bytes, cast_bytes_spec, cast_ok, cast_src_size, cast_dst_size, needs_dup,
    needs_string_dup,
};
use crate::error::Error;
use crate::grammar::{field_offset, fields_size, ty_size, Ty};
use crate::interface::{
    desc_args, desc_ret, desc_wf, handle_wf, ty_wf, FuncDesc, FuncHandle, FuncType,
};
use crate::structure::{st_wf, StructType};

verus! {

/// A caller-side target signature for coercion.
pub struct Adapter {
    pub target: FuncDesc,
}

/// The adapter's argument type trees.
pub open spec fn adapter_args(a: Adapter) -> Seq<Ty> {
    desc_args(a.target)
}

/// The adapter's return type tree.
pub open spec fn adapter_ret(a: Adapter) -> Ty {
    desc_ret(a.target)
}

/// Well-formedness of an adapter: its signature is well formed.
pub open spec fn adapter_wf(a: Adapter) -> bool {
    desc_wf(a.target)
}

/// When a field write through the adapter succeeds: the coercion must
/// succeed and its output must fill the field exactly.
pub open spec fn set_ok(arg: Ty, fld: Ty) -> bool {
    cast_ok(arg, fld) && cast_dst_size(arg, fld) == ty_size(fld)
}

/// When a field read through the adapter succeeds: the coercion must
/// succeed and the field's bytes must be what it consumes.
pub open spec fn get_ok(fld: Ty, arg: Ty) -> bool {
    cast_ok(fld, arg) && cast_src_size(fld, arg) == ty_size(fld)
}

/// The decimal digit character of `d`.
pub open spec fn dec_digit(d: int) -> char {
    if d == 0 {
        '0'
    } else if d == 1 {
        '1'
    } else if d == 2 {
        '2'
    } else if d == 3 {
        '3'
    } else if d == 4 {
        '4'
    } else if d == 5 {
        '5'
    } else if d == 6 {
        '6'
    } else if d == 7 {
        '7'
    } else if d == 8 {
        '8'
    } else {
        '9'
    }
}

/// The decimal text of a nonnegative `v`, most significant digit first.
pub open spec fn dec_text(v: int) -> Seq<char>
    decreases v,
{
    if v < 10 {
        seq![dec_digit(v)]
    } else {
        dec_text(v / 10) + seq![dec_digit(v % 10)]
    }
}

/// The decimal text of `v`.
fn usize_to_string(v: usize) -> (r: String)
    ensures
        r@ == dec_text(v as int),
    decreases v,
{
    let d: &str = match v % 10 {
        0 => "0",
        1 => "1",
        2 => "2",
        3 => "3",
        4 => "4",
        5 => "5",
        6 => "6",
        7 => "7",
        8 => "8",
        _ => "9",
    };
    proof {
        reveal_strlit("0");
        reveal_strlit("1");
        reveal_strlit("2");
        reveal_strlit("3");
        reveal_strlit("4");
        reveal_strlit("5");
        reveal_strlit("6");
        reveal_strlit("7");
        reveal_strlit("8");
        reveal_strlit("9");
        assert(d@ =~= seq![dec_digit((v % 10) as int)]);
    }
    if v >= 10 {
        let mut s = usize_to_string(v / 10);
        s.append(d);
        s
    } else {
        d.to_owned()
    }
}

/// A count-mismatch diagnostic: `prefix (got / want)`.
pub open spec fn count_text(prefix: Seq<char>, got: int, want: int) -> Seq<char> {
    prefix + " ("@ + dec_text(got) + " / "@ + dec_text(want) + ")"@
}

/// Builds a count-mismatch diagnostic naming the two counts.
fn count_msg(prefix: &str, got: usize, want: usize) -> (r: String)
    ensures
        r@ == count_text(prefix@, got as int, want as int),
{
    let mut m = prefix.to_owned();
    m.append(" (");
    m.append(usize_to_string(got).as_str());
    m.append(" / ");
    m.append(usize_to_string(want).as_str());
    m.append(")");
    proof {
        assert(m@ =~= count_text(prefix@, got as int, want as int));
    }
    m
}

/// The diagnostic a call's count validation produces: the callee's count
/// against the adapter's where those differ, else the supplied count
/// against the adapter's.
pub open spec fn call_count_msg_text(a: Adapter, f: FuncHandle, argc: int) -> Seq<
    char,
> {
    if adapter_args(a).len() != desc_args(f.desc).len() {
        count_text(
            "Function invalid arguments count"@,
            desc_args(f.desc).len() as int,
            adapter_args(a).len() as int,
        )
    } else {
        count_text(
            "Accepted invalid arguments count"@,
            argc,
            adapter_args(a).len() as int,
        )
    }
}

/// The diagnostic a field access's validation produces: the index against
/// the adapter's field count where it is out of range, else the aggregate's
/// field count against the adapter's.
pub open spec fn access_count_msg_text(a: Adapter, fields: Seq<Ty>, index: int) -> Seq<
    char,
> {
    if index >= adapter_args(a).len() {
        count_text("Invalid index"@, index, adapter_args(a).len() as int)
    } else {
        count_text(
            "Structure invalid fields count"@,
            fields.len() as int,
            adapter_args(a).len() as int,
        )
    }
}

impl Adapter {
    /// An adapter over an explicit target signature.
    pub fn new(target: FuncDesc) -> (r: Adapter)
        requires
            desc_wf(target),
        ensures
            adapter_wf(r),
            r.target == target,
    {
        Adapter { target }
    }

    /// Parses an adapter descriptor: a function descriptor, or the
    /// bracketed field-list sugar `[fields]`, which reads as
    /// `(fields)void`.
    pub fn from_str(s: &str) -> (r: Result<Adapter, Error>)
        ensures
            match r {
                Ok(a) => crate::grammar::parse_adapter(s@) == Some(
                    (adapter_args(a), adapter_ret(a)),
                ) && adapter_wf(a),
                Err(e) => crate::grammar::parse_adapter(s@) is None && (e matches
                    Error::InvalidDescriptor(m) && m is Some),
            },
    {
        match crate::parse::p_adapter(s) {
            Ok(d) => Ok(Adapter { target: d }),
            Err(e) => Err(e),
        }
    }

    /// The target signature.
    pub fn target(&self) -> (r: &FuncDesc)
        ensures
            r == &self.target,
    {
        &self.target
    }

    /// Validates the three argument counts of a call: the adapter's, the
    /// callee's, and the count actually supplied.
    fn check_arguments(&self, func: &FuncHandle, argc: usize) -> (r: Result<(), Error>)
        ensures
            r is Ok <==> (adapter_args(*self).len() == desc_args(func.desc).len()
                && argc == adapter_args(*self).len()),
            r matches Err(e) ==> (e matches Error::InvalidArguments(m) && m matches Some(
                s,
            ) && s@ == call_count_msg_text(*self, *func, argc as int)),
    {
        let target_argc = self.target.argument_types.len();
        let func_argc = func.desc.argument_types.len();
        if target_argc != func_argc {
            return Err(Error::InvalidArguments(Some(count_msg(
                "Function invalid arguments count",
                func_argc,
                target_argc,
            ))));
        }
        if target_argc != argc {
            return Err(Error::InvalidArguments(Some(count_msg(
                "Accepted invalid arguments count",
                argc,
                target_argc,
            ))));
        }
        Ok(())
    }

    /// Validates a field access: the index against the adapter's declared
    /// field count, and that count against the aggregate's.
    fn check_access(&self, struct_type: &StructType, index: usize) -> (r: Result<
        (),
        Error,
    >)
        ensures
            r is Ok <==> (index < adapter_args(*self).len() && adapter_args(*self).len()
                == struct_type@.len()),
            r matches Err(e) ==> (e matches Error::InvalidArguments(m) && m matches Some(
                s,
            ) && s@ == access_count_msg_text(*self, struct_type@, index as int)),
    {
        let target_count = self.target.argument_types.len();
        if index >= target_count {
            return Err(Error::InvalidArguments(Some(count_msg(
                "Invalid index",
                index,
                target_count,
            ))));
        }
        let struct_count = struct_type.field_count();
        if target_count != struct_count {
            return Err(Error::InvalidArguments(Some(count_msg(
                "Structure invalid fields count",
                struct_count,
                target_count,
            ))));
        }
        Ok(())
    }

    /// Coerces `avalue`, held in the adapter's representation of field
    /// `index`, into the aggregate's field and writes it into the buffer.
    /// The returned flag reports whether the embedder owes a string
    /// duplication for the stored pointer.
    pub fn set(
        &self,
        struct_type: &StructType,
        structure: &mut Vec<u8>,
        index: usize,
        avalue: &Vec<u8>,
    ) -> (r: Result<bool, Error>)
        requires
            adapter_wf(*self),
            st_wf(*struct_type),
            old(structure)@.len() == fields_size(struct_type@),
            (index < adapter_args(*self).len() && adapter_args(*self).len()
                == struct_type@.len()) ==> {
                &&& avalue@.len() == cast_src_size(
                    adapter_args(*self)[index as int],
                    struct_type@[index as int],
                )
                &&& !(adapter_args(*self)[index as int] is Auto
                    && struct_type@[index as int] is Auto)
            },
        ensures
            match r {
                Ok(dup) => {
                    &&& index < adapter_args(*self).len()
                    &&& adapter_args(*self).len() == struct_type@.len()
                    &&& set_ok(
                        adapter_args(*self)[index as int],
                        struct_type@[index as int],
                    )
                    &&& dup == needs_dup(
                        adapter_args(*self)[index as int],
                        struct_type@[index as int],
                    )
                    &&& final(structure)@.len() == old(structure)@.len()
                    &&& forall|j: int|
                        0 <= j < final(structure)@.len() ==> final(structure)@[j]
                            == if field_offset(struct_type@, index as int) <= j
                            < field_offset(struct_type@, index as int) + ty_size(
                            struct_type@[index as int],
                        ) {
                            cast_bytes_spec(
                                adapter_args(*self)[index as int],
                                struct_type@[index as int],
                                avalue@,
                            )[j - field_offset(struct_type@, index as int)]
                        } else {
                            old(structure)@[j]
                        }
                },
                Err(e) => {
                    &&& final(structure)@ == old(structure)@
                    &&& if !(index < adapter_args(*self).len() && adapter_args(
                        *self,
                    ).len() == struct_type@.len()) {
                        e matches Error::InvalidArguments(m) && m matches Some(s) && s@
                            == access_count_msg_text(*self, struct_type@, index as int)
                    } else {
                        (e matches Error::InvalidCast(m) && m matches Some(s) && s@
                            == if !cast_ok(
                            adapter_args(*self)[index as int],
                            struct_type@[index as int],
                        ) {
                            crate::coerce::cast_msg_text(
                                adapter_args(*self)[index as int],
                                struct_type@[index as int],
                            )
                        } else {
                            "Coerced value does not fill the field"@
                        }) && !set_ok(
                            adapter_args(*self)[index as int],
                            struct_type@[index as int],
                        )
                    }
                },
            },
    {
        match self.check_access(struct_type, index) {
            Ok(_) => {},
            Err(e) => {
                return Err(e);
            },
        }
        proof {
            crate::structure::lemma_fields_view(struct_type.fields@);
        }
        let arg = &self.target.argument_types[index];
        let fld = &struct_type.fields[index].0;
        let out = match cast_bytes(arg, fld, avalue) {
            Ok(o) => o,
            Err(e) => {
                return Err(e);
            },
        };
        if out.len() != fld.size() as usize {
            return Err(Error::InvalidCast(Some(
                "Coerced value does not fill the field".to_owned(),
            )));
        }
        struct_type.set_raw(structure, index, &out);
        Ok(needs_string_dup(arg, fld))
    }

    /// Reads field `index` out of the aggregate buffer and coerces it into
    /// the adapter's representation. The returned flag reports whether the
    /// embedder owes a string duplication for the handed-out pointer.
    pub fn get(
        &self,
        struct_type: &StructType,
        structure: &Vec<u8>,
        index: usize,
    ) -> (r: Result<(Vec<u8>, bool), Error>)
        requires
            adapter_wf(*self),
            st_wf(*struct_type),
            structure@.len() == fields_size(struct_type@),
            (index < adapter_args(*self).len() && adapter_args(*self).len()
                == struct_type@.len()) ==> !(adapter_args(*self)[index as int] is Auto
                && struct_type@[index as int] is Auto),
        ensures
            match r {
                Ok((out, dup)) => {
                    &&& index < adapter_args(*self).len()
                    &&& adapter_args(*self).len() == struct_type@.len()
                    &&& get_ok(
                        struct_type@[index as int],
                        adapter_args(*self)[index as int],
                    )
                    &&& out@ == cast_bytes_spec(
                        struct_type@[index as int],
                        adapter_args(*self)[index as int],
                        structure@.subrange(
                            field_offset(struct_type@, index as int),
                            field_offset(struct_type@, index as int) + ty_size(
                                struct_type@[index as int],
                            ),
                        ),
                    )
                    &&& dup == needs_dup(
                        struct_type@[index as int],
                        adapter_args(*self)[index as int],
                    )
                },
                Err(e) => {
                    if !(index < adapter_args(*self).len() && adapter_args(*self).len()
                        == struct_type@.len()) {
                        e matches Error::InvalidArguments(m) && m matches Some(s) && s@
                            == access_count_msg_text(*self, struct_type@, index as int)
                    } else {
                        (e matches Error::InvalidCast(m) && m matches Some(s) && s@
                            == if cast_src_size(
                            struct_type@[index as int],
                            adapter_args(*self)[index as int],
                        ) != ty_size(struct_type@[index as int]) {
                            "Field bytes do not fit the coercion"@
                        } else {
                            crate::coerce::cast_msg_text(
                                struct_type@[index as int],
                                adapter_args(*self)[index as int],
                            )
                        }) && !get_ok(
                            struct_type@[index as int],
                            adapter_args(*self)[index as int],
                        )
                    }
                },
            },
    {
        match self.check_access(struct_type, index) {
            Ok(_) => {},
            Err(e) => {
                return Err(e);
            },
        }
        proof {
            crate::structure::lemma_fields_view(struct_type.fields@);
        }
        let arg = &self.target.argument_types[index];
        let fld = &struct_type.fields[index].0;
        let src_need: u32 = if fld.is_auto() {
            arg.size()
        } else {
            fld.size()
        };
        if fld.size() != src_need {
            return Err(Error::InvalidCast(Some(
                "Field bytes do not fit the coercion".to_owned(),
            )));
        }
        let raw = struct_type.get_raw(structure, index);
        proof {
            crate::grammar::lemma_ty_size_nonneg(struct_type@[index as int]);
            crate::grammar::lemma_fields_size_take(struct_type@, index as int);
            crate::grammar::lemma_fields_size_take(struct_type@, index + 1);
            crate::grammar::lemma_fields_size_nonneg(struct_type@.take(index as int));
            assert(0 <= field_offset(struct_type@, index as int));
            assert(field_offset(struct_type@, index as int) + ty_size(
                struct_type@[index as int],
            ) <= structure@.len());
            assert(raw@.len() == ty_size(struct_type@[index as int]));
            assert(raw@.len() == cast_src_size(fld@, arg@));
        }
        let out = match cast_bytes(fld, arg, &raw) {
            Ok(o) => o,
            Err(e) => {
                return Err(e);
            },
        };
        Ok((out, needs_string_dup(fld, arg)))
    }

    /// Validates the argument counts of a call and coerces every supplied
    /// argument buffer into the callee's native representation. The embedder
    /// invokes the callee with the returned buffers; the flags mark the
    /// arguments whose stored pointer owes a string duplication. On any
    /// mismatch the callee is not to be invoked.
    pub fn call_prepare(&self, func: &FuncHandle, args: &Vec<Vec<u8>>) -> (r: Result<
        (Vec<Vec<u8>>, Vec<bool>),
        Error,
    >)
        requires
            adapter_wf(*self),
            handle_wf(*func),
            (adapter_args(*self).len() == desc_args(func.desc).len() && args@.len()
                == adapter_args(*self).len()) ==> forall|i: int|
                0 <= i < args@.len() ==> (#[trigger] args@[i])@.len() == cast_src_size(
                    adapter_args(*self)[i],
                    desc_args(func.desc)[i],
                ),
        ensures
            match r {
                Ok((bufs, dups)) => {
                    &&& adapter_args(*self).len() == desc_args(func.desc).len()
                    &&& args@.len() == adapter_args(*self).len()
                    &&& bufs@.len() == args@.len()
                    &&& dups@.len() == args@.len()
                    &&& forall|i: int|
                        0 <= i < args@.len() ==> cast_ok(
                            #[trigger] adapter_args(*self)[i],
                            desc_args(func.desc)[i],
                        )
                    &&& forall|i: int|
                        0 <= i < args@.len() ==> (#[trigger] bufs@[i])@
                            == cast_bytes_spec(
                            adapter_args(*self)[i],
                            desc_args(func.desc)[i],
                            args@[i]@,
                        ) && bufs@[i]@.len() == ty_size(desc_args(func.desc)[i])
                    &&& forall|i: int|
                        0 <= i < args@.len() ==> #[trigger] dups@[i] == needs_dup(
                            adapter_args(*self)[i],
                            desc_args(func.desc)[i],
                        )
                },
                Err(e) => {
                    if !(adapter_args(*self).len() == desc_args(func.desc).len()
                        && args@.len() == adapter_args(*self).len()) {
                        e matches Error::InvalidArguments(m) && m matches Some(s) && s@
                            == call_count_msg_text(*self, *func, args@.len() as int)
                    } else {
                        exists|i: int|
                            {
                                &&& 0 <= i < args@.len()
                                &&& !cast_ok(
                                    #[trigger] adapter_args(*self)[i],
                                    desc_args(func.desc)[i],
                                )
                                &&& forall|j: int|
                                    0 <= j < i ==> cast_ok(
                                        #[trigger] adapter_args(*self)[j],
                                        desc_args(func.desc)[j],
                                    )
                                &&& e matches Error::InvalidCast(m) && m matches Some(
                                    s,
                                ) && s@ == crate::coerce::cast_msg_text(
                                    adapter_args(*self)[i],
                                    desc_args(func.desc)[i],
                                )
                            }
                    }
                },
            },
    {
        match self.check_arguments(func, args.len()) {
            Ok(_) => {},
            Err(e) => {
                return Err(e);
            },
        }
        let n = args.len();
        let mut bufs: Vec<Vec<u8>> = Vec::new();
        let mut dups: Vec<bool> = Vec::new();
        let mut i: usize = 0;
        while i < n
            invariant
                n == args@.len(),
                adapter_wf(*self),
                handle_wf(*func),
                adapter_args(*self).len() == n,
                desc_args(func.desc).len() == n,
                forall|k: int|
                    0 <= k < n ==> (#[trigger] args@[k])@.len() == cast_src_size(
                        adapter_args(*self)[k],
                        desc_args(func.desc)[k],
                    ),
                i <= n,
                bufs@.len() == i,
                dups@.len() == i,
                forall|k: int|
                    0 <= k < i ==> cast_ok(
                        #[trigger] adapter_args(*self)[k],
                        desc_args(func.desc)[k],
                    ),
                forall|k: int|
                    0 <= k < i ==> (#[trigger] bufs@[k])@ == cast_bytes_spec(
                        adapter_args(*self)[k],
                        desc_args(func.desc)[k],
                        args@[k]@,
                    ) && bufs@[k]@.len() == ty_size(desc_args(func.desc)[k]),
                forall|k: int|
                    0 <= k < i ==> #[trigger] dups@[k] == needs_dup(
                        adapter_args(*self)[k],
                        desc_args(func.desc)[k],
                    ),
            decreases n - i,
        {
            let arg = &self.target.argument_types[i];
            let fty = &func.desc.argument_types[i];
            proof {
                assert(adapter_args(*self)[i as int] == arg@);
                assert(desc_args(func.desc)[i as int] == fty@);
                assert(!crate::grammar::ty_has_auto(fty@));
            }
            let out = match cast_bytes(arg, fty, &args[i]) {
                Ok(o) => o,
                Err(e) => {
                    return Err(e);
                },
            };
            bufs.push(out);
            dups.push(crate::coerce::needs_string_dup(arg, fty));
            i = i + 1;
        }
        Ok((bufs, dups))
    }

    /// Coerces the callee's returned bytes back into the adapter's declared
    /// return representation.
    pub fn call_complete(&self, func: &FuncHandle, ret: &Vec<u8>) -> (r: Result<
        Vec<u8>,
        Error,
    >)
        requires
            adapter_wf(*self),
            handle_wf(*func),
            ret@.len() == cast_src_size(desc_ret(func.desc), adapter_ret(*self)),
        ensures
            r is Ok <==> cast_ok(desc_ret(func.desc), adapter_ret(*self)),
            r matches Ok(out) ==> out@ == cast_bytes_spec(
                desc_ret(func.desc),
                adapter_ret(*self),
                ret@,
            ),
            r matches Err(e) ==> (e matches Error::InvalidCast(m) && m matches Some(s)
                && s@ == crate::coerce::cast_msg_text(
                desc_ret(func.desc),
                adapter_ret(*self),
            )),
    {
        cast_bytes(&func.desc.return_type, &self.target.return_type, ret)
    }
}

} // verus!
