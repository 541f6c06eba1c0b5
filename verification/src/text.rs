//! The canonical text of a type, a field list, and a function descriptor:
//! the exact spelling of the grammar, so that formatting and re-parsing a
//! descriptor yields the same type tree.

use vstd::prelude::*;
use vstd::string::{StrSliceExecFns, StringExecFns};

use crate::grammar::{desc_text, lemma_list_text_take, list_text, ty_text, Ty};
use crate::interface::{tys_of, FuncDesc, FuncType};
use crate::structure::{lemma_fields_view, StructType};

verus! {

impl FuncType {
    /// The canonical descriptor spelling of this type.
    pub fn text(&self) -> (r: String)
        ensures
            r@ == ty_text(self@),
        decreases *self,
    {
        match self {
            FuncType::Auto => "auto".to_owned(),
            FuncType::Void => "void".to_owned(),
            FuncType::Int => "int".to_owned(),
            FuncType::Float => "float".to_owned(),
            FuncType::Double => "double".to_owned(),
            FuncType::LongDouble => "longdouble".to_owned(),
            FuncType::ISize => "isize".to_owned(),
            FuncType::USize => "usize".to_owned(),
            FuncType::S8 => "i8".to_owned(),
            FuncType::S16 => "i16".to_owned(),
            FuncType::S32 => "i32".to_owned(),
            FuncType::S64 => "i64".to_owned(),
            FuncType::U8 => "u8".to_owned(),
            FuncType::U16 => "u16".to_owned(),
            FuncType::U32 => "u32".to_owned(),
            FuncType::U64 => "u64".to_owned(),
            FuncType::F32 => "f32".to_owned(),
            FuncType::F64 => "f64".to_owned(),
            FuncType::F128 => "f128".to_owned(),
            FuncType::Pointer => "*".to_owned(),
            FuncType::RefStringPtr => "&str".to_owned(),
            FuncType::BorrowStringPtr => "*str".to_owned(),
            FuncType::RefArrayPtr => "&[]".to_owned(),
            FuncType::BorrowArrayPtr => "*[]".to_owned(),
            FuncType::Struct(st) => st.text(),
        }
    }
}

impl StructType {
    /// The canonical descriptor spelling of this aggregate:
    /// `[` comma-separated fields `]`.
    pub fn text(&self) -> (r: String)
        ensures
            r@ == seq!['['] + list_text(self@) + seq![']'],
        decreases *self,
    {
        proof {
            lemma_fields_view(self.fields@);
        }
        let ghost vs = self@;
        let mut out = "[".to_owned();
        proof {
            reveal_strlit("[");
            assert("["@ =~= seq!['[']);
            assert(vs.take(0) =~= Seq::<Ty>::empty());
            assert(out@ =~= seq!['['] + list_text(vs.take(0)));
        }
        let n = self.fields.len();
        let mut i: usize = 0;
        while i < n
            invariant
                n == self.fields@.len(),
                vs == self@,
                vs.len() == n,
                forall|j: int| 0 <= j < n ==> vs[j] == #[trigger] self.fields@[j].0@,
                i <= n,
                out@ == seq!['['] + list_text(vs.take(i as int)),
            decreases n - i,
        {
            if i > 0 {
                out.append(",");
                proof {
                    reveal_strlit(",");
                    assert(","@ =~= seq![',']);
                }
            }
            let ft = self.fields[i].0.text();
            out.append(ft.as_str());
            proof {
                lemma_list_text_take(vs, i as int);
                if i == 0 {
                    assert(out@ =~= seq!['['] + list_text(vs.take(1)));
                } else {
                    assert(out@ =~= seq!['['] + (list_text(vs.take(i as int))
                        + seq![','] + ty_text(vs[i as int])));
                    assert(out@ =~= seq!['['] + list_text(vs.take(i + 1)));
                }
            }
            i = i + 1;
        }
        out.append("]");
        proof {
            reveal_strlit("]");
            assert("]"@ =~= seq![']']);
            assert(vs.take(n as int) =~= vs);
            assert(out@ =~= seq!['['] + list_text(vs) + seq![']']);
        }
        out
    }
}

impl FuncDesc {
    /// The canonical descriptor spelling of this signature:
    /// `(` comma-separated argument types `)` return type.
    pub fn text(&self) -> (r: String)
        ensures
            r@ == desc_text(
                crate::interface::desc_args(*self),
                crate::interface::desc_ret(*self),
            ),
    {
        let ghost vs = crate::interface::desc_args(*self);
        let mut out = "(".to_owned();
        proof {
            reveal_strlit("(");
            assert("("@ =~= seq!['(']);
            assert(vs.take(0) =~= Seq::<Ty>::empty());
            assert(out@ =~= seq!['('] + list_text(vs.take(0)));
        }
        let n = self.argument_types.len();
        let mut i: usize = 0;
        while i < n
            invariant
                n == self.argument_types@.len(),
                vs == crate::interface::desc_args(*self),
                vs.len() == n,
                i <= n,
                out@ == seq!['('] + list_text(vs.take(i as int)),
            decreases n - i,
        {
            if i > 0 {
                out.append(",");
                proof {
                    reveal_strlit(",");
                    assert(","@ =~= seq![',']);
                }
            }
            let ft = self.argument_types[i].text();
            out.append(ft.as_str());
            proof {
                assert(vs[i as int] == self.argument_types@[i as int]@);
                lemma_list_text_take(vs, i as int);
                if i == 0 {
                    assert(out@ =~= seq!['('] + list_text(vs.take(1)));
                } else {
                    assert(out@ =~= seq!['('] + (list_text(vs.take(i as int))
                        + seq![','] + ty_text(vs[i as int])));
                    assert(out@ =~= seq!['('] + list_text(vs.take(i + 1)));
                }
            }
            i = i + 1;
        }
        out.append(")");
        let rt = self.return_type.text();
        out.append(rt.as_str());
        proof {
            reveal_strlit(")");
            assert(")"@ =~= seq![')']);
            assert(vs.take(n as int) =~= vs);
            assert(out@ =~= seq!['('] + list_text(vs) + seq![')'] + ty_text(
                self.return_type@,
            ));
        }
        out
    }
}

} // verus!
