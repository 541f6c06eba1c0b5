//! Packed aggregate types: an ordered field list with computed byte offsets
//! and a total size, and a bounds-checked byte buffer for aggregate values.

use vstd::pervasive::VecAdditionalExecFns;
use vstd::prelude::*;

use crate::error::Error;
use crate::grammar::{
    field_offset, fields_size, lemma_fields_size_take, lemma_ty_size_nonneg, ty_size, Ty,
};
use crate::interface::{ty_wf, tys_of, FuncType};

verus! {

/// A packed C-style aggregate: each field at the byte offset equal to the sum
/// of the sizes of the fields before it, no alignment padding, and the total
/// size equal to the sum of all field sizes.
#[derive(Debug)]
pub struct StructType {
    pub fields: Vec<(FuncType, u32)>,
    pub total: u32,
}

/// The ordered field types of `fs`, as abstract type trees.
pub open spec fn fields_view(fs: Seq<(FuncType, u32)>) -> Seq<Ty>
    decreases fs,
{
    if fs.len() == 0 {
        Seq::empty()
    } else {
        fields_view(fs.drop_last()).push(crate::interface::ty_view(fs.last().0))
    }
}

pub proof fn lemma_fields_view(fs: Seq<(FuncType, u32)>)
    ensures
        fields_view(fs).len() == fs.len(),
        forall|i: int| 0 <= i < fs.len() ==> fields_view(fs)[i] == #[trigger] fs[i].0@,
    decreases fs,
{
    if fs.len() > 0 {
        lemma_fields_view(fs.drop_last());
        assert forall|i: int| 0 <= i < fs.len() implies fields_view(fs)[i] == #[trigger] fs[i].0@ by {
            if i < fs.len() - 1 {
                assert(fs.drop_last()[i] == fs[i]);
            }
        }
    }
}

impl View for StructType {
    type V = Seq<Ty>;

    open spec fn view(&self) -> Seq<Ty> {
        fields_view(self.fields@)
    }
}

/// Well-formedness of an aggregate: every field type well formed, each stored
/// offset the packed offset of its field, and the stored total the packed sum
/// of the field sizes.
pub open spec fn st_wf(st: StructType) -> bool
    decreases st,
{
    &&& forall|i: int| 0 <= i < st.fields@.len() ==> ty_wf(#[trigger] st.fields@[i].0)
    &&& forall|i: int|
        0 <= i < st.fields@.len() ==> (#[trigger] st.fields@[i].1) as int == field_offset(
            st@,
            i,
        )
    &&& st.total as int == fields_size(st@)
}

impl StructType {
    /// Builds the packed layout of an ordered field list: offsets accumulate
    /// the sizes of the preceding fields and the total is the sum of all of
    /// them.
    pub fn new(fields: Vec<FuncType>) -> (r: StructType)
        requires
            forall|i: int| 0 <= i < fields@.len() ==> ty_wf(#[trigger] fields@[i]),
            fields_size(tys_of(fields@)) <= u32::MAX,
        ensures
            st_wf(r),
            r@ == tys_of(fields@),
    {
        let ghost tys = tys_of(fields@);
        let mut fields = fields;
        let mut out: Vec<(FuncType, u32)> = Vec::new();
        let mut offset: u32 = 0;
        let ghost n = fields@.len() as int;
        proof {
            assert(tys.take(0) =~= Seq::<Ty>::empty());
        }
        while out.len() < fields.len()
            invariant
                fields@.len() == n,
                tys.len() == n,
                forall|i: int| 0 <= i < n ==> ty_wf(#[trigger] fields@[i]),
                forall|i: int| 0 <= i < n ==> tys[i] == #[trigger] fields@[i]@,
                fields_size(tys) <= u32::MAX,
                out@.len() <= n,
                fields_view(out@) == tys.take(out@.len() as int),
                forall|i: int| 0 <= i < out@.len() ==> ty_wf(#[trigger] out@[i].0),
                forall|i: int|
                    0 <= i < out@.len() ==> (#[trigger] out@[i].1) as int == field_offset(
                        tys,
                        i,
                    ),
                offset as int == fields_size(tys.take(out@.len() as int)),
            decreases n - out@.len(),
        {
            let i = out.len();
            let ghost prev = out@.len() as int;
            let ghost out0 = out@;
            let field = fields[i].clone();
            proof {
                assert(field@ == tys[prev]);
                lemma_fields_size_take(tys, prev);
                lemma_fields_size_take(tys, prev + 1);
                lemma_ty_size_nonneg(tys[prev]);
            }
            let size = field.size();
            out.push((field, offset));
            offset = offset + size;
            proof {
                assert(out@.drop_last() =~= out0);
                assert(out@.last().0@ == tys[prev]);
                assert(fields_view(out@) == fields_view(out0).push(tys[prev]));
                assert(tys.take(prev + 1) =~= tys.take(prev).push(tys[prev]));
                assert(fields_view(out@) == tys.take(prev + 1));
                assert(out@[prev].1 as int == fields_size(tys.take(prev)));
                assert forall|j: int| 0 <= j < out@.len() implies (#[trigger] out@[j].1)
                    as int == field_offset(tys, j) by {
                    if j < prev {
                        assert(out@[j] == out0[j]);
                    }
                }
            }
        }
        proof {
            assert(tys.take(n) =~= tys);
            assert(fields_view(out@) == tys);
            lemma_fields_view(out@);
        }
        StructType { fields: out, total: offset }
    }

    /// The ordered (field type, byte offset) pairs of the aggregate.
    pub fn fields(&self) -> (r: &Vec<(FuncType, u32)>)
        ensures
            r == &self.fields,
    {
        &self.fields
    }

    /// The number of fields.
    pub fn field_count(&self) -> (r: usize)
        ensures
            r == self@.len(),
    {
        proof {
            lemma_fields_view(self.fields@);
        }
        self.fields.len()
    }

    /// The packed total byte size of the aggregate.
    pub fn size(&self) -> (r: u32)
        requires
            st_wf(*self),
        ensures
            r as int == fields_size(self@),
    {
        self.total
    }
}

impl StructType {
    /// A zero-initialized value buffer sized for this aggregate.
    pub fn calloc(&self) -> (r: Vec<u8>)
        requires
            st_wf(*self),
        ensures
            r@.len() == fields_size(self@),
            forall|j: int| 0 <= j < r@.len() ==> r@[j] == 0,
    {
        let n = self.size() as usize;
        let mut out: Vec<u8> = Vec::new();
        let mut i: usize = 0;
        while i < n
            invariant
                i <= n,
                out@.len() == i,
                forall|j: int| 0 <= j < i ==> out@[j] == 0,
            decreases n - i,
        {
            out.push(0);
            i = i + 1;
        }
        out
    }

    /// A value buffer sized for this aggregate; the contents are
    /// unspecified, as with an uninitialized native allocation.
    pub fn malloc(&self) -> (r: Vec<u8>)
        requires
            st_wf(*self),
        ensures
            r@.len() == fields_size(self@),
    {
        self.calloc()
    }

    /// Writes the value bytes `avalue` into field `index` of the aggregate
    /// buffer `structure`; the bytes outside the field keep their values.
    /// Callers must have validated the index against the field count.
    pub fn set_raw(&self, structure: &mut Vec<u8>, index: usize, avalue: &Vec<u8>)
        requires
            st_wf(*self),
            old(structure)@.len() == fields_size(self@),
            index < self@.len(),
            avalue@.len() == ty_size(self@[index as int]),
        ensures
            final(structure)@.len() == old(structure)@.len(),
            forall|j: int|
                0 <= j < final(structure)@.len() ==> final(structure)@[j]
                    == if field_offset(self@, index as int) <= j < field_offset(
                    self@,
                    index as int,
                ) + ty_size(self@[index as int]) {
                    avalue@[j - field_offset(self@, index as int)]
                } else {
                    old(structure)@[j]
                },
    {
        proof {
            lemma_fields_view(self.fields@);
            lemma_fields_size_take(self@, index as int);
            lemma_fields_size_take(self@, index + 1);
        }
        let off = self.fields[index].1 as usize;
        let n = avalue.len();
        let blen = structure.len();
        let mut j: usize = 0;
        while j < n
            invariant
                j <= n,
                n == avalue@.len(),
                blen == structure@.len(),
                off + n <= structure@.len(),
                structure@.len() == old(structure)@.len(),
                forall|x: int|
                    0 <= x < structure@.len() ==> structure@[x] == if off <= x < off + j {
                        avalue@[x - off]
                    } else {
                        old(structure)@[x]
                    },
            decreases n - j,
        {
            structure.set(off + j, avalue[j]);
            j = j + 1;
        }
    }

    /// Reads the value bytes of field `index` out of the aggregate buffer
    /// `structure`. Callers must have validated the index against the field
    /// count.
    pub fn get_raw(&self, structure: &Vec<u8>, index: usize) -> (r: Vec<u8>)
        requires
            st_wf(*self),
            structure@.len() == fields_size(self@),
            index < self@.len(),
        ensures
            r@ == structure@.subrange(
                field_offset(self@, index as int),
                field_offset(self@, index as int) + ty_size(self@[index as int]),
            ),
    {
        proof {
            lemma_fields_view(self.fields@);
            lemma_fields_size_take(self@, index as int);
            lemma_fields_size_take(self@, index + 1);
            crate::grammar::lemma_ty_size_nonneg(self@[index as int]);
        }
        let off = self.fields[index].1 as usize;
        let n = self.fields[index].0.size() as usize;
        let blen = structure.len();
        let mut out: Vec<u8> = Vec::new();
        let mut j: usize = 0;
        while j < n
            invariant
                j <= n,
                blen == structure@.len(),
                off + n <= structure@.len(),
                out@.len() == j,
                forall|x: int| 0 <= x < j ==> out@[x] == structure@[off + x],
            decreases n - j,
        {
            out.push(structure[off + j]);
            j = j + 1;
        }
        proof {
            assert(out@ =~= structure@.subrange(off as int, off + n));
        }
        out
    }
}

impl Clone for StructType {
    /// A deep copy: the same type tree, offsets and total.
    fn clone(&self) -> (r: Self)
        ensures
            r@ == self@,
            st_wf(*self) ==> st_wf(r),
        decreases *self,
    {
        let mut fields: Vec<(FuncType, u32)> = Vec::new();
        let n = self.fields.len();
        let mut i: usize = 0;
        while i < n
            invariant
                n == self.fields@.len(),
                i <= n,
                fields@.len() == i,
                forall|j: int| 0 <= j < i ==> #[trigger] fields@[j].0@ == self.fields@[j].0@,
                forall|j: int| 0 <= j < i ==> #[trigger] fields@[j].1 == self.fields@[j].1,
                forall|j: int|
                    0 <= j < i ==> (ty_wf(self.fields@[j].0) ==> ty_wf(
                        #[trigger] fields@[j].0,
                    )),
            decreases n - i,
        {
            let (t, off) = (self.fields[i].0.clone(), self.fields[i].1);
            fields.push((t, off));
            i = i + 1;
        }
        proof {
            lemma_fields_view_congruence(fields@, self.fields@);
            if st_wf(*self) {
                lemma_fields_view(fields@);
                lemma_fields_view(self.fields@);
                let r = StructType { fields: fields, total: self.total };
                assert(r@ == self@);
                assert forall|j: int| 0 <= j < r.fields@.len() implies (
                #[trigger] r.fields@[j].1) as int == field_offset(r@, j) by {
                    assert(r.fields@[j].1 == self.fields@[j].1);
                }
            }
        }
        StructType { fields, total: self.total }
    }
}

/// Field lists with pairwise equal views have equal views.
pub proof fn lemma_fields_view_congruence(
    a: Seq<(FuncType, u32)>,
    b: Seq<(FuncType, u32)>,
)
    requires
        a.len() == b.len(),
        forall|i: int| 0 <= i < a.len() ==> #[trigger] a[i].0@ == b[i].0@,
    ensures
        fields_view(a) == fields_view(b),
    decreases a,
{
    if a.len() > 0 {
        assert forall|i: int|
            0 <= i < a.drop_last().len() implies #[trigger] a.drop_last()[i].0@
            == b.drop_last()[i].0@ by {
            assert(a[i].0@ == b[i].0@);
        }
        lemma_fields_view_congruence(a.drop_last(), b.drop_last());
        assert(a.last().0@ == b.last().0@) by {
            assert(a[a.len() - 1].0@ == b[a.len() - 1].0@);
        }
        assert(fields_view(a) =~= fields_view(b));
    } else {
        assert(fields_view(a) =~= fields_view(b));
    }
}


/// Structural equality of aggregates: equal stored totals, and pairwise
/// structurally equal field types.
pub open spec fn st_eq(a: StructType, b: StructType) -> bool
    decreases a,
{
    &&& a.total == b.total
    &&& a.fields@.len() == b.fields@.len()
    &&& forall|i: int|
        0 <= i < a.fields@.len() ==> crate::interface::ty_eq(
            (#[trigger] a.fields@[i]).0,
            b.fields@[i].0,
        )
}

/// `st_eq`, executably.
#[verifier::loop_isolation(false)]
pub(crate) fn st_eq_exec(a: &StructType, b: &StructType) -> (r: bool)
    ensures
        r == st_eq(*a, *b),
    decreases *a,
{
    if a.total != b.total {
        return false;
    }
    let n = a.fields.len();
    if n != b.fields.len() {
        return false;
    }
    let mut i: usize = 0;
    while i < n
        invariant
            i <= n,
            forall|j: int|
                0 <= j < i ==> crate::interface::ty_eq(
                    (#[trigger] a.fields@[j]).0,
                    b.fields@[j].0,
                ),
        decreases n - i,
    {
        if !(crate::interface::ty_eq_exec(&a.fields[i].0, &b.fields[i].0)) {
            return false;
        }
        i = i + 1;
    }
    true
}

impl PartialEq for StructType {
    fn eq(&self, other: &StructType) -> (r: bool)
        ensures
            r == st_eq(*self, *other),
    {
        st_eq_exec(self, other)
    }
}

impl vstd::std_specs::cmp::PartialEqSpecImpl for StructType {
    open spec fn obeys_eq_spec() -> bool {
        true
    }

    open spec fn eq_spec(&self, other: &StructType) -> bool {
        st_eq(*self, *other)
    }
}


/// Layout determinism: the packed layout is a function of the field types
/// alone. Two well-formed aggregates over the same type trees carry the
/// same offsets and the same total size.
pub proof fn lemma_layout_determined(a: StructType, b: StructType)
    requires
        st_wf(a),
        st_wf(b),
        a@ == b@,
    ensures
        a.total == b.total,
        a.fields@.len() == b.fields@.len(),
        forall|i: int|
            0 <= i < a.fields@.len() ==> (#[trigger] a.fields@[i]).1 == b.fields@[i].1,
{
    lemma_fields_view(a.fields@);
    lemma_fields_view(b.fields@);
}

} // verus!
