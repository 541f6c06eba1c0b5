//! A loaded native library image and its symbol cache: an opened image
//! handle together with the validated function handles already resolved
//! from it, keyed by symbol name. On duplicate names the first registration
//! wins, whatever descriptor a later request carries.

use vstd::prelude::*;
use vstd::string::StrSliceExecFns;

use crate::error::Error;
use crate::interface::{handle_wf, FuncHandle};
use crate::parse::seg_eq;

verus! {

/// An opened native library image (an opaque handle the platform loader
/// produced) and the cache of resolved function handles.
pub struct LibHandle {
    pub handle: usize,
    pub functions: Vec<(String, FuncHandle)>,
}

/// The position of the first cache entry named `name`, if any.
pub open spec fn cache_find(s: Seq<(String, FuncHandle)>, name: Seq<char>) -> Option<
    int,
>
    decreases s.len(),
{
    if s.len() == 0 {
        None
    } else if s[0].0@ == name {
        Some(0)
    } else {
        match cache_find(s.skip(1), name) {
            Some(i) => Some(i + 1),
            None => None,
        }
    }
}

pub proof fn lemma_cache_find(s: Seq<(String, FuncHandle)>, name: Seq<char>)
    ensures
        match cache_find(s, name) {
            Some(i) => 0 <= i < s.len() && s[i].0@ == name && forall|j: int|
                0 <= j < i ==> s[j].0@ != name,
            None => forall|j: int| 0 <= j < s.len() ==> s[j].0@ != name,
        },
    decreases s.len(),
{
    if s.len() > 0 && s[0].0@ != name {
        lemma_cache_find(s.skip(1), name);
        match cache_find(s.skip(1), name) {
            Some(i) => {
                assert(s.skip(1)[i] == s[i + 1]);
                assert forall|j: int| 0 <= j < i + 1 implies s[j].0@ != name by {
                    if j >= 1 {
                        assert(s.skip(1)[j - 1] == s[j]);
                    }
                }
            },
            None => {
                assert forall|j: int| 0 <= j < s.len() implies s[j].0@ != name by {
                    if j >= 1 {
                        assert(s.skip(1)[j - 1] == s[j]);
                    }
                }
            },
        }
    }
}

/// Well-formedness of the cache: every cached handle is well formed.
pub open spec fn lib_wf(l: LibHandle) -> bool {
    forall|i: int| 0 <= i < l.functions@.len() ==> handle_wf(#[trigger] l.functions@[i].1)
}

impl LibHandle {
    /// Wraps an opened native image handle with an empty symbol cache.
    pub fn new(handle: usize) -> (r: LibHandle)
        ensures
            r.handle == handle,
            r.functions@.len() == 0,
            lib_wf(r),
    {
        LibHandle { handle, functions: Vec::new() }
    }

    /// The opened native image handle, for the platform loader.
    pub fn as_raw(&self) -> (r: usize)
        ensures
            r == self.handle,
    {
        self.handle
    }

    /// The position of the first cached function registered under `name`.
    pub fn find_function(&self, name: &str) -> (r: Option<usize>)
        ensures
            match r {
                Some(i) => cache_find(self.functions@, name@) == Some(i as int),
                None => cache_find(self.functions@, name@) is None,
            },
    {
        proof {
            lemma_cache_find(self.functions@, name@);
        }
        let n = self.functions.len();
        let mut i: usize = 0;
        while i < n
            invariant
                n == self.functions@.len(),
                i <= n,
                forall|j: int| 0 <= j < i ==> (#[trigger] self.functions@[j]).0@ != name@,
            decreases n - i,
        {
            let entry_name: &String = &self.functions[i].0;
            let ln = entry_name.as_str().unicode_len();
            if seg_eq(entry_name.as_str(), 0, ln, name) {
                proof {
                    assert(entry_name@.subrange(0, entry_name@.len() as int)
                        =~= entry_name@);
                    lemma_cache_find(self.functions@, name@);
                }
                return Some(i);
            }
            proof {
                assert(entry_name@.subrange(0, entry_name@.len() as int) =~= entry_name@);
            }
            i = i + 1;
        }
        None
    }

    /// The cached function handle at `i`.
    pub fn function_at(&self, i: usize) -> (r: &FuncHandle)
        requires
            i < self.functions@.len(),
        ensures
            r == &self.functions@[i as int].1,
    {
        &self.functions[i].1
    }

    /// Appends a resolved handle under `name`; the cache keeps registration
    /// order, so an earlier entry with the same name still wins lookups.
    pub fn register(&mut self, name: &str, func: FuncHandle) -> (r: usize)
        requires
            handle_wf(func),
            lib_wf(*old(self)),
        ensures
            final(self).handle == old(self).handle,
            final(self).functions@.len() == old(self).functions@.len() + 1,
            final(self).functions@[r as int].0@ == name@,
            final(self).functions@[r as int].1 == func,
            r == old(self).functions@.len(),
            forall|j: int|
                0 <= j < old(self).functions@.len() ==> final(self).functions@[j]
                    == #[trigger] old(self).functions@[j],
            lib_wf(*final(self)),
    {
        let i = self.functions.len();
        self.functions.push((name.to_owned(), func));
        i
    }

    /// The cached handle registered under `name`, or a fresh one validated
    /// from `desc` against the resolved code address `symbol`. A cached
    /// handle is returned as it was first registered, whatever `desc` says
    /// now.
    pub fn func(&mut self, name: &str, desc: &str, symbol: usize) -> (r: Result<
        usize,
        Error,
    >)
        requires
            lib_wf(*old(self)),
        ensures
            final(self).handle == old(self).handle,
            lib_wf(*final(self)),
            match r {
                Ok(i) => {
                    &&& 0 <= i < final(self).functions@.len()
                    &&& final(self).functions@[i as int].0@ == name@
                    &&& match cache_find(old(self).functions@, name@) {
                        Some(j) => i == j && final(self).functions@
                            == old(self).functions@,
                        None => {
                            &&& i as int == old(self).functions@.len()
                            &&& final(self).functions@.len() == old(
                                self,
                            ).functions@.len() + 1
                            &&& forall|j: int|
                                0 <= j < old(self).functions@.len()
                                    ==> final(self).functions@[j] == #[trigger] old(
                                    self,
                                ).functions@[j]
                            &&& crate::grammar::parse_desc(desc@) == Some(
                                (
                                    crate::interface::desc_args(
                                        final(self).functions@[i as int].1.desc,
                                    ),
                                    crate::interface::desc_ret(
                                        final(self).functions@[i as int].1.desc,
                                    ),
                                ),
                            )
                            &&& final(self).functions@[i as int].1.symbol == symbol
                        },
                    }
                },
                Err(e) => {
                    &&& final(self).functions@ == old(self).functions@
                    &&& cache_find(old(self).functions@, name@) is None
                    &&& (e matches Error::InvalidDescriptor(m) && m is Some)
                },
            },
    {
        if let Some(i) = self.find_function(name) {
            proof {
                lemma_cache_find(self.functions@, name@);
            }
            return Ok(i);
        }
        let func = match FuncHandle::new(symbol, desc) {
            Ok(f) => f,
            Err(e) => {
                return Err(e);
            },
        };
        let i = self.register(name, func);
        Ok(i)
    }
}

} // verus!
