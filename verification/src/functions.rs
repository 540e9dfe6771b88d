//! The function table: name → user-defined function, populated when a
//! definition block closes; redefinition replaces the entry.

use vstd::prelude::*;
use crate::pipeline::{Pipeline, PipelineView};
use crate::strutil::{str_eq, copy_string, copy_strings, copy_pipelines};

verus! {

/// A user-defined function: created once, when its defining block closes.
pub struct Function {
    pub name: String,
    pub params: Vec<String>,
    pub body: Vec<Pipeline>,
}

/// Mathematical value of a `Function`.
#[verifier::ext_equal]
pub struct FunctionView {
    pub name: Seq<char>,
    pub params: Seq<Seq<char>>,
    pub body: Seq<PipelineView>,
}

impl View for Function {
    type V = FunctionView;

    open spec fn view(&self) -> FunctionView {
        FunctionView {
            name: self.name@,
            params: self.params.deep_view(),
            body: self.body.deep_view(),
        }
    }
}

impl FunctionView {
    /// A function the engine can call: every body pipeline is dispatchable.
    pub open spec fn wf(self) -> bool {
        forall|i: int| 0 <= i < self.body.len() ==> #[trigger] self.body[i].wf()
    }
}

/// The newest definition of `k` in `s`, if any: a later definition replaces
/// an earlier one of the same name.
pub open spec fn table_get(s: Seq<Function>, k: Seq<char>) -> Option<FunctionView>
    decreases s.len(),
{
    if s.len() == 0 {
        None
    } else if s.last().name@ == k {
        Some(s.last()@)
    } else {
        table_get(s.drop_last(), k)
    }
}

/// The table of user-defined functions.
pub struct Functions {
    entries: Vec<Function>,
}

impl Functions {
    /// The current definition of `k`, if any.
    pub closed spec fn spec_get(self, k: Seq<char>) -> Option<FunctionView> {
        table_get(self.entries@, k)
    }

    /// Every stored function is dispatchable.
    pub closed spec fn wf(self) -> bool {
        forall|i: int| 0 <= i < self.entries@.len() ==> (#[trigger] self.entries@[i]@).wf()
    }

    /// An empty table: nothing is defined.
    pub fn new() -> (r: Functions)
        ensures
            r.wf(),
            forall|k: Seq<char>| #[trigger] r.spec_get(k) is None,
    {
        Functions { entries: Vec::new() }
    }

    /// Define `f`, replacing any earlier definition of the same name; every
    /// other name keeps its definition.
    pub fn define(&mut self, f: Function)
        requires
            old(self).wf(),
            f@.wf(),
        ensures
            final(self).wf(),
            final(self).spec_get(f@.name) == Some(f@),
            forall|k: Seq<char>| k != f@.name ==> #[trigger] final(self).spec_get(k) == old(
                self,
            ).spec_get(k),
    {
        self.entries.push(f);
        proof {
            assert(self.entries@.drop_last() =~= old(self).entries@);
        }
    }

    /// A copy of the current definition of `name`, or `None` when it has
    /// none.
    pub fn get(&self, name: &str) -> (r: Option<Function>)
        requires
            self.wf(),
        ensures
            match r {
                Some(f) => self.spec_get(name@) == Some(f@) && f@.wf(),
                None => self.spec_get(name@) is None,
            },
    {
        let mut i: usize = self.entries.len();
        proof {
            assert(self.entries@.take(i as int) =~= self.entries@);
        }
        while i > 0
            invariant
                self.wf(),
                i <= self.entries@.len(),
                table_get(self.entries@.take(i as int), name@) == self.spec_get(name@),
            decreases i,
        {
            i = i - 1;
            if str_eq(self.entries[i].name.as_str(), name) {
                proof {
                    assert(self.entries@.take(i as int + 1).last() == self.entries@[i as int]);
                }
                let e = &self.entries[i];
                let f = Function {
                    name: copy_string(e.name.as_str()),
                    params: copy_strings(&e.params),
                    body: copy_pipelines(&e.body),
                };
                proof {
                    assert(f@ =~~= self.entries@[i as int]@);
                    assert((self.entries@[i as int]@).wf());
                }
                return Some(f);
            }
            proof {
                assert(self.entries@.take(i as int + 1).drop_last() =~= self.entries@.take(
                    i as int,
                ));
            }
        }
        None
    }
}

} // verus!
