//! The variable store: name → string bindings, read and written by the
//! engine through `get_var` / `set_var` / `unset_var`.

use vstd::prelude::*;
use crate::strutil::{str_eq, copy_string};

verus! {

/// One name → value binding.
pub struct Binding {
    pub name: String,
    pub value: String,
}

/// Value of the newest binding of `k` in `s`, if any: later bindings of a
/// name shadow earlier ones.
pub open spec fn assoc_get(s: Seq<Binding>, k: Seq<char>) -> Option<Seq<char>>
    decreases s.len(),
{
    if s.len() == 0 {
        None
    } else if s.last().name@ == k {
        Some(s.last().value@)
    } else {
        assoc_get(s.drop_last(), k)
    }
}

/// The store of shell variables.
pub struct Variables {
    entries: Vec<Binding>,
}

impl Variables {
    /// The value bound to `k`, if any.
    pub closed spec fn spec_get(self, k: Seq<char>) -> Option<Seq<char>> {
        assoc_get(self.entries@, k)
    }

    /// An empty store: nothing is bound.
    pub fn new() -> (r: Variables)
        ensures
            forall|k: Seq<char>| #[trigger] r.spec_get(k) is None,
    {
        Variables { entries: Vec::new() }
    }

    /// The current value of `name`, or `None` when it is unbound.
    pub fn get_var(&self, name: &str) -> (r: Option<String>)
        ensures
            match r {
                Some(v) => self.spec_get(name@) == Some(v@),
                None => self.spec_get(name@) is None,
            },
    {
        let mut i: usize = self.entries.len();
        proof {
            assert(self.entries@.take(i as int) =~= self.entries@);
        }
        while i > 0
            invariant
                i <= self.entries@.len(),
                assoc_get(self.entries@.take(i as int), name@) == self.spec_get(name@),
            decreases i,
        {
            i = i - 1;
            if str_eq(self.entries[i].name.as_str(), name) {
                proof {
                    assert(self.entries@.take(i as int + 1).last() == self.entries@[i as int]);
                }
                return Some(copy_string(self.entries[i].value.as_str()));
            }
            proof {
                assert(self.entries@.take(i as int + 1).drop_last() =~= self.entries@.take(
                    i as int,
                ));
            }
        }
        None
    }

    /// Bind `name` to `value`, shadowing any previous binding; every other
    /// name keeps its value.
    pub fn set_var(&mut self, name: &str, value: &str)
        ensures
            final(self).spec_get(name@) == Some(value@),
            forall|k: Seq<char>| k != name@ ==> #[trigger] final(self).spec_get(k) == old(
                self,
            ).spec_get(k),
    {
        self.entries.push(Binding { name: copy_string(name), value: copy_string(value) });
        proof {
            assert(self.entries@.last().name@ == name@);
            assert(self.entries@.drop_last() =~= old(self).entries@);
        }
    }

    /// Drop every binding of `name`; every other name keeps its value.
    pub fn unset_var(&mut self, name: &str)
        ensures
            final(self).spec_get(name@) is None,
            forall|k: Seq<char>| k != name@ ==> #[trigger] final(self).spec_get(k) == old(
                self,
            ).spec_get(k),
    {
        let mut kept: Vec<Binding> = Vec::new();
        let mut i: usize = 0;
        while i < self.entries.len()
            invariant
                i <= self.entries@.len(),
                assoc_get(kept@, name@) is None,
                forall|k: Seq<char>| k != name@ ==> #[trigger] assoc_get(kept@, k) == assoc_get(
                    self.entries@.take(i as int),
                    k,
                ),
                self.entries@ == old(self).entries@,
            decreases self.entries@.len() - i,
        {
            let ghost kept0 = kept@;
            let keep = !str_eq(self.entries[i].name.as_str(), name);
            if keep {
                let b = Binding {
                    name: copy_string(self.entries[i].name.as_str()),
                    value: copy_string(self.entries[i].value.as_str()),
                };
                kept.push(b);
            }
            proof {
                let prefix = self.entries@.take(i as int);
                let prefix2 = self.entries@.take(i as int + 1);
                assert(prefix2.last() == self.entries@[i as int]);
                assert(prefix2.drop_last() =~= prefix);
                if keep {
                    assert(kept@.last().name@ == self.entries@[i as int].name@);
                    assert(kept@.drop_last() =~= kept0);
                }
                assert forall|k: Seq<char>| k != name@ implies #[trigger] assoc_get(kept@, k)
                    == assoc_get(prefix2, k) by {
                    if self.entries@[i as int].name@ == k {
                        assert(assoc_get(prefix2, k) == Some(self.entries@[i as int].value@));
                        assert(keep);
                        assert(assoc_get(kept@, k) == Some(kept@.last().value@));
                    } else {
                        assert(assoc_get(prefix2, k) == assoc_get(prefix, k));
                        if keep {
                            assert(assoc_get(kept@, k) == assoc_get(kept0, k));
                        }
                        assert(assoc_get(kept0, k) == assoc_get(prefix, k));
                    }
                }
            }
            i = i + 1;
        }
        proof {
            assert(self.entries@.take(self.entries@.len() as int) =~= self.entries@);
        }
        self.entries = kept;
    }
}

} // verus!
