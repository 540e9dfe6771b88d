//! Small verified string helpers used throughout the engine.

use vstd::prelude::*;
use crate::pipeline::{Job, Pipeline};

verus! {

/// Equality of two string slices, stated over their character sequences.
pub fn str_eq(a: &str, b: &str) -> (r: bool)
    ensures
        r == (a@ == b@),
{
    let sa: String = a.to_owned();
    let sb: String = b.to_owned();
    sa == sb
}

/// A fresh `String` with the same characters.
pub fn copy_string(s: &str) -> (r: String)
    ensures
        r@ == s@,
{
    s.to_owned()
}

/// Relies on `String: FromIterator<char>`: collecting an iterator of `char`s
/// yields the string of exactly those characters, in order.
#[verifier::external_body]
pub fn chars_to_string(v: &Vec<char>) -> (r: String)
    ensures
        r@ == v@,
{
    v.iter().collect()
}

/// A fresh vector of strings with the same character sequences.
pub fn copy_strings(v: &Vec<String>) -> (r: Vec<String>)
    ensures
        r.deep_view() == v.deep_view(),
{
    let mut r: Vec<String> = Vec::new();
    let mut i: usize = 0;
    while i < v.len()
        invariant
            i <= v.len(),
            r@.len() == i,
            forall|k: int| 0 <= k < i ==> r@[k]@ == #[trigger] v@[k]@,
        decreases v.len() - i,
    {
        r.push(copy_string(v[i].as_str()));
        i = i + 1;
    }
    assert(r.deep_view() =~~= v.deep_view());
    r
}

/// A fresh job with the same view.
pub fn copy_job(j: &Job) -> (r: Job)
    ensures
        r@ == j@,
{
    let r = Job { command: copy_string(j.command.as_str()), args: copy_strings(&j.args) };
    assert(r@ =~~= j@);
    r
}

/// A fresh pipeline with the same view.
pub fn copy_pipeline(p: &Pipeline) -> (r: Pipeline)
    ensures
        r@ == p@,
{
    let mut jobs: Vec<Job> = Vec::new();
    let mut i: usize = 0;
    while i < p.jobs.len()
        invariant
            i <= p.jobs.len(),
            jobs@.len() == i,
            forall|k: int| 0 <= k < i ==> jobs@[k]@ == #[trigger] p.jobs@[k]@,
        decreases p.jobs.len() - i,
    {
        jobs.push(copy_job(&p.jobs[i]));
        i = i + 1;
    }
    let r = Pipeline { jobs };
    assert(r@ =~~= p@);
    r
}

/// A fresh vector of pipelines with the same views.
pub fn copy_pipelines(v: &Vec<Pipeline>) -> (r: Vec<Pipeline>)
    ensures
        r.deep_view() == v.deep_view(),
{
    let mut r: Vec<Pipeline> = Vec::new();
    let mut i: usize = 0;
    while i < v.len()
        invariant
            i <= v.len(),
            r@.len() == i,
            forall|k: int| 0 <= k < i ==> r@[k]@ == #[trigger] v@[k]@,
        decreases v.len() - i,
    {
        r.push(copy_pipeline(&v[i]));
        i = i + 1;
    }
    assert(r.deep_view() =~~= v.deep_view());
    r
}

} // verus!
