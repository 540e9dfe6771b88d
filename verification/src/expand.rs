//! Variable expansion of pipelines: `$NAME` is replaced by the current
//! binding of `NAME` (the empty string when unbound), `$?` by the binding of
//! `?`, and a `$` followed by neither stands for itself.

use vstd::prelude::*;
use crate::pipeline::{Job, JobView, Pipeline, PipelineView};
use crate::strutil::chars_to_string;
use crate::variables::Variables;

verus! {

/// Whether `c` may appear in a variable name: a letter, digit or underscore.
pub open spec fn is_name_char(c: char) -> bool {
    ||| 48 <= c as u32 <= 57
    ||| 65 <= c as u32 <= 90
    ||| 97 <= c as u32 <= 122
    ||| c as u32 == 95
}

/// Length of the variable-name run at the head of `s`.
pub open spec fn name_run(s: Seq<char>) -> nat
    decreases s.len(),
{
    if s.len() == 0 || !is_name_char(s[0]) {
        0
    } else {
        1 + name_run(s.drop_first())
    }
}

proof fn lemma_name_run_le(s: Seq<char>)
    ensures
        name_run(s) <= s.len(),
    decreases s.len(),
{
    if s.len() > 0 && is_name_char(s[0]) {
        lemma_name_run_le(s.drop_first());
    }
}

/// The binding of `k`, or the empty string when `k` is unbound.
pub open spec fn lookup_or_empty(vars: Variables, k: Seq<char>) -> Seq<char> {
    match vars.spec_get(k) {
        Some(v) => v,
        None => Seq::empty(),
    }
}

/// The expansion of `s` under the store `vars`.
pub open spec fn expand_chars(vars: Variables, s: Seq<char>) -> Seq<char>
    decreases s.len(),
    via expand_chars_decreases
{
    if s.len() == 0 {
        Seq::empty()
    } else if s[0] == '$' {
        if s.len() >= 2 && s[1] == '?' {
            lookup_or_empty(vars, seq!['?']) + expand_chars(vars, s.skip(2))
        } else if name_run(s.skip(1)) == 0 {
            seq!['$'] + expand_chars(vars, s.skip(1))
        } else {
            lookup_or_empty(vars, s.subrange(1, 1 + name_run(s.skip(1)) as int)) + expand_chars(
                vars,
                s.skip(1 + name_run(s.skip(1)) as int),
            )
        }
    } else {
        seq![s[0]] + expand_chars(vars, s.skip(1))
    }
}

#[via_fn]
proof fn expand_chars_decreases(vars: Variables, s: Seq<char>) {
    if s.len() > 0 && s[0] == '$' {
        lemma_name_run_le(s.skip(1));
    }
}

/// A string without `$` expands to itself.
pub proof fn lemma_expand_no_dollar(vars: Variables, s: Seq<char>)
    requires
        forall|i: int| 0 <= i < s.len() ==> s[i] != '$',
    ensures
        expand_chars(vars, s) == s,
    decreases s.len(),
{
    if s.len() > 0 {
        lemma_expand_no_dollar(vars, s.skip(1));
        assert(expand_chars(vars, s) == seq![s[0]] + s.skip(1));
        assert(seq![s[0]] + s.skip(1) =~= s);
    } else {
        assert(expand_chars(vars, s) =~= s);
    }
}

fn is_name_char_exec(c: char) -> (r: bool)
    ensures
        r == is_name_char(c),
{
    let u = c as u32;
    (48 <= u && u <= 57) || (65 <= u && u <= 90) || (97 <= u && u <= 122) || u == 95
}

/// Length of the variable-name run of `s` starting at `j`.
fn name_run_from(s: &str, j: usize) -> (run: usize)
    requires
        j <= s@.len(),
    ensures
        run == name_run(s@.skip(j as int)),
        j + run <= s@.len(),
{
    let n = s.unicode_len();
    let mut k: usize = j;
    while k < n && is_name_char_exec(s.get_char(k))
        invariant
            j <= k <= n,
            n == s@.len(),
            name_run(s@.skip(j as int)) == (k - j) + name_run(s@.skip(k as int)),
        decreases n - k,
    {
        proof {
            assert(s@.skip(k as int)[0] == s@[k as int]);
            assert(s@.skip(k as int).drop_first() =~= s@.skip(k as int + 1));
        }
        k = k + 1;
    }
    proof {
        if k < n {
            assert(s@.skip(k as int)[0] == s@[k as int]);
            assert(name_run(s@.skip(k as int)) == 0);
        } else {
            assert(s@.skip(k as int).len() == 0);
        }
    }
    k - j
}

fn push_str_chars(out: &mut Vec<char>, s: &str)
    ensures
        final(out)@ == old(out)@ + s@,
{
    let n = s.unicode_len();
    let mut i: usize = 0;
    while i < n
        invariant
            i <= n,
            n == s@.len(),
            out@ == old(out)@ + s@.take(i as int),
        decreases n - i,
    {
        out.push(s.get_char(i));
        proof {
            assert(old(out)@ + s@.take(i as int + 1) =~= (old(out)@ + s@.take(i as int)).push(
                s@[i as int],
            ));
        }
        i = i + 1;
    }
    proof {
        assert(s@.take(n as int) =~= s@);
    }
}

fn expand_from(vars: &Variables, s: &str, i: usize, out: &mut Vec<char>)
    requires
        i <= s@.len(),
    ensures
        final(out)@ == old(out)@ + expand_chars(*vars, s@.skip(i as int)),
    decreases s@.len() - i,
{
    let n = s.unicode_len();
    if i == n {
        proof {
            assert(old(out)@ + expand_chars(*vars, s@.skip(i as int)) =~= old(out)@);
        }
        return ;
    }
    let ghost suffix = s@.skip(i as int);
    proof {
        assert(suffix[0] == s@[i as int]);
    }
    let c = s.get_char(i);
    if c == '$' {
        if i + 1 < n && s.get_char(i + 1) == '?' {
            proof {
                assert(suffix[1] == s@[i as int + 1]);
            }
            match vars.get_var("?") {
                Some(v) => {
                    proof {
                        reveal_strlit("?");
                        assert("?"@ =~= seq!['?']);
                    }
                    push_str_chars(out, v.as_str());
                },
                None => {
                    proof {
                        reveal_strlit("?");
                        assert("?"@ =~= seq!['?']);
                    }
                },
            }
            proof {
                assert(suffix.skip(2) =~= s@.skip(i as int + 2));
            }
            expand_from(vars, s, i + 2, out);
            proof {
                assert(out@ =~= old(out)@ + expand_chars(*vars, suffix));
            }
            return ;
        }
        proof {
            if suffix.len() >= 2 && suffix[1] == '?' {
                assert(s@[i as int + 1] == suffix[1]);
            }
            assert(suffix.skip(1) =~= s@.skip(i as int + 1));
        }
        let run = name_run_from(s, i + 1);
        if run == 0 {
            out.push('$');
            expand_from(vars, s, i + 1, out);
            proof {
                assert(out@ =~= old(out)@ + expand_chars(*vars, suffix));
            }
        } else {
            let name = s.substring_char(i + 1, i + 1 + run);
            proof {
                assert(name@ =~= suffix.subrange(1, 1 + name_run(suffix.skip(1)) as int));
            }
            match vars.get_var(name) {
                Some(v) => push_str_chars(out, v.as_str()),
                None => {},
            }
            proof {
                assert(suffix.skip(1 + name_run(suffix.skip(1)) as int) =~= s@.skip(
                    i as int + 1 + run,
                ));
            }
            expand_from(vars, s, i + 1 + run, out);
            proof {
                assert(out@ =~= old(out)@ + expand_chars(*vars, suffix));
            }
        }
    } else {
        out.push(c);
        expand_from(vars, s, i + 1, out);
        proof {
            assert(suffix.skip(1) =~= s@.skip(i as int + 1));
            assert(out@ =~= old(out)@ + expand_chars(*vars, suffix));
        }
    }
}

/// The expansion of one string under the store.
pub fn expand_str(vars: &Variables, s: &str) -> (r: String)
    ensures
        r@ == expand_chars(*vars, s@),
{
    let mut out: Vec<char> = Vec::new();
    expand_from(vars, s, 0, &mut out);
    proof {
        assert(s@.skip(0) =~= s@);
        assert(out@ =~= expand_chars(*vars, s@));
    }
    chars_to_string(&out)
}

/// The expansion of a job: its command and every argument, elementwise.
pub open spec fn spec_expand_job(vars: Variables, j: JobView) -> JobView {
    JobView {
        command: expand_chars(vars, j.command),
        args: Seq::new(j.args.len(), |i: int| expand_chars(vars, j.args[i])),
    }
}

/// The expansion of a pipeline: every job, elementwise.
pub open spec fn spec_expand_pipeline(vars: Variables, p: PipelineView) -> PipelineView {
    PipelineView { jobs: Seq::new(p.jobs.len(), |i: int| spec_expand_job(vars, p.jobs[i])) }
}

fn expand_job(vars: &Variables, j: &Job) -> (r: Job)
    ensures
        r@ == spec_expand_job(*vars, j@),
{
    let command = expand_str(vars, j.command.as_str());
    let mut args: Vec<String> = Vec::new();
    let mut i: usize = 0;
    while i < j.args.len()
        invariant
            i <= j.args@.len(),
            args@.len() == i,
            forall|k: int| 0 <= k < i ==> args@[k]@ == expand_chars(*vars, #[trigger] j.args@[k]@),
        decreases j.args@.len() - i,
    {
        args.push(expand_str(vars, j.args[i].as_str()));
        i = i + 1;
    }
    let r = Job { command, args };
    proof {
        assert(r@ =~~= spec_expand_job(*vars, j@));
    }
    r
}

/// The fully expanded pipeline the engine dispatches.
pub fn expand_pipeline(vars: &Variables, p: &Pipeline) -> (r: Pipeline)
    ensures
        r@ == spec_expand_pipeline(*vars, p@),
        p@.wf() ==> r@.wf(),
{
    let mut jobs: Vec<Job> = Vec::new();
    let mut i: usize = 0;
    while i < p.jobs.len()
        invariant
            i <= p.jobs@.len(),
            jobs@.len() == i,
            forall|k: int| 0 <= k < i ==> jobs@[k]@ == spec_expand_job(
                *vars,
                #[trigger] p.jobs@[k]@,
            ),
        decreases p.jobs@.len() - i,
    {
        jobs.push(expand_job(vars, &p.jobs[i]));
        i = i + 1;
    }
    let r = Pipeline { jobs };
    proof {
        assert(r@ =~~= spec_expand_pipeline(*vars, p@));
    }
    r
}

} // verus!
