//! The execution engine: dispatches one pipeline to a builtin, a
//! user-defined function, or the external pipeline executor, and feeds every
//! exit status back into the `?` variable; `on_command` decides for each
//! incoming pipeline whether to execute, buffer, or discard it.

use vstd::prelude::*;
use crate::expand::{expand_chars, expand_pipeline, expand_str, lemma_expand_no_dollar, spec_expand_job, spec_expand_pipeline};
use crate::flow_control::{
    if_block, if_step, for_block, for_step, fn_block, fn_step, let_step, skipping_in,
    spec_is_flow_control,
    CodeBlock, CodeBlockView, FlowControl, FlowError, Statement, StatementView,
    is_flow_control_command,
};
use crate::functions::{Function, FunctionView, Functions};
use crate::numeral::{dec_str_of, i32_to_dec_string};
use crate::pipeline::{Pipeline, PipelineView};
use crate::status::{FAILURE, NO_SUCH_COMMAND, SUCCESS};
use crate::strutil::{copy_pipeline, copy_string, copy_strings, str_eq};
use crate::variables::Variables;

verus! {

/// Recursion budget for nested function calls.
pub const CALL_DEPTH: u64 = 64;

/// The external pipeline executor: spawns the processes of one fully
/// expanded pipeline and reports its exit status. Nothing is assumed of the
/// status it returns.
pub trait Executor {
    fn execute(&mut self, pipeline: &Pipeline) -> i32;
}

/// The names dispatched inside the engine itself.
pub open spec fn is_builtin_name(c: Seq<char>) -> bool {
    ||| c == "if"@
    ||| c == "else"@
    ||| c == "end"@
    ||| c == "for"@
    ||| c == "fn"@
    ||| c == "true"@
    ||| c == "false"@
    ||| c == "let"@
}

/// One observable act of the engine: a pipeline handed to the executor
/// (already fully expanded), or a variable written for a loop iteration or a
/// function-call parameter. The ghost trace of these events is what the
/// contracts use to say that something *was* executed or bound, and in what
/// order.
#[verifier::ext_equal]
pub enum Event {
    Executed(PipelineView),
    Bound(Seq<char>, Seq<char>),
}

/// `b` is `a` with zero or more events appended: the engine only ever adds
/// to its trace.
pub open spec fn extends(a: Seq<Event>, b: Seq<Event>) -> bool {
    b.len() >= a.len() && b.take(a.len() as int) == a
}

/// The binding events `Bound(variable, values[0])`, `Bound(variable,
/// values[1])`, ... occur in `seg`, in this order (other events may stand
/// between them).
pub open spec fn binds_in_order(seg: Seq<Event>, variable: Seq<char>, values: Seq<Seq<char>>) -> bool
    decreases values.len(),
{
    if values.len() == 0 {
        true
    } else {
        exists|i: int|
            0 <= i < seg.len() && seg[i] == Event::Bound(variable, values[0]) && binds_in_order(
                seg.skip(i + 1),
                variable,
                values.skip(1),
            )
    }
}

/// The parameter-binding events of one function call, in parameter order.
pub open spec fn param_bind_events(params: Seq<Seq<char>>, args: Seq<Seq<char>>) -> Seq<Event> {
    Seq::new(params.len(), |i: int| Event::Bound(params[i], args[i + 1]))
}

pub proof fn lemma_extends_trans(a: Seq<Event>, b: Seq<Event>, c: Seq<Event>)
    requires
        extends(a, b),
        extends(b, c),
    ensures
        extends(a, c),
{
    assert(c.take(a.len() as int) =~= b.take(a.len() as int));
}

/// In-order bindings stay in order when the trace grows.
pub proof fn lemma_binds_mono(seg1: Seq<Event>, seg2: Seq<Event>, variable: Seq<char>, values: Seq<Seq<char>>)
    requires
        binds_in_order(seg1, variable, values),
        extends(seg1, seg2),
    ensures
        binds_in_order(seg2, variable, values),
    decreases values.len(),
{
    if values.len() > 0 {
        let i = choose|i: int|
            0 <= i < seg1.len() && seg1[i] == Event::Bound(variable, values[0]) && binds_in_order(
                seg1.skip(i + 1),
                variable,
                values.skip(1),
            );
        assert(seg2[i] == seg2.take(seg1.len() as int)[i]);
        assert(seg2.skip(i + 1).take(seg1.len() - i - 1) =~= seg1.skip(i + 1));
        lemma_binds_mono(seg1.skip(i + 1), seg2.skip(i + 1), variable, values.skip(1));
        assert(seg2[i] == Event::Bound(variable, values[0]));
    }
}

/// Appending a binding event extends an in-order run of bindings by one.
pub proof fn lemma_binds_step(
    seg: Seq<Event>,
    ext: Seq<Event>,
    variable: Seq<char>,
    values: Seq<Seq<char>>,
    v: Seq<char>,
)
    requires
        binds_in_order(seg, variable, values),
        ext.len() >= 1,
        ext[0] == Event::Bound(variable, v),
    ensures
        binds_in_order(seg + ext, variable, values.push(v)),
    decreases values.len(),
{
    if values.len() == 0 {
        let n = seg.len() as int;
        assert((seg + ext)[n] == ext[0]);
        assert(values.push(v)[0] == v);
        assert(values.push(v).skip(1) =~= Seq::<Seq<char>>::empty());
        assert(binds_in_order((seg + ext).skip(n + 1), variable, values.push(v).skip(1)));
    } else {
        let i = choose|i: int|
            0 <= i < seg.len() && seg[i] == Event::Bound(variable, values[0]) && binds_in_order(
                seg.skip(i + 1),
                variable,
                values.skip(1),
            );
        assert((seg + ext)[i] == seg[i]);
        assert((seg + ext).skip(i + 1) =~= seg.skip(i + 1) + ext);
        lemma_binds_step(seg.skip(i + 1), ext, variable, values.skip(1), v);
        assert(values.push(v)[0] == values[0]);
        assert(values.push(v).skip(1) =~= values.skip(1).push(v));
    }
}

/// All of the state of one shell instance.
pub struct Shell {
    pub variables: Variables,
    pub flow_control: FlowControl,
    pub functions: Functions,
    pub previous_status: i32,
    pub diagnostics: Vec<FlowError>,
    /// Ghost log of executor hand-offs and loop/parameter bindings.
    pub trace: Ghost<Seq<Event>>,
}

/// Every binding other than `except` is the same in `b` as in `a`.
pub open spec fn vars_preserved_except(a: Shell, b: Shell, except: Seq<char>) -> bool {
    forall|k: Seq<char>| k != except ==> #[trigger] b.variables.spec_get(k)
        == a.variables.spec_get(k)
}

/// The status `code` has been recorded: in `previous_status` and, as its
/// decimal string, in the `?` variable.
pub open spec fn status_recorded(s: Shell, code: i32) -> bool {
    s.previous_status == code && s.variables.spec_get("?"@) == Some(dec_str_of(code as int))
}

/// Whether `k` is one of the names saved in `backup`.
pub open spec fn in_backup(backup: Seq<(String, Option<String>)>, k: Seq<char>) -> bool {
    exists|m: int| 0 <= m < backup.len() && backup[m].0@ == k
}

/// The store binds `name` exactly as `saved` records it.
pub open spec fn saved_matches(store: Variables, name: Seq<char>, saved: Option<String>) -> bool {
    match saved {
        Some(v) => store.spec_get(name) == Some(v@),
        None => store.spec_get(name) is None,
    }
}

/// Everything one dispatch of the pipeline `p` (with recursion budget
/// `depth`) guarantees of the shell `pre` it started from: the exact stack
/// transition of every builtin, binding and restoration for user-function
/// calls, the trace events gained, and that any reported status is recorded.
pub open spec fn dispatch_post(pre: Shell, post: Shell, p: PipelineView, r: Option<i32>, depth: u64) -> bool {
    &&& post.wf()
    &&& post.functions == pre.functions
    &&& extends(pre.trace@, post.trace@)
    &&& (r is Some ==> status_recorded(post, r->0))
    &&& ({
        let vars0 = pre.variables;
        let blocks0 = pre.flow_control@;
        let job = p.jobs[0];
        let ecmd = expand_chars(vars0, job.command);
        let eargs = Seq::new(job.args.len(), |i: int| expand_chars(vars0, job.args[i]));
        &&& (is_builtin_name(ecmd) && ecmd != "let"@ ==> vars_preserved_except(pre, post, "?"@))
        &&& (is_builtin_name(ecmd) ==> post.trace == pre.trace)
        &&& (ecmd == "if"@ ==> match if_step(eargs) {
            Ok(c) => post.flow_control@ == blocks0.push(if_block(c)) && r == Some(SUCCESS)
                && post.diagnostics == pre.diagnostics,
            Err(e) => post.flow_control@ == blocks0 && r == Some(FAILURE) && post.diagnostics@
                == pre.diagnostics@.push(e),
        })
        &&& (ecmd == "else"@ ==> match blocks0.last().statement {
            StatementView::If(c) => post.flow_control@ == blocks0.update(
                blocks0.len() - 1,
                CodeBlockView { statement: StatementView::If(!c), ..blocks0.last() },
            ) && r == Some(SUCCESS) && post.diagnostics == pre.diagnostics,
            _ => post.flow_control@ == blocks0 && r == Some(FAILURE) && post.diagnostics@
                == pre.diagnostics@.push(FlowError::ElseWithoutIf),
        })
        &&& (ecmd == "end"@ ==> {
            &&& blocks0.len() > 1 ==> post.flow_control@ == blocks0.drop_last() && r == Some(
                SUCCESS,
            ) && post.diagnostics == pre.diagnostics
            &&& blocks0.len() <= 1 ==> post.flow_control@ == blocks0 && r == Some(FAILURE)
                && post.diagnostics@ == pre.diagnostics@.push(FlowError::UnbalancedEnd)
        })
        &&& (ecmd == "for"@ ==> match for_step(eargs) {
            Ok(parts) => post.flow_control@ == blocks0.push(for_block(parts.0, parts.1)) && r
                == Some(SUCCESS) && post.diagnostics == pre.diagnostics,
            Err(e) => post.flow_control@ == blocks0 && r == Some(FAILURE) && post.diagnostics@
                == pre.diagnostics@.push(e),
        })
        &&& (ecmd == "fn"@ ==> match fn_step(eargs) {
            Ok(parts) => post.flow_control@ == blocks0.push(fn_block(parts.0, parts.1)) && r
                == Some(SUCCESS) && post.diagnostics == pre.diagnostics,
            Err(e) => post.flow_control@ == blocks0 && r == Some(FAILURE) && post.diagnostics@
                == pre.diagnostics@.push(e),
        })
        &&& (ecmd == "true"@ ==> post.flow_control@ == blocks0 && r == Some(SUCCESS)
            && post.diagnostics == pre.diagnostics)
        &&& (ecmd == "false"@ ==> post.flow_control@ == blocks0 && r == Some(FAILURE)
            && post.diagnostics == pre.diagnostics)
        &&& (ecmd == "let"@ ==> post.flow_control@ == blocks0 && match let_step(eargs) {
            Ok(nv) => {
                &&& r == Some(SUCCESS)
                &&& (nv.0 != "?"@ ==> post.variables.spec_get(nv.0) == Some(nv.1))
                &&& (forall|k: Seq<char>| k != nv.0 && k != "?"@ ==> #[trigger] post.variables.spec_get(k) == pre.variables.spec_get(k))
                &&& post.diagnostics == pre.diagnostics
            },
            Err(e) => r == Some(FAILURE) && vars_preserved_except(pre, post, "?"@)
                && post.diagnostics@ == pre.diagnostics@.push(e),
        })
        &&& (!is_builtin_name(ecmd) ==> match pre.functions.spec_get(ecmd) {
            Some(f) => {
                &&& (job.args.len() - 1 != f.params.len() ==> r == Some(NO_SUCH_COMMAND)
                    && vars_preserved_except(pre, post, "?"@) && post.flow_control@ == blocks0
                    && post.trace == pre.trace && post.diagnostics@ == pre.diagnostics@.push(
                    FlowError::ArityMismatch {
                        expected: f.params.len() as usize,
                        actual: (job.args.len() - 1) as usize,
                    },
                ))
                &&& (job.args.len() - 1 == f.params.len() && depth == 0 ==> r == Some(FAILURE)
                    && vars_preserved_except(pre, post, "?"@) && post.flow_control@ == blocks0
                    && post.trace == pre.trace && post.diagnostics@ == pre.diagnostics@.push(
                    FlowError::CallDepthExceeded,
                ))
                &&& (job.args.len() - 1 == f.params.len() && depth >= 1 ==> {
                    &&& (forall|jj: int|
                        0 <= jj < f.params.len() && f.params[jj] != "?"@
                            ==> post.variables.spec_get(#[trigger] f.params[jj])
                            == vars0.spec_get(f.params[jj]))
                    &&& post.trace@.len() >= pre.trace@.len() + f.params.len()
                    &&& post.trace@.subrange(
                        pre.trace@.len() as int,
                        pre.trace@.len() + f.params.len() as int,
                    ) == param_bind_events(f.params, eargs)
                })
                &&& (job.args.len() - 1 == f.params.len() && depth >= 1 && f.body.len() == 0
                    ==> {
                    &&& r is None
                    &&& (forall|k: Seq<char>| #[trigger] post.variables.spec_get(k)
                        == pre.variables.spec_get(k))
                    &&& post.flow_control == pre.flow_control
                    &&& post.previous_status == pre.previous_status
                    &&& post.diagnostics == pre.diagnostics
                    &&& post.trace@ == pre.trace@ + param_bind_events(f.params, eargs)
                })
            },
            None => r is Some && vars_preserved_except(pre, post, "?"@) && post.flow_control@
                == blocks0 && post.diagnostics == pre.diagnostics && post.trace@
                == pre.trace@.push(Event::Executed(spec_expand_pipeline(vars0, p))),
        })
        &&& (r is None ==> !is_builtin_name(ecmd) && pre.functions.spec_get(ecmd) is Some)
    })
}

/// What the host must do next for a handled pipeline: nothing more, or
/// read a file whose contents are to be fed back through `on_command`.
pub enum Action {
    /// Handled inside the engine: buffered, discarded, or dispatched
    /// (with the dispatch result, if any).
    Done(Option<i32>),
    /// A `source` command: the host reads this file and feeds its parsed
    /// contents back, then records a status for the command.
    ReadFile(String),
}

/// A pipeline the engine hands back to the host: an expanded command word
/// `source` with a file argument, arriving where it would be dispatched.
pub open spec fn is_source_read(pre: Shell, p: PipelineView) -> bool {
    expand_chars(pre.variables, p.jobs[0].command) == "source"@ && p.jobs[0].args.len() >= 2
}

/// Everything one handled pipeline guarantees of the shell: buffered
/// verbatim into a collecting block; on `end`, materialized (the function
/// registered, or the loop body replayed once per value with the variable
/// bound in order) and popped; discarded without any effect while an
/// enclosing `if` is false; otherwise dispatched per `dispatch_post` (or
/// handed back to the host when it is a `source FILE`).
pub open spec fn step_post(pre: Shell, post: Shell, p: PipelineView) -> bool {
    let blocks0 = pre.flow_control@;
    let top = blocks0.last();
    let cmd = p.jobs[0].command;
    &&& post.wf()
    &&& extends(pre.trace@, post.trace@)
    &&& (top.collecting && cmd != "end"@ ==> {
        &&& post.flow_control@ == blocks0.update(
            blocks0.len() - 1,
            CodeBlockView { pipelines: top.pipelines.push(p), ..top },
        )
        &&& post.variables == pre.variables
        &&& post.functions == pre.functions
        &&& post.previous_status == pre.previous_status
        &&& post.diagnostics == pre.diagnostics
        &&& post.trace == pre.trace
    })
    &&& (!top.collecting && skipping_in(blocks0) && !spec_is_flow_control(cmd) ==> post == pre)
    &&& (top.collecting && cmd == "end"@ ==> match top.statement {
        StatementView::Function(name, params) => {
            &&& post.functions.spec_get(name) == Some(
                FunctionView { name, params, body: top.pipelines },
            )
            &&& (forall|k: Seq<char>| k != name ==> #[trigger] post.functions.spec_get(k)
                == pre.functions.spec_get(k))
            &&& post.flow_control@ == blocks0.drop_last()
            &&& vars_preserved_except(pre, post, "?"@)
            &&& status_recorded(post, SUCCESS)
            &&& post.diagnostics == pre.diagnostics
            &&& post.trace == pre.trace
        },
        StatementView::For(variable, values) => {
            &&& post.functions == pre.functions
            &&& binds_in_order(post.trace@.skip(pre.trace@.len() as int), variable, values)
            &&& (values.len() == 0 ==> post.flow_control@ == blocks0.drop_last()
                && vars_preserved_except(pre, post, "?"@) && status_recorded(post, SUCCESS)
                && post.diagnostics == pre.diagnostics && post.trace == pre.trace)
            &&& (values.len() > 0 && top.pipelines.len() == 0 && variable != "?"@
                ==> post.variables.spec_get(variable) == Some(values.last())
                && post.flow_control@ == blocks0.drop_last() && status_recorded(post, SUCCESS))
        },
        _ => post.functions == pre.functions,
    })
    &&& (!top.collecting && !(skipping_in(blocks0) && !spec_is_flow_control(cmd)) ==> {
        &&& (is_source_read(pre, p) ==> post == pre)
        &&& (!is_source_read(pre, p) ==> exists|r: Option<i32>|
            dispatch_post(pre, post, p, r, CALL_DEPTH))
    })
}

impl Shell {
    /// Shell state that never breaks: a well-formed block stack and a
    /// dispatchable function table.
    pub open spec fn wf(self) -> bool {
        self.flow_control.wf() && self.functions.wf()
    }

    /// A fresh shell: empty stores, the sentinel block, success recorded.
    pub fn new() -> (r: Shell)
        ensures
            r.wf(),
            r.flow_control@.len() == 1,
            !r.flow_control.spec_skipping(),
            forall|k: Seq<char>| #[trigger] r.variables.spec_get(k) is None,
            forall|k: Seq<char>| #[trigger] r.functions.spec_get(k) is None,
            r.previous_status == SUCCESS,
            r.diagnostics@.len() == 0,
            r.trace@.len() == 0,
    {
        Shell {
            variables: Variables::new(),
            flow_control: FlowControl::new(),
            functions: Functions::new(),
            previous_status: SUCCESS,
            diagnostics: Vec::new(),
            trace: Ghost(Seq::empty()),
        }
    }

    /// Turn a flow-control result into a status, reporting the error.
    fn absorb(&mut self, res: Result<(), FlowError>) -> (code: i32)
        ensures
            final(self).variables == old(self).variables,
            final(self).flow_control == old(self).flow_control,
            final(self).functions == old(self).functions,
            final(self).previous_status == old(self).previous_status,
            final(self).trace == old(self).trace,
            match res {
                Ok(()) => code == SUCCESS && final(self).diagnostics == old(self).diagnostics,
                Err(e) => code == FAILURE && final(self).diagnostics@ == old(self).diagnostics@.push(e),
            },
    {
        match res {
            Ok(()) => SUCCESS,
            Err(e) => {
                self.diagnostics.push(e);
                FAILURE
            },
        }
    }

    /// Record `code` as the last exit status, in `?` and `previous_status`.
    /// Also the host's way to report the outcome of an action it performed
    /// (such as reading a `source` file).
    pub fn record_status(&mut self, code: i32)
        ensures
            final(self).flow_control == old(self).flow_control,
            final(self).functions == old(self).functions,
            final(self).diagnostics == old(self).diagnostics,
            final(self).trace == old(self).trace,
            vars_preserved_except(*old(self), *final(self), "?"@),
            status_recorded(*final(self), code),
    {
        let s = i32_to_dec_string(code);
        self.variables.set_var("?", s.as_str());
        self.previous_status = code;
    }

    /// Call the user-defined function `f`: bind each parameter to its
    /// argument (saving the previous binding once per name), run the body,
    /// and restore every parameter — even when the body failed. The result is
    /// the last body pipeline's status, or `None` for an empty body.
    fn call_function<E: Executor>(
        &mut self,
        f: &Function,
        args: &Vec<String>,
        executor: &mut E,
        depth: u64,
    ) -> (r: Option<i32>)
        requires
            old(self).wf(),
            f@.wf(),
            args@.len() == f.params@.len() + 1,
            depth >= 1,
        ensures
            final(self).wf(),
            final(self).functions == old(self).functions,
            forall|j: int| 0 <= j < f.params@.len() ==> final(self).variables.spec_get(
                #[trigger] f.params@[j]@,
            ) == old(self).variables.spec_get(f.params@[j]@),
            extends(old(self).trace@, final(self).trace@),
            final(self).trace@.len() >= old(self).trace@.len() + f.params@.len(),
            final(self).trace@.subrange(
                old(self).trace@.len() as int,
                old(self).trace@.len() + f.params@.len() as int,
            ) == param_bind_events(f@.params, args.deep_view()),
            f.body@.len() == 0 ==> ({
                &&& r is None
                &&& (forall|k: Seq<char>| #[trigger] final(self).variables.spec_get(k) == old(self).variables.spec_get(k))
                &&& final(self).flow_control == old(self).flow_control
                &&& final(self).previous_status == old(self).previous_status
                &&& final(self).diagnostics == old(self).diagnostics
                &&& final(self).trace@ == old(self).trace@ + param_bind_events(
                    f@.params,
                    args.deep_view(),
                )
                &&& *final(executor) == *old(executor)
            }),
        decreases depth, 0int,
    {
        let ghost v0 = self.variables;
        let ghost bind_events = param_bind_events(f@.params, args.deep_view());
        proof {
            assert(old(self).trace@ + bind_events.take(0) =~= old(self).trace@);
        }
        // bind, saving each name once
        let mut backup: Vec<(String, Option<String>)> = Vec::new();
        let mut j: usize = 0;
        while j < f.params.len()
            invariant
                old(self).wf(),
                self.wf(),
                self.flow_control == old(self).flow_control,
                self.functions == old(self).functions,
                self.previous_status == old(self).previous_status,
                self.diagnostics == old(self).diagnostics,
                j <= f.params@.len(),
                args@.len() == f.params@.len() + 1,
                forall|m1: int, m2: int| 0 <= m1 < m2 < backup@.len() ==> backup@[m1].0@
                    != backup@[m2].0@,
                forall|m: int| 0 <= m < backup@.len() ==> saved_matches(
                    v0,
                    #[trigger] backup@[m].0@,
                    backup@[m].1,
                ),
                forall|jj: int| 0 <= jj < j ==> in_backup(backup@, #[trigger] f.params@[jj]@),
                forall|k: Seq<char>| !in_backup(backup@, k) ==> #[trigger] self.variables.spec_get(
                    k,
                ) == v0.spec_get(k),
                bind_events == param_bind_events(f@.params, args.deep_view()),
                self.trace@ == old(self).trace@ + bind_events.take(j as int),
            decreases f.params@.len() - j,
        {
            let p = &f.params[j];
            let mut seen = false;
            let mut t: usize = 0;
            while t < backup.len()
                invariant
                    t <= backup@.len(),
                    seen == exists|m: int| 0 <= m < t && backup@[m].0@ == p@,
                decreases backup@.len() - t,
            {
                if str_eq(backup[t].0.as_str(), p.as_str()) {
                    seen = true;
                }
                t = t + 1;
            }
            let ghost backup0 = backup@;
            if !seen {
                proof {
                    assert(!in_backup(backup@, p@));
                }
                let saved = self.variables.get_var(p.as_str());
                backup.push((copy_string(p.as_str()), saved));
                proof {
                    assert(backup@.drop_last() =~= backup0);
                    assert(saved_matches(v0, backup@[backup@.len() - 1].0@, backup@[backup@.len()
                        - 1].1));
                    assert forall|k: Seq<char>| !in_backup(backup@, k) implies #[trigger] self
                        .variables.spec_get(k) == v0.spec_get(k) by {
                        assert(!in_backup(backup0, k));
                    }
                }
            }
            proof {
                assert(in_backup(backup@, p@));
            }
            self.variables.set_var(p.as_str(), args[j + 1].as_str());
            proof {
                assert forall|k: Seq<char>| !in_backup(backup@, k) implies #[trigger] self
                    .variables.spec_get(k) == v0.spec_get(k) by {
                    assert(k != p@);
                }
                assert forall|jj: int| 0 <= jj < j + 1 implies in_backup(
                    backup@,
                    #[trigger] f.params@[jj]@,
                ) by {
                    if jj < j {
                        assert(in_backup(backup0, f.params@[jj]@));
                        let m = choose|m: int| 0 <= m < backup0.len() && backup0[m].0@
                            == f.params@[jj]@;
                        assert(backup@[m].0@ == f.params@[jj]@);
                    }
                }
            }
            self.trace = Ghost(
                self.trace@.push(Event::Bound(f.params@[j as int]@, args@[j as int + 1]@)),
            );
            proof {
                assert(bind_events[j as int] == Event::Bound(
                    f.params@[j as int]@,
                    args@[j as int + 1]@,
                ));
                assert(bind_events.take(j as int + 1) =~= bind_events.take(j as int).push(
                    bind_events[j as int],
                ));
                assert(self.trace@ =~= old(self).trace@ + bind_events.take(j as int + 1));
            }
            j = j + 1;
        }
        proof {
            assert(bind_events.take(f.params@.len() as int) =~= bind_events);
            assert(self.trace@ == old(self).trace@ + bind_events);
        }
        let ghost s_bind = *self;
        proof {
            assert(s_bind.trace@.take(s_bind.trace@.len() as int) =~= s_bind.trace@);
        }
        // run the body; the call's result is the last pipeline's status
        let mut ret: Option<i32> = None;
        let mut b: usize = 0;
        while b < f.body.len()
            invariant
                self.wf(),
                f@.wf(),
                depth >= 1,
                self.functions == old(self).functions,
                b <= f.body@.len(),
                b == 0 ==> *self == s_bind && *executor == *old(executor) && ret is None,
                extends(s_bind.trace@, self.trace@),
            decreases f.body@.len() - b,
        {
            proof {
                assert(f@.body[b as int].wf());
                assert(f@.body[b as int] == f.body@[b as int]@);
            }
            let ghost t_pre = self.trace@;
            ret = self.run_pipeline(&f.body[b], executor, (depth - 1) as u64);
            proof {
                lemma_extends_trans(s_bind.trace@, t_pre, self.trace@);
            }
            b = b + 1;
        }
        // restore every saved binding, even after a failing body
        let ghost backup_v = backup@;
        let ghost v_body = self.variables;
        let ghost s_body = *self;
        let mut m: usize = backup.len();
        while m > 0
            invariant
                self.wf(),
                self.functions == old(self).functions,
                self.flow_control == s_body.flow_control,
                self.previous_status == s_body.previous_status,
                self.diagnostics == s_body.diagnostics,
                self.trace == s_body.trace,
                m <= backup_v.len(),
                backup@ == backup_v,
                forall|m1: int, m2: int| 0 <= m1 < m2 < backup_v.len() ==> backup_v[m1].0@
                    != backup_v[m2].0@,
                forall|i: int| m <= i < backup_v.len() ==> saved_matches(
                    self.variables,
                    #[trigger] backup_v[i].0@,
                    backup_v[i].1,
                ),
                forall|k: Seq<char>| !in_backup(backup_v, k) ==> #[trigger] self.variables.spec_get(
                    k,
                ) == v_body.spec_get(k),
            decreases m,
        {
            m = m - 1;
            let ghost vars_pre = self.variables;
            match &backup[m].1 {
                Some(v) => {
                    let name = copy_string(backup[m].0.as_str());
                    let value = copy_string(v.as_str());
                    self.variables.set_var(name.as_str(), value.as_str());
                },
                None => {
                    let name = copy_string(backup[m].0.as_str());
                    self.variables.unset_var(name.as_str());
                },
            }
            proof {
                assert(saved_matches(self.variables, backup_v[m as int].0@, backup_v[m as int].1));
                assert forall|i: int| m + 1 <= i < backup_v.len() implies saved_matches(
                    self.variables,
                    #[trigger] backup_v[i].0@,
                    backup_v[i].1,
                ) by {
                    assert(backup_v[i].0@ != backup_v[m as int].0@);
                    assert(self.variables.spec_get(backup_v[i].0@) == vars_pre.spec_get(
                        backup_v[i].0@,
                    ));
                }
                assert forall|k: Seq<char>| !in_backup(backup_v, k) implies #[trigger] self
                    .variables.spec_get(k) == v_body.spec_get(k) by {
                    assert(backup_v[m as int].0@ != k);
                    assert(self.variables.spec_get(k) == vars_pre.spec_get(k));
                }
            }
        }
        proof {
            assert forall|jj: int| 0 <= jj < f.params@.len() implies self.variables.spec_get(
                #[trigger] f.params@[jj]@,
            ) == v0.spec_get(f.params@[jj]@) by {
                assert(in_backup(backup_v, f.params@[jj]@));
                let mm = choose|mm: int| 0 <= mm < backup_v.len() && backup_v[mm].0@
                    == f.params@[jj]@;
                assert(saved_matches(self.variables, backup_v[mm].0@, backup_v[mm].1));
                assert(saved_matches(v0, backup_v[mm].0@, backup_v[mm].1));
            }
            assert(extends(s_bind.trace@, self.trace@));
            assert(self.trace@.take(s_bind.trace@.len() as int) == s_bind.trace@);
            assert(s_bind.trace@.len() == old(self).trace@.len() + f.params@.len());
            let n0 = old(self).trace@.len() as int;
            let kk = f.params@.len() as int;
            assert(self.trace@.take(n0 + kk).skip(n0) =~= bind_events);
            assert(self.trace@.subrange(n0, n0 + kk) =~= self.trace@.take(n0 + kk).skip(n0));
            assert(self.trace@.subrange(
                old(self).trace@.len() as int,
                old(self).trace@.len() + f.params@.len() as int,
            ) == bind_events);
            assert(extends(old(self).trace@, self.trace@)) by {
                assert(self.trace@.take(old(self).trace@.len() as int) =~= old(self).trace@);
            }
            if f.body.len() == 0 {
                assert(s_body == s_bind);
                assert forall|k: Seq<char>| #[trigger] self.variables.spec_get(k) == old(self).variables.spec_get(k) by {
                    if in_backup(backup_v, k) {
                        let mm = choose|mm: int| 0 <= mm < backup_v.len() && backup_v[mm].0@ == k;
                        assert(saved_matches(self.variables, backup_v[mm].0@, backup_v[mm].1));
                        assert(saved_matches(v0, backup_v[mm].0@, backup_v[mm].1));
                    } else {
                        assert(self.variables.spec_get(k) == v_body.spec_get(k));
                        assert(s_bind.variables.spec_get(k) == v0.spec_get(k));
                    }
                }
            }
        }
        ret
    }

    /// Dispatch one pipeline: expand it, then resolve its command as a
    /// builtin, a user-defined function, or an external process, and record
    /// the resulting status in `?`. The result is `None` only when a
    /// function call ends with no status to report.
    pub fn run_pipeline<E: Executor>(
        &mut self,
        pipeline: &Pipeline,
        executor: &mut E,
        depth: u64,
    ) -> (r: Option<i32>)
        requires
            old(self).wf(),
            pipeline@.wf(),
        ensures
            dispatch_post(*old(self), *final(self), pipeline@, r, depth),
            ({
                let vars0 = old(self).variables;
                let job = pipeline@.jobs[0];
                let ecmd = expand_chars(vars0, job.command);
                &&& (is_builtin_name(ecmd) ==> *final(executor) == *old(executor))
                &&& (!is_builtin_name(ecmd) ==> match old(self).functions.spec_get(ecmd) {
                    Some(f) => (job.args.len() - 1 != f.params.len() || depth == 0 || f.body.len()
                        == 0) ==> *final(executor) == *old(executor),
                    None => true,
                })
            }),
        decreases depth, 1int,
    {
        proof {
            reveal_strlit("if");
            reveal_strlit("else");
            reveal_strlit("end");
            reveal_strlit("for");
            reveal_strlit("fn");
            reveal_strlit("true");
            reveal_strlit("false");
            reveal_strlit("let");
            assert("if"@.len() == 2 && "fn"@.len() == 2 && "end"@.len() == 3 && "for"@.len()
                == 3 && "let"@.len() == 3 && "else"@.len() == 4 && "true"@.len() == 4
                && "false"@.len() == 5);
            assert("if"@[0] == 'i' && "fn"@[0] == 'f' && "end"@[0] == 'e' && "for"@[0] == 'f'
                && "let"@[0] == 'l' && "else"@[0] == 'e' && "true"@[0] == 't');
        }
        let ep = expand_pipeline(&self.variables, pipeline);
        let ghost vars0 = old(self).variables;
        let ghost ecmd = expand_chars(vars0, pipeline@.jobs[0].command);
        let ghost eargs = Seq::new(
            pipeline@.jobs[0].args.len(),
            |i: int| expand_chars(vars0, pipeline@.jobs[0].args[i]),
        );
        proof {
            assert(ep@.jobs[0] == spec_expand_job(vars0, pipeline@.jobs[0]));
            assert(ep.jobs@[0]@ == ep@.jobs[0]);
            assert(ep.jobs@[0].command@ == ecmd);
            assert(ep.jobs@[0].args.deep_view() =~~= eargs);
        }
        let cmd = &ep.jobs[0].command;
        let status: Option<i32>;
        if str_eq(cmd.as_str(), "if") {
            let res = self.flow_control.if_(&ep.jobs[0].args);
            status = Some(self.absorb(res));
        } else if str_eq(cmd.as_str(), "else") {
            let res = self.flow_control.else_(&ep.jobs[0].args);
            status = Some(self.absorb(res));
        } else if str_eq(cmd.as_str(), "end") {
            let res = self.flow_control.end(&ep.jobs[0].args);
            status = Some(self.absorb(res));
        } else if str_eq(cmd.as_str(), "for") {
            let res = self.flow_control.for_(&ep.jobs[0].args);
            status = Some(self.absorb(res));
        } else if str_eq(cmd.as_str(), "fn") {
            let res = self.flow_control.fn_(&ep.jobs[0].args);
            status = Some(self.absorb(res));
        } else if str_eq(cmd.as_str(), "true") {
            status = Some(SUCCESS);
        } else if str_eq(cmd.as_str(), "false") {
            status = Some(FAILURE);
        } else if str_eq(cmd.as_str(), "let") {
            if ep.jobs[0].args.len() == 4 && str_eq(ep.jobs[0].args[2].as_str(), "=") {
                self.variables.set_var(ep.jobs[0].args[1].as_str(), ep.jobs[0].args[3].as_str());
                status = Some(SUCCESS);
            } else {
                self.diagnostics.push(FlowError::LetSyntaxError);
                status = Some(FAILURE);
            }
        } else {
            match self.functions.get(cmd.as_str()) {
                Some(f) => {
                    if ep.jobs[0].args.len() - 1 != f.params.len() {
                        self.diagnostics.push(
                            FlowError::ArityMismatch {
                                expected: f.params.len(),
                                actual: ep.jobs[0].args.len() - 1,
                            },
                        );
                        status = Some(NO_SUCH_COMMAND);
                    } else if depth == 0 {
                        self.diagnostics.push(FlowError::CallDepthExceeded);
                        status = Some(FAILURE);
                    } else {
                        status = self.call_function(&f, &ep.jobs[0].args, executor, depth);
                        proof {
                            assert(param_bind_events(f@.params, ep.jobs@[0].args.deep_view())
                                =~= param_bind_events(f@.params, eargs));
                        }
                    }
                },
                None => {
                    let code = executor.execute(&ep);
                    self.trace = Ghost(self.trace@.push(Event::Executed(ep@)));
                    proof {
                        assert(self.trace@.take(old(self).trace@.len() as int) =~= old(self).trace@);
                    }
                    status = Some(code);
                },
            }
        }
        proof {
            assert(old(self).trace@.take(old(self).trace@.len() as int) =~= old(self).trace@);
        }
        match status {
            Some(code) => {
                self.record_status(code);
                Some(code)
            },
            None => None,
        }
    }

    /// Close the collecting top block: drain its buffer and materialize it —
    /// replay a loop body once per value, or register a function definition.
    /// The emptied block itself stays on the stack for `end` to pop.
    fn close_block<E: Executor>(&mut self, executor: &mut E)
        requires
            old(self).wf(),
            old(self).flow_control@.last().collecting,
        ensures
            final(self).wf(),
            extends(old(self).trace@, final(self).trace@),
            ({
                let blocks0 = old(self).flow_control@;
                let top = blocks0.last();
                let emptied = CodeBlockView { pipelines: Seq::empty(), ..top };
                match top.statement {
                    StatementView::Function(name, params) => {
                        &&& final(self).functions.spec_get(name) == Some(
                            FunctionView { name, params, body: top.pipelines },
                        )
                        &&& (forall|k: Seq<char>| k != name ==> #[trigger] final(self).functions.spec_get(k) == old(self).functions.spec_get(k))
                        &&& final(self).flow_control@ == blocks0.update(blocks0.len() - 1, emptied)
                        &&& final(self).variables == old(self).variables
                        &&& final(self).previous_status == old(self).previous_status
                        &&& final(self).diagnostics == old(self).diagnostics
                        &&& final(self).trace == old(self).trace
                        &&& *final(executor) == *old(executor)
                    },
                    StatementView::For(variable, values) => {
                        &&& final(self).functions == old(self).functions
                        &&& binds_in_order(
                            final(self).trace@.skip(old(self).trace@.len() as int),
                            variable,
                            values,
                        )
                        &&& (values.len() == 0 ==> final(self).flow_control@ == blocks0.update(
                            blocks0.len() - 1,
                            emptied,
                        ) && final(self).variables == old(self).variables && final(self).previous_status == old(self).previous_status && final(self).diagnostics
                            == old(self).diagnostics && final(self).trace == old(self).trace
                            && *final(executor) == *old(executor))
                        &&& (values.len() > 0 && top.pipelines.len() == 0 ==> {
                            &&& final(self).variables.spec_get(variable) == Some(values.last())
                            &&& (forall|k: Seq<char>| k != variable ==> #[trigger] final(self).variables.spec_get(k) == old(self).variables.spec_get(k))
                            &&& final(self).flow_control@ == blocks0.update(blocks0.len() - 1, emptied)
                            &&& final(self).previous_status == old(self).previous_status
                            &&& final(self).diagnostics == old(self).diagnostics
                        })
                    },
                    _ => final(self).functions == old(self).functions,
                }
            }),
    {
        let ghost blocks0 = self.flow_control@;
        let ghost trace0 = self.trace@;
        proof {
            assert(trace0.take(trace0.len() as int) =~= trace0);
            assert(trace0.skip(trace0.len() as int) =~= Seq::<Event>::empty());
        }
        let top = self.flow_control.blocks.pop().unwrap();
        let ghost top_v = top@;
        proof {
            assert(top_v == blocks0.last());
            assert(top_v.wf());
            assert(self.flow_control.blocks@ == old(self).flow_control.blocks@.drop_last());
        }
        match top.statement {
            Statement::Function(name, params) => {
                let name2 = copy_string(name.as_str());
                let params2 = copy_strings(&params);
                let f = Function { name: name2, params: params2, body: top.pipelines };
                self.flow_control.blocks.push(
                    CodeBlock {
                        statement: Statement::Function(name, params),
                        collecting: true,
                        pipelines: Vec::new(),
                    },
                );
                proof {
                    assert(self.flow_control@ =~~= blocks0.update(
                        blocks0.len() - 1,
                        CodeBlockView { pipelines: Seq::empty(), ..top_v },
                    ));
                    match top_v.statement {
                        StatementView::Function(nv, pv) => {
                            assert(f@ =~~= FunctionView {
                                name: nv,
                                params: pv,
                                body: top_v.pipelines,
                            });
                        },
                        _ => {
                            assert(false);
                        },
                    }
                    assert(f@.wf());
                }
                self.functions.define(f);
            },
            Statement::For(variable, values) => {
                let var2 = copy_string(variable.as_str());
                let vals2 = copy_strings(&values);
                let body = top.pipelines;
                let ghost body_v = body.deep_view();
                proof {
                    assert(top_v.statement == StatementView::For(variable@, values.deep_view()));
                    assert(vals2@.len() == values.deep_view().len());
                }
                self.flow_control.blocks.push(
                    CodeBlock {
                        statement: Statement::For(variable, values),
                        collecting: true,
                        pipelines: Vec::new(),
                    },
                );
                proof {
                    assert(self.flow_control@ =~~= blocks0.update(
                        blocks0.len() - 1,
                        CodeBlockView { pipelines: Seq::empty(), ..top_v },
                    ));
                    assert(body_v == top_v.pipelines);
                }
                let ghost pre_loop = *self;
                let mut vi: usize = 0;
                while vi < vals2.len()
                    invariant
                        self.wf(),
                        self.functions == old(self).functions,
                        vi <= vals2@.len(),
                        pre_loop.variables == old(self).variables,
                        pre_loop.previous_status == old(self).previous_status,
                        pre_loop.diagnostics == old(self).diagnostics,
                        pre_loop.flow_control@ == old(self).flow_control@.update(
                            old(self).flow_control@.len() - 1,
                            CodeBlockView {
                                pipelines: Seq::empty(),
                                ..old(self).flow_control@.last()
                            },
                        ),
                        top_v == old(self).flow_control@.last(),
                        top_v.statement == StatementView::For(var2@, vals2.deep_view()),
                        vi == 0 ==> *self == pre_loop && *executor == *old(executor),
                        trace0 == old(self).trace@,
                        extends(trace0, self.trace@),
                        binds_in_order(
                            self.trace@.skip(trace0.len() as int),
                            var2@,
                            vals2.deep_view().take(vi as int),
                        ),
                        body_v.len() == 0 ==> self.flow_control == pre_loop.flow_control
                            && self.previous_status == pre_loop.previous_status
                            && self.diagnostics == pre_loop.diagnostics,
                        body_v.len() == 0 ==> forall|k: Seq<char>| k != var2@
                            ==> #[trigger] self.variables.spec_get(k)
                            == pre_loop.variables.spec_get(k),
                        body_v.len() == 0 && vi > 0 ==> self.variables.spec_get(var2@) == Some(
                            vals2.deep_view()[vi - 1],
                        ),
                        body.deep_view() == body_v,
                        forall|b: int| 0 <= b < body_v.len() ==> (#[trigger] body_v[b]).wf(),
                    decreases vals2@.len() - vi,
                {
                    self.variables.set_var(var2.as_str(), vals2[vi].as_str());
                    let ghost seg_pre = self.trace@.skip(trace0.len() as int);
                    self.trace = Ghost(
                        self.trace@.push(Event::Bound(var2@, vals2@[vi as int]@)),
                    );
                    proof {
                        let ev = Event::Bound(var2@, vals2@[vi as int]@);
                        lemma_binds_step(
                            seg_pre,
                            seq![ev],
                            var2@,
                            vals2.deep_view().take(vi as int),
                            vals2.deep_view()[vi as int],
                        );
                        assert(self.trace@.skip(trace0.len() as int) =~= seg_pre + seq![ev]);
                        assert(vals2.deep_view().take(vi as int).push(
                            vals2.deep_view()[vi as int],
                        ) =~= vals2.deep_view().take(vi as int + 1));
                        assert(self.trace@.take(trace0.len() as int) =~= trace0);
                    }
                    let ghost t_bound = self.trace@;
                    proof {
                        assert(t_bound.take(t_bound.len() as int) =~= t_bound);
                    }
                    if body.len() > 0 {
                        let mut bi: usize = 0;
                        while bi < body.len()
                            invariant
                                self.wf(),
                                self.functions == old(self).functions,
                                extends(t_bound, self.trace@),
                                body.deep_view() == body_v,
                                forall|b: int| 0 <= b < body_v.len() ==> (
                                #[trigger] body_v[b]).wf(),
                            decreases body@.len() - bi,
                        {
                            proof {
                                assert(body.deep_view()[bi as int] == body@[bi as int]@);
                                assert(t_bound.take(t_bound.len() as int) =~= t_bound);
                            }
                            let ghost t_pre = self.trace@;
                            self.run_pipeline(&body[bi], executor, CALL_DEPTH);
                            proof {
                                lemma_extends_trans(t_bound, t_pre, self.trace@);
                            }
                            bi = bi + 1;
                        }
                        proof {
                            assert(self.trace@.skip(trace0.len() as int).take(
                                t_bound.len() - trace0.len(),
                            ) =~= t_bound.skip(trace0.len() as int));
                            lemma_binds_mono(
                                t_bound.skip(trace0.len() as int),
                                self.trace@.skip(trace0.len() as int),
                                var2@,
                                vals2.deep_view().take(vi as int + 1),
                            );
                            lemma_extends_trans(trace0, t_bound, self.trace@);
                        }
                    }
                    vi = vi + 1;
                }
                proof {
                    assert(vals2.deep_view().take(vals2@.len() as int) =~= vals2.deep_view());
                }
            },
            Statement::Default => {
                proof {
                    assert(false);
                }
            },
            Statement::If(_) => {
                proof {
                    assert(false);
                }
            },
        }
    }

    /// Handle one parsed pipeline per the current block state: buffer it into
    /// a collecting block, close that block on `end` (registering a function
    /// or replaying a loop body) and pop it, discard it while an enclosing
    /// `if` is false, hand a `source FILE` back to the host, or dispatch it.
    pub fn on_pipeline_act<E: Executor>(&mut self, pipeline: Pipeline, executor: &mut E) -> (r:
        Action)
        requires
            old(self).wf(),
            pipeline@.wf(),
        ensures
            step_post(*old(self), *final(self), pipeline@),
            ({
                let blocks0 = old(self).flow_control@;
                let top = blocks0.last();
                let cmd = pipeline@.jobs[0].command;
                &&& (top.collecting && cmd != "end"@ ==> *final(executor) == *old(executor) && r
                    == Action::Done(None))
                &&& (!top.collecting && skipping_in(blocks0) && !spec_is_flow_control(cmd)
                    ==> *final(executor) == *old(executor) && r == Action::Done(None))
                &&& (top.collecting && cmd == "end"@ && (top.statement is Function || (
                top.statement matches StatementView::For(_, values) && values.len() == 0))
                    ==> *final(executor) == *old(executor))
                &&& (!top.collecting && !(skipping_in(blocks0) && !spec_is_flow_control(cmd))
                    ==> {
                    &&& (is_source_read(*old(self), pipeline@) ==> match r {
                        Action::ReadFile(path) => path@ == expand_chars(
                            old(self).variables,
                            pipeline@.jobs[0].args[1],
                        ) && *final(self) == *old(self) && *final(executor) == *old(executor),
                        _ => false,
                    })
                    &&& (!is_source_read(*old(self), pipeline@) ==> match r {
                        Action::Done(code) => dispatch_post(
                            *old(self),
                            *final(self),
                            pipeline@,
                            code,
                            CALL_DEPTH,
                        ),
                        _ => false,
                    })
                })
            }),
    {
        proof {
            reveal_strlit("end");
            assert("end"@.len() == 3);
            assert("end"@[0] == 'e' && "end"@[1] == 'n' && "end"@[2] == 'd');
            assert(old(self).trace@.take(old(self).trace@.len() as int) =~= old(self).trace@);
        }
        let ghost blocks0 = self.flow_control@;
        let n = self.flow_control.blocks.len();
        let collecting = self.flow_control.blocks[n - 1].collecting;
        proof {
            assert(blocks0.last() == self.flow_control.blocks@[n - 1]@);
        }
        if collecting {
            if str_eq(pipeline.jobs[0].command.as_str(), "end") {
                proof {
                    if blocks0.len() == 1 {
                        assert(blocks0.last() == blocks0[0]);
                        assert(!blocks0.last().collecting);
                    }
                    assert(blocks0.len() >= 2);
                }
                self.close_block(executor);
                let ghost mid = *self;
                proof {
                    lemma_expand_no_dollar(self.variables, "end"@);
                }
                let code = self.run_pipeline(&pipeline, executor, CALL_DEPTH);
                proof {
                    lemma_extends_trans(old(self).trace@, mid.trace@, self.trace@);
                    match blocks0.last().statement {
                        StatementView::Function(name, params) => {
                            assert(mid.flow_control@.len() == blocks0.len());
                            assert(self.flow_control@ =~= blocks0.drop_last());
                        },
                        StatementView::For(variable, values) => {
                            if values.len() == 0 || blocks0.last().pipelines.len() == 0 {
                                assert(mid.flow_control@.len() == blocks0.len());
                                assert(self.flow_control@ =~= blocks0.drop_last());
                            }
                            let n0 = old(self).trace@.len() as int;
                            assert(self.trace@.skip(n0).take(mid.trace@.len() - n0)
                                =~= mid.trace@.skip(n0));
                            lemma_binds_mono(
                                mid.trace@.skip(n0),
                                self.trace@.skip(n0),
                                variable,
                                values,
                            );
                        },
                        _ => {},
                    }
                }
                Action::Done(code)
            } else {
                let mut top = self.flow_control.blocks.pop().unwrap();
                let ghost top_v = top@;
                top.pipelines.push(pipeline);
                self.flow_control.blocks.push(top);
                proof {
                    assert(self.flow_control@ =~~= blocks0.update(
                        blocks0.len() - 1,
                        CodeBlockView { pipelines: top_v.pipelines.push(pipeline@), ..top_v },
                    ));
                }
                Action::Done(None)
            }
        } else {
            let skip = self.flow_control.skipping();
            if skip && !is_flow_control_command(pipeline.jobs[0].command.as_str()) {
                // discarded: while an enclosing `if` is false, ordinary
                // commands are neither executed nor buffered
                Action::Done(None)
            } else {
                // reading a file is host work: a `source FILE` line becomes
                // an action, decided here so that skipping and buffering
                // still govern it
                let ecmd = expand_str(&self.variables, pipeline.jobs[0].command.as_str());
                if str_eq(ecmd.as_str(), "source") && pipeline.jobs[0].args.len() >= 2 {
                    let path = expand_str(&self.variables, pipeline.jobs[0].args[1].as_str());
                    return Action::ReadFile(path);
                }
                let code = self.run_pipeline(&pipeline, executor, CALL_DEPTH);
                proof {
                    assert(dispatch_post(*old(self), *self, pipeline@, code, CALL_DEPTH));
                }
                Action::Done(code)
            }
        }
    }

    /// Handle one parsed pipeline, keeping only the engine's own effects: a
    /// `source` line that would ask the host for a file is a no-op here.
    pub fn on_pipeline<E: Executor>(&mut self, pipeline: Pipeline, executor: &mut E)
        requires
            old(self).wf(),
            pipeline@.wf(),
        ensures
            step_post(*old(self), *final(self), pipeline@),
            ({
                let blocks0 = old(self).flow_control@;
                let top = blocks0.last();
                let cmd = pipeline@.jobs[0].command;
                &&& (top.collecting && cmd != "end"@ ==> *final(executor) == *old(executor))
                &&& (!top.collecting && skipping_in(blocks0) && !spec_is_flow_control(cmd)
                    ==> *final(executor) == *old(executor))
            }),
    {
        let action = self.on_pipeline_act(pipeline, executor);
        match action {
            Action::Done(_) => {},
            Action::ReadFile(_) => {},
        }
    }

    /// Feed one parsed unit of input: handle each of its pipelines in order.
    /// A unit of ordinary commands arriving inside a false branch is wholly
    /// discarded; a unit that closes no block arriving inside a collecting
    /// block is buffered verbatim, in order.
    pub fn on_command<E: Executor>(&mut self, pipelines: &Vec<Pipeline>, executor: &mut E)
        requires
            old(self).wf(),
            forall|i: int| 0 <= i < pipelines@.len() ==> (#[trigger] pipelines@[i]@).wf(),
        ensures
            final(self).wf(),
            extends(old(self).trace@, final(self).trace@),
            pipelines@.len() == 0 ==> *final(self) == *old(self) && *final(executor) == *old(
                executor,
            ),
            pipelines@.len() == 1 ==> step_post(*old(self), *final(self), pipelines@[0]@),
            (!old(self).flow_control@.last().collecting && skipping_in(old(self).flow_control@)
                && (forall|i: int| 0 <= i < pipelines@.len() ==> !spec_is_flow_control(
                #[trigger] pipelines@[i]@.jobs[0].command,
            ))) ==> *final(self) == *old(self) && *final(executor) == *old(executor),
            (old(self).flow_control@.last().collecting && (forall|i: int|
                0 <= i < pipelines@.len() ==> #[trigger] pipelines@[i]@.jobs[0].command
                    != "end"@)) ==> {
                let blocks0 = old(self).flow_control@;
                let top = blocks0.last();
                &&& final(self).flow_control@ == blocks0.update(
                    blocks0.len() - 1,
                    CodeBlockView { pipelines: top.pipelines + pipelines.deep_view(), ..top },
                )
                &&& final(self).variables == old(self).variables
                &&& final(self).functions == old(self).functions
                &&& final(self).previous_status == old(self).previous_status
                &&& final(self).diagnostics == old(self).diagnostics
                &&& final(self).trace == old(self).trace
                &&& *final(executor) == *old(executor)
            },
    {
        let ghost blocks0 = self.flow_control@;
        let ghost top0 = blocks0.last();
        proof {
            assert(old(self).trace@.take(old(self).trace@.len() as int) =~= old(self).trace@);
        }
        proof {
            if blocks0.last().collecting {
                assert(top0.pipelines + pipelines.deep_view().take(0) =~= top0.pipelines);
                assert(blocks0.update(
                    blocks0.len() - 1,
                    CodeBlockView {
                        pipelines: top0.pipelines + pipelines.deep_view().take(0),
                        ..top0
                    },
                ) =~~= blocks0);
            }
        }
        let mut i: usize = 0;
        while i < pipelines.len()
            invariant
                self.wf(),
                i <= pipelines@.len(),
                blocks0 == old(self).flow_control@,
                blocks0.len() >= 1,
                top0 == blocks0.last(),
                i == 0 ==> *self == *old(self) && *executor == *old(executor),
                extends(old(self).trace@, self.trace@),
                pipelines@.len() == 1 && i == 1 ==> step_post(*old(self), *self, pipelines@[0]@),
                forall|k: int| 0 <= k < pipelines@.len() ==> (#[trigger] pipelines@[k]@).wf(),
                (!top0.collecting && skipping_in(blocks0) && (forall|k: int|
                    0 <= k < i ==> !spec_is_flow_control(
                    #[trigger] pipelines@[k]@.jobs[0].command,
                ))) ==> *self == *old(self) && *executor == *old(executor),
                (top0.collecting && (forall|k: int| 0 <= k < i
                    ==> #[trigger] pipelines@[k]@.jobs[0].command != "end"@)) ==> {
                    &&& self.flow_control@ == blocks0.update(
                        blocks0.len() - 1,
                        CodeBlockView {
                            pipelines: top0.pipelines + pipelines.deep_view().take(i as int),
                            ..top0
                        },
                    )
                    &&& self.variables == old(self).variables
                    &&& self.functions == old(self).functions
                    &&& self.previous_status == old(self).previous_status
                    &&& self.diagnostics == old(self).diagnostics
                    &&& self.trace == old(self).trace
                    &&& *executor == *old(executor)
                },
            decreases pipelines@.len() - i,
        {
            let ghost pre = *self;
            let p = copy_pipeline(&pipelines[i]);
            self.on_pipeline(p, executor);
            proof {
                lemma_extends_trans(old(self).trace@, pre.trace@, self.trace@);
                if top0.collecting && (forall|k: int| 0 <= k < i + 1
                    ==> #[trigger] pipelines@[k]@.jobs[0].command != "end"@) {
                    let pre_top = pre.flow_control@.last();
                    assert(pre.flow_control@ == blocks0.update(
                        blocks0.len() - 1,
                        CodeBlockView {
                            pipelines: top0.pipelines + pipelines.deep_view().take(i as int),
                            ..top0
                        },
                    ));
                    assert(pre_top.collecting == top0.collecting);
                    assert(pipelines@[i as int]@.jobs[0].command != "end"@);
                    assert(pre_top.pipelines.push(pipelines@[i as int]@) =~= top0.pipelines
                        + pipelines.deep_view().take(i as int + 1));
                    assert(self.flow_control@ =~~= blocks0.update(
                        blocks0.len() - 1,
                        CodeBlockView {
                            pipelines: top0.pipelines + pipelines.deep_view().take(i as int + 1),
                            ..top0
                        },
                    ));
                }
            }
            i = i + 1;
        }
        proof {
            assert(pipelines.deep_view().take(pipelines@.len() as int) =~= pipelines.deep_view());
            if old(self).flow_control@.last().collecting && (forall|k: int|
                0 <= k < pipelines@.len() ==> #[trigger] pipelines@[k]@.jobs[0].command
                    != "end"@) {
                assert(self.flow_control@ =~~= blocks0.update(
                    blocks0.len() - 1,
                    CodeBlockView { pipelines: top0.pipelines + pipelines.deep_view(), ..top0 },
                ));
            }
        }
    }
}

} // verus!
