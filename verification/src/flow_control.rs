//! The flow-control block stack: a non-empty stack of frames, one per open
//! `if`/`for`/`fn` construct, with a `Default` sentinel at the bottom. Frames
//! of collecting kind (`for`, `fn`) buffer incoming pipelines until `end`.

use vstd::prelude::*;
use crate::pipeline::{Pipeline, PipelineView};
use crate::strutil::{str_eq, copy_string};
use crate::to_num::{num_of, to_num_signed};

verus! {

/// True of the command words that are still processed while an enclosing
/// `if` branch is being skipped, so that nesting depth stays consistent.
pub open spec fn spec_is_flow_control(c: Seq<char>) -> bool {
    c == "end"@ || c == "if"@ || c == "else"@
}

/// Whether `command` is one of the flow-control words `end`, `if`, `else`.
pub fn is_flow_control_command(command: &str) -> (r: bool)
    ensures
        r == spec_is_flow_control(command@),
{
    str_eq(command, "end") || str_eq(command, "if") || str_eq(command, "else")
}

/// Why a block exists.
pub enum Statement {
    /// The implicit root frame.
    Default,
    /// A conditional with its evaluated truth value; `else` flips it in place.
    If(bool),
    /// A loop: variable name and the literal value list to iterate.
    For(String, Vec<String>),
    /// A pending function definition: name and parameter list.
    Function(String, Vec<String>),
}

/// Mathematical value of a `Statement`.
#[verifier::ext_equal]
pub enum StatementView {
    Default,
    If(bool),
    For(Seq<char>, Seq<Seq<char>>),
    Function(Seq<char>, Seq<Seq<char>>),
}

impl View for Statement {
    type V = StatementView;

    open spec fn view(&self) -> StatementView {
        match self {
            Statement::Default => StatementView::Default,
            Statement::If(c) => StatementView::If(*c),
            Statement::For(v, vals) => StatementView::For(v@, vals.deep_view()),
            Statement::Function(n, params) => StatementView::Function(n@, params.deep_view()),
        }
    }
}

/// Whether a statement's block buffers its body until `end`.
pub open spec fn stmt_collects(s: StatementView) -> bool {
    s is For || s is Function
}

/// One stack frame: the statement it was opened for, whether it buffers
/// incoming pipelines, and the buffered body so far.
pub struct CodeBlock {
    pub statement: Statement,
    pub collecting: bool,
    pub pipelines: Vec<Pipeline>,
}

/// Mathematical value of a `CodeBlock`.
#[verifier::ext_equal]
pub struct CodeBlockView {
    pub statement: StatementView,
    pub collecting: bool,
    pub pipelines: Seq<PipelineView>,
}

impl View for CodeBlock {
    type V = CodeBlockView;

    open spec fn view(&self) -> CodeBlockView {
        CodeBlockView {
            statement: self.statement@,
            collecting: self.collecting,
            pipelines: self.pipelines.deep_view(),
        }
    }
}

impl DeepView for CodeBlock {
    type V = CodeBlockView;

    open spec fn deep_view(&self) -> CodeBlockView {
        self.view()
    }
}

impl CodeBlockView {
    /// A frame is well formed when its collecting flag agrees with its
    /// statement kind and every buffered pipeline can be dispatched.
    pub open spec fn wf(self) -> bool {
        &&& self.collecting == stmt_collects(self.statement)
        &&& forall|i: int| 0 <= i < self.pipelines.len() ==> #[trigger] self.pipelines[i].wf()
    }
}

/// The block of a freshly evaluated `if`.
pub open spec fn if_block(c: bool) -> CodeBlockView {
    CodeBlockView { statement: StatementView::If(c), collecting: false, pipelines: Seq::empty() }
}

/// The block of a freshly opened `for`.
pub open spec fn for_block(variable: Seq<char>, values: Seq<Seq<char>>) -> CodeBlockView {
    CodeBlockView {
        statement: StatementView::For(variable, values),
        collecting: true,
        pipelines: Seq::empty(),
    }
}

/// The block of a pending function definition.
pub open spec fn fn_block(name: Seq<char>, params: Seq<Seq<char>>) -> CodeBlockView {
    CodeBlockView {
        statement: StatementView::Function(name, params),
        collecting: true,
        pipelines: Seq::empty(),
    }
}

/// Whether any frame of the stack is a false `if`: once inside a false
/// branch, all nested ordinary commands are suppressed.
pub open spec fn skipping_in(blocks: Seq<CodeBlockView>) -> bool {
    exists|i: int| 0 <= i < blocks.len() && blocks[i].statement == StatementView::If(false)
}

/// Reported, non-fatal errors of the flow-control and dispatch engine.
#[derive(Clone, Copy, PartialEq, Eq, Structural, Debug)]
pub enum OperandSide {
    Left,
    Comparator,
    Right,
}

/// Everything the engine reports without aborting: bad `if`/`for`/`fn`
/// syntax, unbalanced block keywords, and function-call failures.
#[derive(Clone, Copy, PartialEq, Eq, Structural, Debug)]
pub enum FlowError {
    /// `if` is missing its left operand, comparator, or right operand.
    MissingOperand(OperandSide),
    /// `if` was given a comparator outside `==`, `!=`, `>`, `>=`, `<`, `<=`.
    UnknownComparator,
    /// `else` with no enclosing `if` block.
    ElseWithoutIf,
    /// `end` with only the sentinel frame left on the stack.
    UnbalancedEnd,
    /// `for` is missing its variable or the literal `in`.
    ForSyntaxError,
    /// `fn` is missing the function name.
    MissingFunctionName,
    /// `let` was not given `NAME = VALUE`.
    LetSyntaxError,
    /// A function was called with the wrong number of arguments.
    ArityMismatch { expected: usize, actual: usize },
    /// A function call chain exceeded the engine's recursion budget.
    CallDepthExceeded,
}

/// The comparators `if` understands.
pub open spec fn known_comparator(c: Seq<char>) -> bool {
    ||| c == "=="@
    ||| c == "!="@
    ||| c == ">"@
    ||| c == ">="@
    ||| c == "<"@
    ||| c == "<="@
}

/// Truth value of `l CMP r`: literal equality for `==`/`!=`, signed numeric
/// comparison for the ordering comparators.
pub open spec fn eval_cond(l: Seq<char>, c: Seq<char>, r: Seq<char>) -> bool {
    if c == "=="@ {
        l == r
    } else if c == "!="@ {
        l != r
    } else if c == ">"@ {
        num_of(l) > num_of(r)
    } else if c == ">="@ {
        num_of(l) >= num_of(r)
    } else if c == "<"@ {
        num_of(l) < num_of(r)
    } else {
        num_of(l) <= num_of(r)
    }
}

/// What `if` does with its arguments (`args[0]` is the word `if` itself):
/// the evaluated condition, or the distinct error for each missing operand,
/// or an unknown comparator.
pub open spec fn if_step(args: Seq<Seq<char>>) -> Result<bool, FlowError> {
    if args.len() < 2 {
        Err(FlowError::MissingOperand(OperandSide::Left))
    } else if args.len() < 3 {
        Err(FlowError::MissingOperand(OperandSide::Comparator))
    } else if args.len() < 4 {
        Err(FlowError::MissingOperand(OperandSide::Right))
    } else if !known_comparator(args[2]) {
        Err(FlowError::UnknownComparator)
    } else {
        Ok(eval_cond(args[1], args[2], args[3]))
    }
}

/// What `for` does with its arguments: the loop variable and value list,
/// or a syntax error when the variable or the literal `in` is missing.
pub open spec fn for_step(args: Seq<Seq<char>>) -> Result<(Seq<char>, Seq<Seq<char>>), FlowError> {
    if args.len() < 2 {
        Err(FlowError::ForSyntaxError)
    } else if args.len() < 3 || args[2] != "in"@ {
        Err(FlowError::ForSyntaxError)
    } else {
        Ok((args[1], args.skip(3)))
    }
}

/// What `let` does with its arguments: the binding `NAME = VALUE`, or a
/// syntax error for any other shape.
pub open spec fn let_step(args: Seq<Seq<char>>) -> Result<(Seq<char>, Seq<char>), FlowError> {
    if args.len() == 4 && args[2] == "="@ {
        Ok((args[1], args[3]))
    } else {
        Err(FlowError::LetSyntaxError)
    }
}

/// What `fn` does with its arguments: the function name and parameter list,
/// or an error when the name is missing.
pub open spec fn fn_step(args: Seq<Seq<char>>) -> Result<(Seq<char>, Seq<Seq<char>>), FlowError> {
    if args.len() < 2 {
        Err(FlowError::MissingFunctionName)
    } else {
        Ok((args[1], args.skip(2)))
    }
}

/// Marker for a block's execution mode.
pub struct Mode {
    pub value: bool,
}

/// The stack of open flow-control blocks, bottom sentinel included.
pub struct FlowControl {
    pub blocks: Vec<CodeBlock>,
}

impl View for FlowControl {
    type V = Seq<CodeBlockView>;

    open spec fn view(&self) -> Seq<CodeBlockView> {
        self.blocks.deep_view()
    }
}

impl FlowControl {
    /// The stack never loses its bottom `Default` sentinel, and every frame
    /// is well formed.
    pub open spec fn wf(self) -> bool {
        &&& self@.len() >= 1
        &&& self@[0].statement is Default
        &&& forall|i: int| 0 <= i < self@.len() ==> (#[trigger] self@[i]).wf()
    }

    /// See `skipping_in`.
    pub open spec fn spec_skipping(self) -> bool {
        skipping_in(self@)
    }

    /// A stack holding only the sentinel frame.
    pub fn new() -> (r: FlowControl)
        ensures
            r.wf(),
            r@.len() == 1,
            r@[0].statement is Default,
            !r@[0].collecting,
            r@[0].pipelines.len() == 0,
            !r.spec_skipping(),
    {
        let mut blocks: Vec<CodeBlock> = Vec::new();
        blocks.push(CodeBlock { statement: Statement::Default, collecting: false, pipelines: Vec::new() });
        let r = FlowControl { blocks };
        proof {
            assert(r@[0].pipelines =~= Seq::<PipelineView>::empty());
        }
        r
    }

    /// True iff any frame in the stack is a false `if`.
    pub fn skipping(&self) -> (r: bool)
        ensures
            r == self.spec_skipping(),
    {
        let mut i: usize = 0;
        while i < self.blocks.len()
            invariant
                i <= self.blocks.len(),
                !skipping_in(self@.take(i as int)),
            decreases self.blocks.len() - i,
        {
            match &self.blocks[i].statement {
                Statement::If(value) => {
                    if !*value {
                        proof {
                            assert(self@[i as int].statement == StatementView::If(false));
                        }
                        return true;
                    }
                },
                _ => {},
            }
            proof {
                assert(!skipping_in(self@.take(i as int + 1))) by {
                    assert(forall|k: int| 0 <= k < i ==> self@.take(i as int + 1)[k] == #[trigger] self@.take(i as int)[k]);
                    assert(self@.take(i as int + 1)[i as int] == self@[i as int]);
                    assert(self@[i as int].statement != StatementView::If(false));
                }
            }
            i = i + 1;
        }
        proof {
            assert(self@.take(self@.len() as int) =~= self@);
        }
        false
    }

    /// Evaluate `if LEFT CMP RIGHT` and push the conditional block, or report
    /// the distinct error for whichever part is missing or unknown; on error
    /// the stack is unchanged.
    pub fn if_(&mut self, args: &Vec<String>) -> (r: Result<(), FlowError>)
        requires
            old(self).wf(),
        ensures
            final(self).wf(),
            match if_step(args.deep_view()) {
                Ok(c) => r == Ok::<(), FlowError>(()) && final(self)@ == old(self)@.push(if_block(c)),
                Err(e) => r == Err::<(), FlowError>(e) && final(self)@ == old(self)@,
            },
    {
        if args.len() < 2 {
            return Err(FlowError::MissingOperand(OperandSide::Left));
        }
        if args.len() < 3 {
            return Err(FlowError::MissingOperand(OperandSide::Comparator));
        }
        if args.len() < 4 {
            return Err(FlowError::MissingOperand(OperandSide::Right));
        }
        let left = &args[1];
        let cmp = &args[2];
        let right = &args[3];
        let value: bool;
        if str_eq(cmp.as_str(), "==") {
            value = str_eq(left.as_str(), right.as_str());
        } else if str_eq(cmp.as_str(), "!=") {
            value = !str_eq(left.as_str(), right.as_str());
        } else if str_eq(cmp.as_str(), ">") {
            value = to_num_signed(left.as_str()) > to_num_signed(right.as_str());
        } else if str_eq(cmp.as_str(), ">=") {
            value = to_num_signed(left.as_str()) >= to_num_signed(right.as_str());
        } else if str_eq(cmp.as_str(), "<") {
            value = to_num_signed(left.as_str()) < to_num_signed(right.as_str());
        } else if str_eq(cmp.as_str(), "<=") {
            value = to_num_signed(left.as_str()) <= to_num_signed(right.as_str());
        } else {
            return Err(FlowError::UnknownComparator);
        }
        self.blocks.push(CodeBlock { statement: Statement::If(value), collecting: false, pipelines: Vec::new() });
        proof {
            assert(self@ =~~= old(self)@.push(if_block(value)));
        }
        Ok(())
    }

    /// Flip the condition of the top `if` block; report `ElseWithoutIf` and
    /// leave the stack unchanged when the top block is not an `if`.
    pub fn else_(&mut self, _args: &Vec<String>) -> (r: Result<(), FlowError>)
        requires
            old(self).wf(),
        ensures
            final(self).wf(),
            match old(self)@.last().statement {
                StatementView::If(c) => r == Ok::<(), FlowError>(()) && final(self)@ == old(self)@.update(
                    old(self)@.len() - 1,
                    CodeBlockView { statement: StatementView::If(!c), ..old(self)@.last() },
                ),
                _ => r == Err::<(), FlowError>(FlowError::ElseWithoutIf) && final(self)@ == old(self)@,
            },
    {
        let top = self.blocks.pop().unwrap();
        match top.statement {
            Statement::If(c) => {
                self.blocks.push(CodeBlock {
                    statement: Statement::If(!c),
                    collecting: top.collecting,
                    pipelines: top.pipelines,
                });
                proof {
                    assert(self@ =~~= old(self)@.update(
                        old(self)@.len() - 1,
                        CodeBlockView { statement: StatementView::If(!c), ..old(self)@.last() },
                    ));
                }
                Ok(())
            },
            _ => {
                self.blocks.push(top);
                proof {
                    assert(self@ =~~= old(self)@);
                }
                Err(FlowError::ElseWithoutIf)
            },
        }
    }

    /// Pop the top block; report `UnbalancedEnd` and leave the stack at depth
    /// one when only the sentinel remains.
    pub fn end(&mut self, _args: &Vec<String>) -> (r: Result<(), FlowError>)
        requires
            old(self).wf(),
        ensures
            final(self).wf(),
            old(self)@.len() > 1 ==> r == Ok::<(), FlowError>(()) && final(self)@ == old(self)@.drop_last(),
            old(self)@.len() <= 1 ==> r == Err::<(), FlowError>(FlowError::UnbalancedEnd)
                && final(self)@ == old(self)@,
    {
        if self.blocks.len() > 1 {
            self.blocks.pop();
            proof {
                assert(self@ =~~= old(self)@.drop_last());
            }
            Ok(())
        } else {
            Err(FlowError::UnbalancedEnd)
        }
    }

    /// Parse `for VARIABLE in VALUES...` and push the collecting loop block;
    /// report `ForSyntaxError` and leave the stack unchanged when the
    /// variable or the literal `in` is missing.
    pub fn for_(&mut self, args: &Vec<String>) -> (r: Result<(), FlowError>)
        requires
            old(self).wf(),
        ensures
            final(self).wf(),
            match for_step(args.deep_view()) {
                Ok(parts) => r == Ok::<(), FlowError>(()) && final(self)@ == old(self)@.push(
                    for_block(parts.0, parts.1),
                ),
                Err(e) => r == Err::<(), FlowError>(e) && final(self)@ == old(self)@,
            },
    {
        if args.len() < 2 {
            return Err(FlowError::ForSyntaxError);
        }
        if args.len() < 3 {
            return Err(FlowError::ForSyntaxError);
        }
        if !str_eq(args[2].as_str(), "in") {
            return Err(FlowError::ForSyntaxError);
        }
        let variable = copy_string(args[1].as_str());
        let mut values: Vec<String> = Vec::new();
        let mut i: usize = 3;
        while i < args.len()
            invariant
                3 <= i <= args.len(),
                values@.len() == i - 3,
                forall|k: int| 0 <= k < i - 3 ==> values@[k]@ == #[trigger] args@[k + 3]@,
            decreases args.len() - i,
        {
            values.push(copy_string(args[i].as_str()));
            i = i + 1;
        }
        proof {
            assert(values.deep_view() =~~= args.deep_view().skip(3));
        }
        self.blocks.push(CodeBlock {
            statement: Statement::For(variable, values),
            collecting: true,
            pipelines: Vec::new(),
        });
        proof {
            assert(self@ =~~= old(self)@.push(
                for_block(args.deep_view()[1], args.deep_view().skip(3)),
            ));
        }
        Ok(())
    }

    /// Parse `fn NAME PARAMS...` and push the collecting definition block;
    /// report the missing name and leave the stack unchanged otherwise.
    pub fn fn_(&mut self, args: &Vec<String>) -> (r: Result<(), FlowError>)
        requires
            old(self).wf(),
        ensures
            final(self).wf(),
            match fn_step(args.deep_view()) {
                Ok(parts) => r == Ok::<(), FlowError>(()) && final(self)@ == old(self)@.push(
                    fn_block(parts.0, parts.1),
                ),
                Err(e) => r == Err::<(), FlowError>(e) && final(self)@ == old(self)@,
            },
    {
        if args.len() < 2 {
            return Err(FlowError::MissingFunctionName);
        }
        let name = copy_string(args[1].as_str());
        let mut params: Vec<String> = Vec::new();
        let mut i: usize = 2;
        while i < args.len()
            invariant
                2 <= i <= args.len(),
                params@.len() == i - 2,
                forall|k: int| 0 <= k < i - 2 ==> params@[k]@ == #[trigger] args@[k + 2]@,
            decreases args.len() - i,
        {
            params.push(copy_string(args[i].as_str()));
            i = i + 1;
        }
        proof {
            assert(params.deep_view() =~~= args.deep_view().skip(2));
        }
        self.blocks.push(CodeBlock {
            statement: Statement::Function(name, params),
            collecting: true,
            pipelines: Vec::new(),
        });
        proof {
            assert(self@ =~~= old(self)@.push(
                fn_block(args.deep_view()[1], args.deep_view().skip(2)),
            ));
        }
        Ok(())
    }
}

} // verus!
