//! Conditional execution, nesting, and flow-control error reporting.

use ion::flow_control::{FlowError, OperandSide};
use ion::pipeline::{Job, Pipeline};
use ion::shell::{Executor, Shell};

fn pl(words: &[&str]) -> Pipeline {
    let args: Vec<String> = words.iter().map(|w| w.to_string()).collect();
    Pipeline { jobs: vec![Job { command: words[0].to_string(), args }] }
}

struct Recorder {
    calls: Vec<Vec<String>>,
    status: i32,
}

impl Recorder {
    fn new() -> Recorder {
        Recorder { calls: Vec::new(), status: 0 }
    }
}

impl Executor for Recorder {
    fn execute(&mut self, pipeline: &Pipeline) -> i32 {
        self.calls.push(pipeline.jobs[0].args.clone());
        self.status
    }
}

#[test]
fn if_true_body_executes() {
    let mut sh = Shell::new();
    let mut ex = Recorder::new();
    sh.on_command(&vec![pl(&["if", "a", "==", "a"]), pl(&["probe", "x"]), pl(&["end"])], &mut ex);
    assert_eq!(ex.calls.len(), 1);
    assert_eq!(ex.calls[0], vec!["probe".to_string(), "x".to_string()]);
    assert_eq!(sh.flow_control.blocks.len(), 1);
}

#[test]
fn if_false_body_skipped() {
    let mut sh = Shell::new();
    let mut ex = Recorder::new();
    sh.on_command(&vec![pl(&["if", "a", "==", "b"]), pl(&["probe", "x"]), pl(&["end"])], &mut ex);
    assert_eq!(ex.calls.len(), 0);
    assert_eq!(sh.flow_control.blocks.len(), 1);
}

#[test]
fn else_runs_exactly_one_branch() {
    let mut sh = Shell::new();
    let mut ex = Recorder::new();
    sh.on_command(
        &vec![
            pl(&["if", "1", ">", "2"]),
            pl(&["probe", "then"]),
            pl(&["else"]),
            pl(&["probe", "otherwise"]),
            pl(&["end"]),
        ],
        &mut ex,
    );
    assert_eq!(ex.calls.len(), 1);
    assert_eq!(ex.calls[0][1], "otherwise");
    assert_eq!(sh.flow_control.blocks.len(), 1);
}

#[test]
fn nested_false_suppresses_inner_body() {
    // inner `if` under a false branch: the inner body never executes, even
    // though the inner condition is true, and both `end`s rebalance to depth 1
    let mut sh = Shell::new();
    let mut ex = Recorder::new();
    sh.on_command(
        &vec![
            pl(&["if", "a", "==", "b"]),
            pl(&["if", "a", "==", "a"]),
            pl(&["probe", "inner"]),
            pl(&["end"]),
            pl(&["end"]),
        ],
        &mut ex,
    );
    assert_eq!(ex.calls.len(), 0);
    assert_eq!(sh.flow_control.blocks.len(), 1);
}

#[test]
fn numeric_comparators_parse_signed() {
    let mut sh = Shell::new();
    let mut ex = Recorder::new();
    // numeric, not lexicographic: 10 > 9
    sh.on_command(&vec![pl(&["if", "10", ">", "9"]), pl(&["probe", "big"]), pl(&["end"])], &mut ex);
    assert_eq!(ex.calls.len(), 1);
    sh.on_command(
        &vec![pl(&["if", "-3", "<=", "-2"]), pl(&["probe", "neg"]), pl(&["end"])],
        &mut ex,
    );
    assert_eq!(ex.calls.len(), 2);
}

#[test]
fn unknown_comparator_reported() {
    let mut sh = Shell::new();
    let mut ex = Recorder::new();
    sh.on_command(&vec![pl(&["if", "a", "~~", "b"])], &mut ex);
    assert_eq!(sh.diagnostics.len(), 1);
    assert_eq!(sh.diagnostics[0], FlowError::UnknownComparator);
    assert_eq!(sh.flow_control.blocks.len(), 1);
    assert_eq!(sh.variables.get_var("?"), Some("1".to_string()));
}

#[test]
fn missing_operands_each_distinct() {
    let mut sh = Shell::new();
    let mut ex = Recorder::new();
    sh.on_command(&vec![pl(&["if"])], &mut ex);
    sh.on_command(&vec![pl(&["if", "a"])], &mut ex);
    sh.on_command(&vec![pl(&["if", "a", "=="])], &mut ex);
    assert_eq!(
        sh.diagnostics,
        vec![
            FlowError::MissingOperand(OperandSide::Left),
            FlowError::MissingOperand(OperandSide::Comparator),
            FlowError::MissingOperand(OperandSide::Right),
        ]
    );
    assert_eq!(sh.flow_control.blocks.len(), 1);
}

#[test]
fn else_without_if_reported() {
    let mut sh = Shell::new();
    let mut ex = Recorder::new();
    sh.on_command(&vec![pl(&["else"])], &mut ex);
    assert_eq!(sh.diagnostics, vec![FlowError::ElseWithoutIf]);
    assert_eq!(sh.flow_control.blocks.len(), 1);
}

#[test]
fn unbalanced_end_leaves_depth_one() {
    let mut sh = Shell::new();
    let mut ex = Recorder::new();
    sh.on_command(&vec![pl(&["end"])], &mut ex);
    assert_eq!(sh.diagnostics, vec![FlowError::UnbalancedEnd]);
    assert_eq!(sh.flow_control.blocks.len(), 1);
    assert_eq!(sh.variables.get_var("?"), Some("1".to_string()));
}

#[test]
fn flow_control_words_processed_while_skipping() {
    // while skipping, `if`/`else`/`end` still run so depth stays consistent,
    // but other commands are discarded
    let mut sh = Shell::new();
    let mut ex = Recorder::new();
    sh.on_command(&vec![pl(&["if", "x", "==", "y"]), pl(&["if", "1", "<", "2"])], &mut ex);
    assert_eq!(sh.flow_control.blocks.len(), 3);
    sh.on_command(&vec![pl(&["probe", "hidden"]), pl(&["end"]), pl(&["end"])], &mut ex);
    assert_eq!(ex.calls.len(), 0);
    assert_eq!(sh.flow_control.blocks.len(), 1);
}

#[test]
fn true_and_false_builtins_set_status() {
    let mut sh = Shell::new();
    let mut ex = Recorder::new();
    sh.on_command(&vec![pl(&["false"])], &mut ex);
    assert_eq!(sh.variables.get_var("?"), Some("1".to_string()));
    assert_eq!(sh.previous_status, 1);
    sh.on_command(&vec![pl(&["true"])], &mut ex);
    assert_eq!(sh.variables.get_var("?"), Some("0".to_string()));
    assert_eq!(sh.previous_status, 0);
}
