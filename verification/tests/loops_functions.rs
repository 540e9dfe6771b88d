//! Loop replay, function definition, call scoping, and arity checking.

use ion::flow_control::FlowError;
use ion::pipeline::{Job, Pipeline};
use ion::shell::{Action, Executor, Shell};

fn pl(words: &[&str]) -> Pipeline {
    let args: Vec<String> = words.iter().map(|w| w.to_string()).collect();
    Pipeline { jobs: vec![Job { command: words[0].to_string(), args }] }
}

struct Recorder {
    calls: Vec<Vec<String>>,
    status: i32,
}

impl Recorder {
    fn new() -> Recorder {
        Recorder { calls: Vec::new(), status: 0 }
    }
}

impl Executor for Recorder {
    fn execute(&mut self, pipeline: &Pipeline) -> i32 {
        self.calls.push(pipeline.jobs[0].args.clone());
        self.status
    }
}

#[test]
fn for_runs_body_once_per_value_in_order() {
    let mut sh = Shell::new();
    let mut ex = Recorder::new();
    sh.on_command(
        &vec![pl(&["for", "x", "in", "a", "b", "c"]), pl(&["probe", "$x"]), pl(&["end"])],
        &mut ex,
    );
    assert_eq!(ex.calls.len(), 3);
    assert_eq!(ex.calls[0][1], "a");
    assert_eq!(ex.calls[1][1], "b");
    assert_eq!(ex.calls[2][1], "c");
    // the loop variable retains its final value after the loop
    assert_eq!(sh.variables.get_var("x"), Some("c".to_string()));
    assert_eq!(sh.flow_control.blocks.len(), 1);
}

#[test]
fn for_with_empty_list_runs_zero_times() {
    let mut sh = Shell::new();
    let mut ex = Recorder::new();
    sh.on_command(&vec![pl(&["for", "x", "in"]), pl(&["probe", "$x"]), pl(&["end"])], &mut ex);
    assert_eq!(ex.calls.len(), 0);
    assert_eq!(sh.variables.get_var("x"), None);
    assert_eq!(sh.flow_control.blocks.len(), 1);
}

#[test]
fn for_syntax_errors_reported() {
    let mut sh = Shell::new();
    let mut ex = Recorder::new();
    sh.on_command(&vec![pl(&["for"])], &mut ex);
    sh.on_command(&vec![pl(&["for", "x"])], &mut ex);
    sh.on_command(&vec![pl(&["for", "x", "of", "a"])], &mut ex);
    assert_eq!(
        sh.diagnostics,
        vec![FlowError::ForSyntaxError, FlowError::ForSyntaxError, FlowError::ForSyntaxError]
    );
    assert_eq!(sh.flow_control.blocks.len(), 1);
}

#[test]
fn function_body_sees_argument_and_binding_reverts() {
    let mut sh = Shell::new();
    let mut ex = Recorder::new();
    sh.variables.set_var("name", "outer");
    sh.on_command(
        &vec![pl(&["fn", "greet", "name"]), pl(&["probe", "$name"]), pl(&["end"])],
        &mut ex,
    );
    // no execution at definition time
    assert_eq!(ex.calls.len(), 0);
    sh.on_command(&vec![pl(&["greet", "bob"])], &mut ex);
    assert_eq!(ex.calls.len(), 1);
    assert_eq!(ex.calls[0][1], "bob");
    assert_eq!(sh.variables.get_var("name"), Some("outer".to_string()));
    // a second call behaves the same
    sh.on_command(&vec![pl(&["greet", "eve"])], &mut ex);
    assert_eq!(ex.calls.len(), 2);
    assert_eq!(ex.calls[1][1], "eve");
    assert_eq!(sh.variables.get_var("name"), Some("outer".to_string()));
}

#[test]
fn parameter_unbound_before_call_reverts_to_unbound() {
    let mut sh = Shell::new();
    let mut ex = Recorder::new();
    sh.on_command(&vec![pl(&["fn", "greet", "name"]), pl(&["probe", "$name"]), pl(&["end"])], &mut ex);
    sh.on_command(&vec![pl(&["greet", "bob"])], &mut ex);
    assert_eq!(ex.calls[0][1], "bob");
    assert_eq!(sh.variables.get_var("name"), None);
}

#[test]
fn arity_mismatch_binds_nothing() {
    let mut sh = Shell::new();
    let mut ex = Recorder::new();
    sh.on_command(
        &vec![pl(&["fn", "pair", "a", "b"]), pl(&["probe", "$a", "$b"]), pl(&["end"])],
        &mut ex,
    );
    sh.on_command(&vec![pl(&["pair", "only"])], &mut ex);
    assert_eq!(ex.calls.len(), 0);
    assert_eq!(sh.diagnostics, vec![FlowError::ArityMismatch { expected: 2, actual: 1 }]);
    assert_eq!(sh.variables.get_var("a"), None);
    assert_eq!(sh.variables.get_var("b"), None);
    assert_eq!(sh.variables.get_var("?"), Some("127".to_string()));
    assert_eq!(sh.previous_status, 127);
}

#[test]
fn fn_without_name_reported() {
    let mut sh = Shell::new();
    let mut ex = Recorder::new();
    sh.on_command(&vec![pl(&["fn"])], &mut ex);
    assert_eq!(sh.diagnostics, vec![FlowError::MissingFunctionName]);
    assert_eq!(sh.flow_control.blocks.len(), 1);
}

#[test]
fn redefining_function_replaces_body() {
    let mut sh = Shell::new();
    let mut ex = Recorder::new();
    sh.on_command(&vec![pl(&["fn", "f"]), pl(&["probe", "one"]), pl(&["end"])], &mut ex);
    sh.on_command(&vec![pl(&["fn", "f"]), pl(&["probe", "two"]), pl(&["end"])], &mut ex);
    sh.on_command(&vec![pl(&["f"])], &mut ex);
    assert_eq!(ex.calls.len(), 1);
    assert_eq!(ex.calls[0][1], "two");
}

#[test]
fn empty_function_body_reports_no_status() {
    let mut sh = Shell::new();
    let mut ex = Recorder::new();
    sh.on_command(&vec![pl(&["false"])], &mut ex);
    assert_eq!(sh.previous_status, 1);
    sh.on_command(&vec![pl(&["fn", "noop"]), pl(&["end"])], &mut ex);
    // defining `noop` ran `end`, so ? is 0; calling it leaves ? untouched
    sh.on_command(&vec![pl(&["false"])], &mut ex);
    sh.on_command(&vec![pl(&["noop"])], &mut ex);
    assert_eq!(sh.variables.get_var("?"), Some("1".to_string()));
    assert_eq!(sh.previous_status, 1);
}

#[test]
fn function_result_is_last_pipeline_status() {
    let mut sh = Shell::new();
    let mut ex = Recorder::new();
    sh.on_command(&vec![pl(&["fn", "f"]), pl(&["true"]), pl(&["false"]), pl(&["end"])], &mut ex);
    sh.on_command(&vec![pl(&["f"])], &mut ex);
    assert_eq!(sh.variables.get_var("?"), Some("1".to_string()));
    assert_eq!(sh.previous_status, 1);
}

#[test]
fn self_recursive_function_hits_depth_limit() {
    let mut sh = Shell::new();
    let mut ex = Recorder::new();
    sh.on_command(&vec![pl(&["fn", "again"]), pl(&["again"]), pl(&["end"])], &mut ex);
    sh.on_command(&vec![pl(&["again"])], &mut ex);
    assert!(sh.diagnostics.contains(&FlowError::CallDepthExceeded));
    assert_eq!(sh.previous_status, 1);
}

#[test]
fn source_is_handed_to_the_host() {
    let mut sh = Shell::new();
    let mut ex = Recorder::new();
    sh.variables.set_var("f", "setup.ion");
    // the engine decides: a dispatchable `source FILE` becomes a read request,
    // with the path expanded, and the shell state untouched
    let act = sh.on_pipeline_act(pl(&["source", "$f"]), &mut ex);
    match act {
        Action::ReadFile(path) => assert_eq!(path, "setup.ion".to_string()),
        Action::Done(_) => panic!("expected a file-read action"),
    }
    assert_eq!(ex.calls.len(), 0);
    assert_eq!(sh.flow_control.blocks.len(), 1);
    // while an enclosing `if` is false, a source line is discarded like any
    // ordinary command
    sh.on_command(&vec![pl(&["if", "a", "==", "b"])], &mut ex);
    let act2 = sh.on_pipeline_act(pl(&["source", "other.ion"]), &mut ex);
    assert!(matches!(act2, Action::Done(None)));
    sh.on_command(&vec![pl(&["end"])], &mut ex);
    // inside a function definition, a source line is buffered, not read
    sh.on_command(&vec![pl(&["fn", "f"])], &mut ex);
    let act3 = sh.on_pipeline_act(pl(&["source", "other.ion"]), &mut ex);
    assert!(matches!(act3, Action::Done(None)));
    assert_eq!(sh.flow_control.blocks.len(), 2);
}

#[test]
fn host_records_source_outcome() {
    let mut sh = Shell::new();
    let mut ex = Recorder::new();
    sh.on_command(&vec![pl(&["probe"])], &mut ex);
    sh.record_status(1);
    assert_eq!(sh.variables.get_var("?"), Some("1".to_string()));
    assert_eq!(sh.previous_status, 1);
}
