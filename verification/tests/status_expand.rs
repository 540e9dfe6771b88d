//! Exit-status round-tripping through `?`, variable expansion, and the
//! numeric reading of strings.

use ion::pipeline::{Job, Pipeline};
use ion::shell::{Executor, Shell};
use ion::to_num::to_num_signed;
use ion::numeral::i32_to_dec_string;
use ion::variables::Variables;
use ion::expand::expand_str;

fn pl(words: &[&str]) -> Pipeline {
    let args: Vec<String> = words.iter().map(|w| w.to_string()).collect();
    Pipeline { jobs: vec![Job { command: words[0].to_string(), args }] }
}

struct Recorder {
    calls: Vec<Vec<String>>,
    status: i32,
}

impl Executor for Recorder {
    fn execute(&mut self, pipeline: &Pipeline) -> i32 {
        self.calls.push(pipeline.jobs[0].args.clone());
        self.status
    }
}

#[test]
fn external_status_round_trips_through_question_mark() {
    let mut sh = Shell::new();
    let mut ex = Recorder { calls: Vec::new(), status: 42 };
    sh.on_command(&vec![pl(&["some_program"])], &mut ex);
    assert_eq!(sh.variables.get_var("?"), Some("42".to_string()));
    assert_eq!(sh.previous_status, 42);
    ex.status = -7;
    sh.on_command(&vec![pl(&["some_program"])], &mut ex);
    assert_eq!(sh.variables.get_var("?"), Some("-7".to_string()));
    assert_eq!(sh.previous_status, -7);
}

#[test]
fn question_mark_usable_in_conditions() {
    let mut sh = Shell::new();
    let mut ex = Recorder { calls: Vec::new(), status: 3 };
    sh.on_command(&vec![pl(&["some_program"])], &mut ex);
    sh.on_command(
        &vec![pl(&["if", "$?", "==", "3"]), pl(&["probe", "saw"]), pl(&["end"])],
        &mut ex,
    );
    assert_eq!(ex.calls.len(), 2);
    assert_eq!(ex.calls[1][1], "saw");
}

#[test]
fn expansion_substitutes_and_defaults_to_empty() {
    let mut vars = Variables::new();
    vars.set_var("greeting", "hello");
    assert_eq!(expand_str(&vars, "$greeting world"), "hello world".to_string());
    assert_eq!(expand_str(&vars, "say $greeting!"), "say hello!".to_string());
    assert_eq!(expand_str(&vars, "$missing"), "".to_string());
    assert_eq!(expand_str(&vars, "a$missing!b"), "a!b".to_string());
    // a `$` followed by no name stands for itself
    assert_eq!(expand_str(&vars, "us$ and $"), "us$ and $".to_string());
}

#[test]
fn expansion_is_not_recursive() {
    let mut vars = Variables::new();
    vars.set_var("a", "$b");
    vars.set_var("b", "deep");
    assert_eq!(expand_str(&vars, "$a"), "$b".to_string());
}

#[test]
fn unset_variable_expands_empty_after_unset() {
    let mut vars = Variables::new();
    vars.set_var("x", "1");
    vars.unset_var("x");
    assert_eq!(vars.get_var("x"), None);
    assert_eq!(expand_str(&vars, "[$x]"), "[]".to_string());
}

#[test]
fn to_num_parses_or_defaults_to_zero() {
    assert_eq!(to_num_signed("0"), 0);
    assert_eq!(to_num_signed("42"), 42);
    assert_eq!(to_num_signed("-13"), -13);
    assert_eq!(to_num_signed("007"), 7);
    assert_eq!(to_num_signed(""), 0);
    assert_eq!(to_num_signed("-"), 0);
    assert_eq!(to_num_signed("12x"), 0);
    assert_eq!(to_num_signed("9223372036854775807"), 9223372036854775807);
    assert_eq!(to_num_signed("-9223372036854775808"), -9223372036854775808);
    // out of range: no numeric reading
    assert_eq!(to_num_signed("9223372036854775808"), 0);
    assert_eq!(to_num_signed("99999999999999999999999"), 0);
}

#[test]
fn decimal_rendering_exact() {
    assert_eq!(i32_to_dec_string(0), "0".to_string());
    assert_eq!(i32_to_dec_string(127), "127".to_string());
    assert_eq!(i32_to_dec_string(-1), "-1".to_string());
    assert_eq!(i32_to_dec_string(2147483647), "2147483647".to_string());
    assert_eq!(i32_to_dec_string(-2147483648), "-2147483648".to_string());
}

#[test]
fn let_builtin_sets_variables() {
    let mut sh = Shell::new();
    let mut ex = Recorder { calls: Vec::new(), status: 0 };
    sh.on_command(&vec![pl(&["let", "x", "=", "5"])], &mut ex);
    assert_eq!(sh.variables.get_var("x"), Some("5".to_string()));
    assert_eq!(sh.variables.get_var("?"), Some("0".to_string()));
    // the binding is usable in conditions right away
    sh.on_command(
        &vec![pl(&["if", "$x", ">=", "4"]), pl(&["probe", "yes"]), pl(&["end"])],
        &mut ex,
    );
    assert_eq!(ex.calls.len(), 1);
    // any other shape is reported and binds nothing
    sh.on_command(&vec![pl(&["let", "y", "5"])], &mut ex);
    assert_eq!(sh.variables.get_var("y"), None);
    assert_eq!(sh.variables.get_var("?"), Some("1".to_string()));
    assert!(sh.diagnostics.contains(&ion::flow_control::FlowError::LetSyntaxError));
}

#[test]
fn variable_store_last_write_wins() {
    let mut vars = Variables::new();
    vars.set_var("k", "one");
    vars.set_var("k", "two");
    assert_eq!(vars.get_var("k"), Some("two".to_string()));
    vars.unset_var("k");
    assert_eq!(vars.get_var("k"), None);
    assert_eq!(vars.get_var("other"), None);
}
