//! Execution core of an interactive command-line shell: a flow-control block
//! state machine (`if`/`else`/`end`, `for`, `fn`) combined with a command
//! dispatch and scoping engine that decides, for every incoming pipeline,
//! whether to execute it immediately, buffer it for later replay, or discard
//! it.

pub mod expand;
pub mod flow_control;
pub mod functions;
pub mod laws;
pub mod numeral;
pub mod pipeline;
pub mod shell;
pub mod status;
pub mod strutil;
pub mod to_num;
pub mod variables;
