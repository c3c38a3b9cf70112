//! A verified core for a declarative task runner.
//!
//! Task and environment definitions are read from per-directory definition
//! files, merged by directory proximity (closer definitions win), and
//! executed: each command of a task gets an ordered, freshly resolved
//! environment and runs in the task's working directory unless the task is
//! local.  This crate holds the configuration-resolution and execution
//! engine; process spawning and file I/O are left to the caller.

pub mod conf;
pub mod load;
pub mod ordmap;
pub mod parse;
pub mod plan;
pub mod resolve;

pub use conf::{Conf, Task};
pub use load::{load_from_texts, merge_chain, merge_level, LoadError};
pub use parse::parse_conf;
pub use plan::{collect_outputs, CommandSpec, ExecError, ExecutionMode, TaskPlan};
pub use resolve::{EvalRequest, Resolution, ResolveStep};
