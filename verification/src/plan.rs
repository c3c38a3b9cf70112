//! Planning a task's execution and assembling its results.
//!
//! Looking a task up, deciding each command's candidate environment,
//! working directory and arguments, and reassembling the commands' captured
//! outputs in declaration order are all decided here; spawning the actual
//! processes — possibly in parallel — is the caller's job.

use crate::conf::Conf;
use crate::ordmap::{
    bound_to, combined, copy_strings, copy_table, entry_extend, has_name, lemma_entries_deep_view,
    lemma_vec_deep_view,
};
use vstd::pervasive::arbitrary;
use vstd::prelude::*;

verus! {

/// Whether command output is handed back or streamed through.
#[derive(Debug)]
pub enum ExecutionMode {
    /// Spawn and wait, streaming the child's output; every command's
    /// contribution to the aggregate result is empty.
    Production,
    /// Capture each command's standard output as text.
    Capture,
}

/// Why execution failed.
#[derive(Debug)]
pub enum ExecError {
    /// No task of this name exists.
    TaskNotFound(String),
    /// Shell evaluation of an environment expression failed: the binding's
    /// name and the underlying message.
    EnvEval { key: String, cause: String },
    /// A command process could not be created or waited for.
    Spawn(String),
}

impl ExecError {
    /// A printable description of the failure.
    pub fn message(&self) -> (r: String)
        ensures
            match self {
                ExecError::TaskNotFound(_) => r@ == "Task not found"@,
                ExecError::EnvEval { key, cause } => r@ == "Failed to evaluate "@ + key@ + ": "@
                    + cause@,
                ExecError::Spawn(m) => r@ == "Failed to run command: "@ + m@,
            },
    {
        match self {
            ExecError::TaskNotFound(_) => String::from_str("Task not found"),
            ExecError::EnvEval { key, cause } => String::from_str("Failed to evaluate ").concat(
                key.as_str(),
            ).concat(": ").concat(cause.as_str()),
            ExecError::Spawn(m) => String::from_str("Failed to run command: ").concat(m.as_str()),
        }
    }
}

/// Mathematical value of a [`CommandSpec`].
#[verifier::ext_equal]
pub ghost struct CommandSpecView {
    pub script: Seq<char>,
    pub env_plan: Seq<(Seq<char>, Seq<char>)>,
    pub args: Seq<Seq<char>>,
    pub workdir: Option<Seq<char>>,
    pub local: bool,
}

/// Everything needed to run one command of a task.
#[derive(Debug)]
pub struct CommandSpec {
    /// The raw command body.
    pub script: String,
    /// The candidate environment bindings for this command, to be resolved
    /// through [`crate::resolve::Resolution`] just before spawning.
    pub env_plan: Vec<(String, String)>,
    /// The positional arguments, passed on to the command invocation.
    pub args: Vec<String>,
    /// The configured working directory, if any.
    pub workdir: Option<String>,
    /// Run in the caller's current directory, ignoring `workdir`.
    pub local: bool,
}

impl View for CommandSpec {
    type V = CommandSpecView;

    open spec fn view(&self) -> CommandSpecView {
        CommandSpecView {
            script: self.script@,
            env_plan: self.env_plan.deep_view(),
            args: self.args.deep_view(),
            workdir: match self.workdir {
                Some(d) => Some(d@),
                None => None,
            },
            local: self.local,
        }
    }
}

impl DeepView for CommandSpec {
    type V = CommandSpecView;

    open spec fn deep_view(&self) -> CommandSpecView {
        self.view()
    }
}

impl CommandSpec {
    /// The directory to spawn in: `None` means the caller's own current
    /// directory — always so for a local task, whatever `workdir` says.
    pub fn effective_workdir(&self) -> (r: Option<&String>)
        ensures
            self@.local ==> r is None,
            !self@.local ==> match r {
                Some(d) => self@.workdir == Some(d@),
                None => self@.workdir is None,
            },
    {
        if self.local {
            None
        } else {
            self.workdir.as_ref()
        }
    }
}

/// The full plan for one task invocation: one entry per command body, in
/// declaration order, and the execution mode.
#[derive(Debug)]
pub struct TaskPlan {
    /// One spec per command body, in declaration order.
    pub commands: Vec<CommandSpec>,
    /// Whether to capture or stream the commands' output.
    pub mode: ExecutionMode,
}

impl Conf {
    /// Plan the execution of the named task: one command spec per command
    /// body, in declaration order, each carrying the candidate environment
    /// (the global table extended by the task's own), the positional
    /// arguments, and the task's working-directory decision.  Fails with
    /// `TaskNotFound` exactly when no task has this name.
    pub fn plan_task(&self, name: &String, args: &Vec<String>, mode: ExecutionMode) -> (r: Result<
        TaskPlan,
        ExecError,
    >)
        ensures
            match r {
                Ok(p) => has_name(self@.tasks, name@) && {
                    let t = bound_to(self@.tasks, name@);
                    &&& p.mode == mode
                    &&& p.commands.deep_view().len() == t.cmd.len()
                    &&& forall|i: int|
                        0 <= i < t.cmd.len() ==> (#[trigger] p.commands.deep_view()[i])
                            == (CommandSpecView {
                            script: t.cmd[i],
                            env_plan: combined(self@.env, t.env),
                            args: args.deep_view(),
                            workdir: t.workdir,
                            local: t.local,
                        })
                },
                Err(e) => !has_name(self@.tasks, name@) && e == ExecError::TaskNotFound(*name),
            },
    {
        broadcast use lemma_vec_deep_view;

        let task = match self.get_task(name) {
            Some(t) => t,
            None => {
                return Err(ExecError::TaskNotFound(name.clone()));
            },
        };
        let ghost tv = bound_to(self@.tasks, name@);
        let mut commands: Vec<CommandSpec> = Vec::new();
        let n = task.cmd.len();
        let mut i: usize = 0;
        while i < n
            invariant
                n == task.cmd@.len(),
                i <= n,
                task@ == tv,
                commands@.len() == i,
                forall|j: int|
                    0 <= j < i ==> (#[trigger] commands.deep_view()[j]) == (CommandSpecView {
                        script: tv.cmd[j],
                        env_plan: combined(self@.env, tv.env),
                        args: args.deep_view(),
                        workdir: tv.workdir,
                        local: tv.local,
                    }),
            decreases n - i,
        {
            let mut env_plan = copy_table(&self.env);
            let overrides = copy_table(&task.env);
            entry_extend(&mut env_plan, overrides);
            let spec_i = CommandSpec {
                script: task.cmd[i].clone(),
                env_plan,
                args: copy_strings(args),
                workdir: match &task.workdir {
                    Some(d) => Some(d.clone()),
                    None => None,
                },
                local: task.local,
            };
            let ghost prev = commands;
            commands.push(spec_i);
            proof {
                assert forall|j: int| 0 <= j <= i as int implies (#[trigger] commands.deep_view()[
                j]) == (CommandSpecView {
                    script: tv.cmd[j],
                    env_plan: combined(self@.env, tv.env),
                    args: args.deep_view(),
                    workdir: tv.workdir,
                    local: tv.local,
                }) by {
                    assert(commands.deep_view()[j] == commands@[j]@);
                    if j < i as int {
                        assert(commands@[j] == prev@[j]);
                        assert(prev.deep_view()[j] == prev@[j]@);
                    } else {
                        assert(commands@[j]@ =~= (CommandSpecView {
                            script: tv.cmd[j],
                            env_plan: combined(self@.env, tv.env),
                            args: args.deep_view(),
                            workdir: tv.workdir,
                            local: tv.local,
                        }));
                    }
                }
            }
            i += 1;
        }
        Ok(TaskPlan { commands, mode })
    }
}

/// Whether every command finished without a spawn failure.
pub open spec fn all_ok(rs: Seq<Result<String, ExecError>>) -> bool {
    forall|i: int| 0 <= i < rs.len() ==> (#[trigger] rs[i]) is Ok
}

/// The captured outputs, concatenated in declaration order.
pub open spec fn concat_ok(rs: Seq<Result<String, ExecError>>) -> Seq<char>
    decreases rs.len(),
{
    if rs.len() == 0 {
        Seq::empty()
    } else {
        match rs[0] {
            Ok(s) => s@ + concat_ok(rs.drop_first()),
            Err(_) => concat_ok(rs.drop_first()),
        }
    }
}

/// The first failure, in declaration order.
pub open spec fn first_err(rs: Seq<Result<String, ExecError>>) -> ExecError
    decreases rs.len(),
{
    if rs.len() == 0 {
        arbitrary()
    } else {
        match rs[0] {
            Ok(_) => first_err(rs.drop_first()),
            Err(e) => e,
        }
    }
}

/// Assemble one result per command, given in declaration order, into the
/// task's aggregate result: the concatenation of the captured outputs —
/// whatever order the commands finished in — or the first failure.
pub fn collect_outputs(results: Vec<Result<String, ExecError>>) -> (r: Result<String, ExecError>)
    ensures
        match r {
            Ok(s) => all_ok(results@) && s@ == concat_ok(results@),
            Err(e) => !all_ok(results@) && e == first_err(results@),
        },
{
    let ghost all = results@;
    let mut out = String::new();
    let mut rest = results;
    while rest.len() > 0
        invariant
            results@ == all,
            out@ + concat_ok(rest@) == concat_ok(all),
            all_ok(all) <==> all_ok(rest@),
            !all_ok(rest@) ==> first_err(all) == first_err(rest@),
        decreases rest@.len(),
    {
        let ghost rv = rest@;
        match rest.remove(0) {
            Ok(s) => {
                proof {
                    assert(rest@ =~= rv.drop_first());
                }
                out.append(s.as_str());
                proof {
                    assert(out@ + concat_ok(rest@) =~= concat_ok(all));
                    if !all_ok(rest@) {
                        let w = choose|i: int|
                            0 <= i < rest@.len() && !((#[trigger] rest@[i]) is Ok);
                        assert(rv[w + 1] == rest@[w]);
                        assert(!all_ok(rv));
                        assert(first_err(rv) == first_err(rest@));
                    }
                    if all_ok(rv) {
                        assert forall|i: int| 0 <= i < rest@.len() implies (#[trigger] rest@[i])
                            is Ok by {
                            assert(rest@[i] == rv[i + 1]);
                        }
                    }
                    if all_ok(rest@) {
                        assert forall|i: int| 0 <= i < rv.len() implies (#[trigger] rv[i])
                            is Ok by {
                            if i > 0 {
                                assert(rv[i] == rest@[i - 1]);
                            }
                        }
                    }
                }
            },
            Err(e) => {
                proof {
                    assert(rv[0] is Err);
                    assert(!all_ok(rv));
                    assert(first_err(rv) == e);
                    assert(!all_ok(all));
                    assert(first_err(all) == e);
                }
                return Err(e);
            },
        }
    }
    proof {
        assert(rest@ =~= Seq::<Result<String, ExecError>>::empty());
        assert(out@ + concat_ok(rest@) =~= out@);
    }
    Ok(out)
}

} // verus!
