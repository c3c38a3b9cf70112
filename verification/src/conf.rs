//! The definition model: tasks, environment tables, and merge semantics.
//!
//! A definition set holds an ordered task table and an ordered global
//! environment table.  Merging a child set into a parent set replaces
//! same-named tasks wholesale and overrides environment values key by key,
//! keeping the position of first appearance.

use crate::ordmap::{
    bound_to, combined, distinct_names, entry_extend, entry_get, has_name,
    lemma_combined_distinct, lemma_combined_lookup, lemma_combined_positions,
    lemma_combined_value_pred,
    lemma_entries_deep_view, lemma_vec_deep_view,
};
use vstd::prelude::*;

verus! {

/// Mathematical value of a [`Task`].
#[verifier::ext_equal]
pub ghost struct TaskView {
    pub cmd: Seq<Seq<char>>,
    pub env: Seq<(Seq<char>, Seq<char>)>,
    pub workdir: Option<Seq<char>>,
    pub local: bool,
    pub hidden: bool,
    pub display: bool,
}

/// One named unit of work: one or more shell command bodies, task-scoped
/// environment bindings, an optional working directory, and flags.
#[derive(Debug)]
pub struct Task {
    /// Raw command bodies, run in declaration order.
    pub cmd: Vec<String>,
    /// Task-scoped environment bindings; these shadow same-named global ones.
    pub env: Vec<(String, String)>,
    /// Directory the commands run in; stamped with the directory of the
    /// defining file when absent after parsing.
    pub workdir: Option<String>,
    /// A local task ignores `workdir` and runs in the caller's directory.
    pub local: bool,
    /// Excluded from listing surfaces; no effect on execution.
    pub hidden: bool,
    /// Reserved for presentation; no effect on execution.
    pub display: bool,
}

impl View for Task {
    type V = TaskView;

    open spec fn view(&self) -> TaskView {
        TaskView {
            cmd: self.cmd.deep_view(),
            env: self.env.deep_view(),
            workdir: match self.workdir {
                Some(d) => Some(d@),
                None => None,
            },
            local: self.local,
            hidden: self.hidden,
            display: self.display,
        }
    }
}

impl DeepView for Task {
    type V = TaskView;

    open spec fn deep_view(&self) -> TaskView {
        self.view()
    }
}

impl Task {
    /// The task's own environment table has no repeated names.
    pub open spec fn wf(self) -> bool {
        distinct_names(self@.env)
    }
}

impl Default for Task {
    /// A task with no commands and everything else off.
    fn default() -> (t: Task)
        ensures
            t@.cmd.len() == 0,
            t@.env.len() == 0,
            t@.workdir is None,
            !t@.local,
            !t@.hidden,
            !t@.display,
    {
        Task {
            cmd: Vec::new(),
            env: Vec::new(),
            workdir: None,
            local: false,
            hidden: false,
            display: false,
        }
    }
}

/// Mathematical value of a [`Conf`].
#[verifier::ext_equal]
pub ghost struct ConfView {
    pub tasks: Seq<(Seq<char>, TaskView)>,
    pub env: Seq<(Seq<char>, Seq<char>)>,
}

/// A definition set: the merged result of the definition files that apply to
/// a directory.
#[derive(Debug)]
pub struct Conf {
    /// Task table, in insertion/merge order.
    pub tasks: Vec<(String, Task)>,
    /// Global environment table, in insertion/merge order.
    pub env: Vec<(String, String)>,
}

impl View for Conf {
    type V = ConfView;

    open spec fn view(&self) -> ConfView {
        ConfView { tasks: self.tasks.deep_view(), env: self.env.deep_view() }
    }
}

impl DeepView for Conf {
    type V = ConfView;

    open spec fn deep_view(&self) -> ConfView {
        self.view()
    }
}

/// `t` is `s` with every unset working directory stamped with `dir`.
pub open spec fn stamped(t: TaskView, dir: Seq<char>) -> TaskView {
    TaskView {
        workdir: match t.workdir {
            Some(d) => Some(d),
            None => Some(dir),
        },
        ..t
    }
}

/// A task table with every unset working directory stamped with `dir`.
pub open spec fn stamped_tasks(s: Seq<(Seq<char>, TaskView)>, dir: Seq<char>) -> Seq<
    (Seq<char>, TaskView),
> {
    s.map_values(|p: (Seq<char>, TaskView)| (p.0, stamped(p.1, dir)))
}

/// The definition set with no tasks and no environment bindings.
pub open spec fn conf_empty() -> ConfView {
    ConfView { tasks: Seq::empty(), env: Seq::empty() }
}

/// Every name in both tables appears once, and every task's own environment
/// table has no repeated names either.
pub open spec fn conf_wf(c: ConfView) -> bool {
    &&& distinct_names(c.tasks)
    &&& distinct_names(c.env)
    &&& forall|i: int| 0 <= i < c.tasks.len() ==> distinct_names((#[trigger] c.tasks[i]).1.env)
}

impl Conf {
    /// Every name in both tables appears once, and every task is well formed.
    pub open spec fn wf(self) -> bool {
        conf_wf(self@)
    }

    /// Merge `other` (the child, the nearer definition level) into `self`
    /// (the parent): a task name present in `other` replaces the task
    /// wholesale, and environment keys merge key-wise, each override keeping
    /// the position of the name's first appearance.
    pub fn extend(&mut self, other: Conf)
        ensures
            final(self)@.tasks == combined(old(self)@.tasks, other@.tasks),
            final(self)@.env == combined(old(self)@.env, other@.env),
    {
        entry_extend(&mut self.tasks, other.tasks);
        entry_extend(&mut self.env, other.env);
    }

    /// The task registered under `name`, if any.
    pub fn get_task(&self, name: &String) -> (r: Option<&Task>)
        ensures
            match r {
                Some(t) => has_name(self@.tasks, name@) && t@ == bound_to(self@.tasks, name@),
                None => !has_name(self@.tasks, name@),
            },
    {
        entry_get(&self.tasks, name)
    }

    /// Stamp every task that has no explicit working directory with `dir`,
    /// the directory of the definition file that defined it.
    pub fn stamp_workdirs(&mut self, dir: &String)
        ensures
            final(self)@.env == old(self)@.env,
            final(self)@.tasks == stamped_tasks(old(self)@.tasks, dir@),
    {
        broadcast use lemma_entries_deep_view;

        let ghost orig = old(self)@.tasks;
        let mut out: Vec<(String, Task)> = Vec::new();
        while self.tasks.len() > 0
            invariant
                out.deep_view().len() + self.tasks.deep_view().len() == orig.len(),
                forall|j: int|
                    0 <= j < out@.len() ==> out.deep_view()[j] == ((#[trigger] orig[j]).0, stamped(
                        orig[j].1,
                        dir@,
                    )),
                forall|j: int|
                    0 <= j < self.tasks@.len() ==> (#[trigger] self.tasks.deep_view()[j]) == orig[
                        out@.len() + j],
                self.env == old(self).env,
            decreases self.tasks@.len(),
        {
            let ghost rv = self.tasks.deep_view();
            let (name, mut task) = self.tasks.remove(0);
            proof {
                assert(self.tasks.deep_view() =~= rv.drop_first());
                assert(rv[0] == (name@, task@));
            }
            if task.workdir.is_none() {
                task.workdir = Some(dir.clone());
            }
            out.push((name, task));
        }
        self.tasks = out;
        proof {
            assert(self.tasks.deep_view() =~= stamped_tasks(orig, dir@));
        }
    }
}

/// Whether two string lists have the same contents.
fn str_list_eq(a: &Vec<String>, b: &Vec<String>) -> (r: bool)
    ensures
        r == (a.deep_view() == b.deep_view()),
{
    broadcast use lemma_vec_deep_view;

    if a.len() != b.len() {
        return false;
    }
    let n = a.len();
    let mut i: usize = 0;
    while i < n
        invariant
            n == a@.len() == b@.len(),
            i <= n,
            forall|j: int| 0 <= j < i ==> (#[trigger] a.deep_view()[j]) == b.deep_view()[j],
        decreases n - i,
    {
        if !(a[i] == b[i]) {
            proof {
                assert(a.deep_view()[i as int] != b.deep_view()[i as int]);
            }
            return false;
        }
        i += 1;
    }
    proof {
        assert(a.deep_view() =~= b.deep_view());
    }
    true
}

/// Whether two string tables have the same entries, in the same order.
fn table_eq(a: &Vec<(String, String)>, b: &Vec<(String, String)>) -> (r: bool)
    ensures
        r == (a.deep_view() == b.deep_view()),
{
    broadcast use lemma_entries_deep_view;

    if a.len() != b.len() {
        return false;
    }
    let n = a.len();
    let mut i: usize = 0;
    while i < n
        invariant
            n == a@.len() == b@.len(),
            i <= n,
            forall|j: int| 0 <= j < i ==> (#[trigger] a.deep_view()[j]) == b.deep_view()[j],
        decreases n - i,
    {
        if !(a[i].0 == b[i].0 && a[i].1 == b[i].1) {
            proof {
                assert(a.deep_view()[i as int] != b.deep_view()[i as int]);
            }
            return false;
        }
        i += 1;
    }
    proof {
        assert(a.deep_view() =~= b.deep_view());
    }
    true
}

impl Task {
    /// Whether `self` and `other` are structurally equal: same commands,
    /// same environment entries in the same order, same working directory
    /// and flags.
    pub fn equal_to(&self, other: &Task) -> (r: bool)
        ensures
            r == (self@ == other@),
    {
        let wd_eq: bool = if self.workdir.is_some() && other.workdir.is_some() {
            *self.workdir.as_ref().unwrap() == *other.workdir.as_ref().unwrap()
        } else {
            self.workdir.is_none() && other.workdir.is_none()
        };
        proof {
            if self.workdir is Some && other.workdir is Some {
                assert(self@.workdir == Some(self.workdir->0@));
                assert(other@.workdir == Some(other.workdir->0@));
                assert(wd_eq == (self@.workdir == other@.workdir));
            } else {
                assert(wd_eq == (self@.workdir == other@.workdir));
            }
        }
        let fields_eq = str_list_eq(&self.cmd, &other.cmd) && table_eq(&self.env, &other.env)
            && wd_eq && self.local == other.local && self.hidden == other.hidden && self.display
            == other.display;
        proof {
            if fields_eq {
                assert(self@ =~= other@);
            }
        }
        fields_eq
    }
}

impl Conf {
    /// Whether `self` and `other` are structurally equal: same task and
    /// environment tables, entry for entry and in the same order.
    pub fn equal_to(&self, other: &Conf) -> (r: bool)
        ensures
            r == (self@ == other@),
    {
        broadcast use lemma_entries_deep_view;

        if !table_eq(&self.env, &other.env) {
            return false;
        }
        if self.tasks.len() != other.tasks.len() {
            proof {
                assert(self@.tasks.len() != other@.tasks.len());
            }
            return false;
        }
        let n = self.tasks.len();
        let mut i: usize = 0;
        while i < n
            invariant
                n == self.tasks@.len() == other.tasks@.len(),
                i <= n,
                self@.env == other@.env,
                forall|j: int|
                    0 <= j < i ==> (#[trigger] self@.tasks[j]) == other@.tasks[j],
            decreases n - i,
        {
            if !(self.tasks[i].0 == other.tasks[i].0) {
                proof {
                    assert(self@.tasks[i as int].0 != other@.tasks[i as int].0);
                }
                return false;
            }
            if !self.tasks[i].1.equal_to(&other.tasks[i].1) {
                proof {
                    assert(self@.tasks[i as int].1 != other@.tasks[i as int].1);
                }
                return false;
            }
            i += 1;
        }
        proof {
            assert(self@.tasks =~= other@.tasks);
            assert(self@ =~= other@);
        }
        true
    }

    /// The names of the tasks a listing surface shows, in table order:
    /// every task not marked hidden.
    pub fn visible_task_names(&self) -> (r: Vec<String>)
        ensures
            r.deep_view() == visible_names(self@.tasks),
    {
        broadcast use lemma_entries_deep_view, lemma_vec_deep_view;

        let ghost all = self@.tasks;
        let n = self.tasks.len();
        let mut out: Vec<String> = Vec::new();
        let mut i: usize = 0;
        proof {
            assert(all.subrange(0, n as int) =~= all);
            assert(out.deep_view() =~= Seq::<Seq<char>>::empty());
            assert(out.deep_view() + visible_names(all) =~= visible_names(all));
        }
        while i < n
            invariant
                n == self.tasks@.len(),
                i <= n,
                all == self@.tasks,
                out.deep_view() + visible_names(all.subrange(i as int, n as int)) == visible_names(
                    all,
                ),
            decreases n - i,
        {
            let ghost suffix = all.subrange(i as int, n as int);
            proof {
                assert(suffix.drop_first() =~= all.subrange(i as int + 1, n as int));
                assert(suffix[0] == all[i as int]);
            }
            let ghost prev = out;
            if !self.tasks[i].1.hidden {
                out.push(self.tasks[i].0.clone());
                proof {
                    assert(!all[i as int].1.hidden);
                    assert(visible_names(suffix) == seq![all[i as int].0] + visible_names(
                        all.subrange(i as int + 1, n as int),
                    ));
                    assert(out.deep_view() =~= prev.deep_view() + seq![all[i as int].0]);
                    assert(out.deep_view() + visible_names(
                        all.subrange(i as int + 1, n as int),
                    ) =~= prev.deep_view() + visible_names(suffix));
                }
            } else {
                proof {
                    assert(all[i as int].1.hidden);
                    assert(visible_names(suffix) == visible_names(
                        all.subrange(i as int + 1, n as int),
                    ));
                }
            }
            i += 1;
        }
        proof {
            assert(all.subrange(n as int, n as int) =~= Seq::<(Seq<char>, TaskView)>::empty());
            assert(out.deep_view() + visible_names(all.subrange(n as int, n as int)) =~=
            out.deep_view());
        }
        out
    }
}

/// The names of the tasks a listing surface shows: every task not marked
/// hidden, in table order.
pub open spec fn visible_names(s: Seq<(Seq<char>, TaskView)>) -> Seq<Seq<char>>
    decreases s.len(),
{
    if s.len() == 0 {
        Seq::empty()
    } else if !s[0].1.hidden {
        seq![s[0].0] + visible_names(s.drop_first())
    } else {
        visible_names(s.drop_first())
    }
}

/// Stamping working directories changes no name and no task environment, so
/// it preserves well-formedness of the task table.
pub proof fn lemma_stamped_tasks_wf(s: Seq<(Seq<char>, TaskView)>, dir: Seq<char>)
    requires
        distinct_names(s),
        forall|i: int| 0 <= i < s.len() ==> distinct_names((#[trigger] s[i]).1.env),
    ensures
        distinct_names(stamped_tasks(s, dir)),
        forall|i: int|
            0 <= i < stamped_tasks(s, dir).len() ==> distinct_names(
                (#[trigger] stamped_tasks(s, dir)[i]).1.env,
            ),
        stamped_tasks(s, dir).len() == s.len(),
{
    let t = stamped_tasks(s, dir);
    assert forall|i: int| 0 <= i < t.len() implies distinct_names((#[trigger] t[i]).1.env) by {
        assert(t[i] == (s[i].0, stamped(s[i].1, dir)));
        assert(distinct_names(s[i].1.env));
    }
    assert forall|i: int, j: int| 0 <= i < j < t.len() implies (#[trigger] t[i]).0 != (
    #[trigger] t[j]).0 by {
        assert(t[i].0 == s[i].0);
        assert(t[j].0 == s[j].0);
    }
}

/// Merging two well-formed definition sets yields a well-formed set.
pub proof fn lemma_merge_wf(parent: ConfView, child: ConfView)
    requires
        conf_wf(parent),
        conf_wf(child),
    ensures
        conf_wf(
            ConfView {
                tasks: combined(parent.tasks, child.tasks),
                env: combined(parent.env, child.env),
            },
        ),
{
    lemma_combined_distinct(parent.tasks, child.tasks);
    lemma_combined_distinct(parent.env, child.env);
    lemma_combined_value_pred(
        parent.tasks,
        child.tasks,
        |t: TaskView| distinct_names(t.env),
    );
}

/// Law: a child level that redefines a task name replaces that task
/// wholesale.  After merging `child` into `parent`, a name defined by the
/// child is bound to exactly the child's task, with no field-level blending.
pub proof fn lemma_merge_replaces_tasks(parent: ConfView, child: ConfView, name: Seq<char>)
    requires
        distinct_names(child.tasks),
        has_name(child.tasks, name),
    ensures
        has_name(combined(parent.tasks, child.tasks), name),
        bound_to(combined(parent.tasks, child.tasks), name) == bound_to(child.tasks, name),
{
    lemma_combined_lookup(parent.tasks, child.tasks, name);
}

/// Law: an override keeps its position.  Merging never moves an entry the
/// parent already had: the leading entries of both merged tables carry the
/// parent's names, in the parent's order, whether or not the child
/// overrode their values.
pub proof fn lemma_merge_keeps_positions(parent: ConfView, child: ConfView)
    ensures
        forall|i: int|
            0 <= i < parent.tasks.len() ==> (#[trigger] combined(parent.tasks, child.tasks)[i]).0
                == parent.tasks[i].0,
        forall|i: int|
            0 <= i < parent.env.len() ==> (#[trigger] combined(parent.env, child.env)[i]).0
                == parent.env[i].0,
{
    lemma_combined_positions(parent.tasks, child.tasks);
    lemma_combined_positions(parent.env, child.env);
}

/// Law: environment merge is key-wise.  A key present in the child overrides
/// only that key's value; a key present only in the parent keeps the parent's
/// value; the merged table holds no further keys.
pub proof fn lemma_merge_env_keywise(parent: ConfView, child: ConfView, name: Seq<char>)
    requires
        distinct_names(child.env),
    ensures
        has_name(combined(parent.env, child.env), name) <==> (has_name(parent.env, name)
            || has_name(child.env, name)),
        has_name(child.env, name) ==> bound_to(combined(parent.env, child.env), name) == bound_to(
            child.env,
            name,
        ),
        !has_name(child.env, name) && has_name(parent.env, name) ==> bound_to(
            combined(parent.env, child.env),
            name,
        ) == bound_to(parent.env, name),
{
    lemma_combined_lookup(parent.env, child.env, name);
}

impl Default for Conf {
    /// A definition set with no tasks and no environment bindings.
    fn default() -> (c: Conf)
        ensures
            c@ == conf_empty(),
            c.wf(),
    {
        let c = Conf { tasks: Vec::new(), env: Vec::new() };
        proof {
            assert(c@ =~= conf_empty());
        }
        c
    }
}

} // verus!
