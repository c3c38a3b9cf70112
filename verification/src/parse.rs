//! Reading a definition document into a [`Conf`].
//!
//! The YAML text itself is parsed by `serde_yaml` into a node tree; the
//! schema on top of it — the `tasks` and `env` tables, the `cmd` field that
//! may be a single string or a list of strings, the optional fields and
//! their defaults — is interpreted here, in verified code, one node level at
//! a time.  What the tree holds is named by uninterpreted functions over the
//! nodes (`node_str`, `node_entries`, …), the accessors' contracts speak of
//! those names, and the denotation functions below (`conf_denoted` and its
//! helpers) say, over the same names, exactly which definition set — or
//! which error — a document yields.

use crate::conf::{conf_empty, Conf, ConfView, Task, TaskView};
use crate::ordmap::{
    bind, distinct_names, entry_put, lemma_bind_distinct, lemma_bind_value_pred,
    lemma_entries_deep_view, lemma_vec_deep_view,
};
use vstd::prelude::*;

verus! {

/// `serde_yaml::Value`, one node of a parsed YAML document, declared so that
/// verified code can hold nodes and hand them to the accessors below.
#[verifier::external_type_specification]
#[verifier::external_body]
pub struct ExValue(serde_yaml::Value);

/// What `serde_yaml::from_str` returns of a text: its node tree, or the
/// parser's message.
pub uninterp spec fn parsed_doc(text: Seq<char>) -> Result<serde_yaml::Value, Seq<char>>;

/// Whether a node is the null node.
pub uninterp spec fn node_null(v: serde_yaml::Value) -> bool;

/// The characters of a node that is a string scalar.
pub uninterp spec fn node_str(v: serde_yaml::Value) -> Option<Seq<char>>;

/// The value of a node that is a boolean scalar.
pub uninterp spec fn node_bool(v: serde_yaml::Value) -> Option<bool>;

/// The elements of a node that is a sequence, in document order.
pub uninterp spec fn node_items(v: serde_yaml::Value) -> Option<Seq<serde_yaml::Value>>;

/// The entries of a node that is a mapping, in document order; an entry
/// whose key is not a string scalar carries `None` for its key.
pub uninterp spec fn node_entries(v: serde_yaml::Value) -> Option<
    Seq<(Option<Seq<char>>, serde_yaml::Value)>,
>;

/// How one fetched mapping entry corresponds to its named counterpart.
pub open spec fn entry_matches(
    e: (Option<String>, serde_yaml::Value),
    n: (Option<Seq<char>>, serde_yaml::Value),
) -> bool {
    &&& e.1 == n.1
    &&& match (e.0, n.0) {
        (Some(k), Some(nk)) => k@ == nk,
        (None, None) => true,
        _ => false,
    }
}

/// How a fetched entry list corresponds to its named counterpart.
pub open spec fn entries_match(
    es: Seq<(Option<String>, serde_yaml::Value)>,
    ns: Seq<(Option<Seq<char>>, serde_yaml::Value)>,
) -> bool {
    &&& es.len() == ns.len()
    &&& forall|i: int| 0 <= i < es.len() ==> entry_matches(#[trigger] es[i], ns[i])
}

/// Relies on `serde_yaml::from_str`: parses YAML text into its node tree, or
/// reports the parser's message.  An empty document parses to the null node.
#[verifier::external_body]
fn yaml_from_str(text: &str) -> (r: Result<serde_yaml::Value, String>)
    ensures
        match (r, parsed_doc(text@)) {
            (Ok(v), Ok(n)) => v == n,
            (Err(m), Err(n)) => m@ == n,
            _ => false,
        },
{
    serde_yaml::from_str::<serde_yaml::Value>(text).map_err(|e| e.to_string())
}

/// Relies on `serde_yaml::Value::is_null`.
#[verifier::external_body]
fn yaml_is_null(v: &serde_yaml::Value) -> (r: bool)
    ensures
        r == node_null(*v),
{
    v.is_null()
}

/// Relies on `serde_yaml::Value::as_str`: `Some` exactly on string scalars.
#[verifier::external_body]
fn yaml_as_str(v: &serde_yaml::Value) -> (r: Option<String>)
    ensures
        match (r, node_str(*v)) {
            (Some(s), Some(n)) => s@ == n,
            (None, None) => true,
            _ => false,
        },
{
    v.as_str().map(|s| s.to_owned())
}

/// Relies on `serde_yaml::Value::as_bool`: `Some` exactly on boolean scalars.
#[verifier::external_body]
fn yaml_as_bool(v: &serde_yaml::Value) -> (r: Option<bool>)
    ensures
        r == node_bool(*v),
{
    v.as_bool()
}

/// Relies on `serde_yaml::Value::as_sequence`: the sequence's elements, in
/// document order.
#[verifier::external_body]
fn yaml_as_list(v: &serde_yaml::Value) -> (r: Option<Vec<serde_yaml::Value>>)
    ensures
        match (r, node_items(*v)) {
            (Some(items), Some(ns)) => items@ == ns,
            (None, None) => true,
            _ => false,
        },
{
    v.as_sequence().map(|s| s.to_vec())
}

/// Relies on `serde_yaml::Value::as_mapping` and `Mapping::iter`: the
/// mapping's entries in document order; a key that is not a string scalar
/// comes out as `None`.
#[verifier::external_body]
fn yaml_as_entries(v: &serde_yaml::Value) -> (r: Option<
    Vec<(Option<String>, serde_yaml::Value)>,
>)
    ensures
        match (r, node_entries(*v)) {
            (Some(es), Some(ns)) => entries_match(es@, ns),
            (None, None) => true,
            _ => false,
        },
{
    v.as_mapping().map(
        |m| m.iter().map(|(k, w)| (k.as_str().map(|s| s.to_owned()), w.clone())).collect(),
    )
}

/// What a `cmd` field denotes: a string scalar is the one-element list of
/// command bodies, a sequence of string scalars is that list in order, and
/// any other shape is an error.
pub open spec fn cmd_denoted(v: serde_yaml::Value) -> Result<Seq<Seq<char>>, Seq<char>> {
    if node_str(v) is Some {
        Ok(seq![node_str(v)->0])
    } else if node_items(v) is Some {
        let items = node_items(v)->0;
        if forall|i: int| 0 <= i < items.len() ==> node_str(#[trigger] items[i]) is Some {
            Ok(Seq::new(items.len(), |i: int| node_str(items[i])->0))
        } else {
            Err("cmd entries must be strings"@)
        }
    } else {
        Err("cmd must be a string or a list of strings"@)
    }
}

/// What a list of environment entries denotes, folded in document order
/// into the table `acc`.
pub open spec fn env_fold(
    acc: Seq<(Seq<char>, Seq<char>)>,
    ns: Seq<(Option<Seq<char>>, serde_yaml::Value)>,
) -> Result<Seq<(Seq<char>, Seq<char>)>, Seq<char>>
    decreases ns.len(),
{
    if ns.len() == 0 {
        Ok(acc)
    } else {
        match ns[0].0 {
            None => Err("env names must be strings"@),
            Some(k) => match node_str(ns[0].1) {
                None => Err("env values must be strings"@),
                Some(value) => env_fold(bind(acc, k, value), ns.drop_first()),
            },
        }
    }
}

/// What an `env` section denotes: a mapping from names to string scalars.
pub open spec fn env_denoted(v: serde_yaml::Value) -> Result<
    Seq<(Seq<char>, Seq<char>)>,
    Seq<char>,
> {
    match node_entries(v) {
        None => Err("an env section must be a mapping"@),
        Some(ns) => env_fold(Seq::empty(), ns),
    }
}

/// The fields of a task while its mapping is being read.
#[verifier::ext_equal]
pub ghost struct TaskDraft {
    pub cmd: Option<Seq<Seq<char>>>,
    pub env: Seq<(Seq<char>, Seq<char>)>,
    pub workdir: Option<Seq<char>>,
    pub local: bool,
    pub hidden: bool,
    pub display: bool,
}

/// The draft every task starts from: no `cmd` seen yet, everything else at
/// its default.
pub open spec fn task_draft_default() -> TaskDraft {
    TaskDraft { cmd: None, env: Seq::empty(), workdir: None, local: false, hidden: false, display: false }
}

/// What a task's fields denote, folded in document order over the draft
/// `acc`; unknown fields are ignored.
pub open spec fn task_fold(
    acc: TaskDraft,
    ns: Seq<(Option<Seq<char>>, serde_yaml::Value)>,
) -> Result<TaskDraft, Seq<char>>
    decreases ns.len(),
{
    if ns.len() == 0 {
        Ok(acc)
    } else {
        match ns[0].0 {
            None => Err("task fields must have string names"@),
            Some(k) => {
                if k == "cmd"@ {
                    match cmd_denoted(ns[0].1) {
                        Ok(c) => task_fold(TaskDraft { cmd: Some(c), ..acc }, ns.drop_first()),
                        Err(m) => Err(m),
                    }
                } else if k == "env"@ {
                    match env_denoted(ns[0].1) {
                        Ok(table) => task_fold(TaskDraft { env: table, ..acc }, ns.drop_first()),
                        Err(m) => Err(m),
                    }
                } else if k == "workdir"@ {
                    match node_str(ns[0].1) {
                        Some(d) => task_fold(
                            TaskDraft { workdir: Some(d), ..acc },
                            ns.drop_first(),
                        ),
                        None => Err("workdir must be a string"@),
                    }
                } else if k == "local"@ {
                    match node_bool(ns[0].1) {
                        Some(b) => task_fold(TaskDraft { local: b, ..acc }, ns.drop_first()),
                        None => Err("local must be a boolean"@),
                    }
                } else if k == "hidden"@ {
                    match node_bool(ns[0].1) {
                        Some(b) => task_fold(TaskDraft { hidden: b, ..acc }, ns.drop_first()),
                        None => Err("hidden must be a boolean"@),
                    }
                } else if k == "display"@ {
                    match node_bool(ns[0].1) {
                        Some(b) => task_fold(TaskDraft { display: b, ..acc }, ns.drop_first()),
                        None => Err("display must be a boolean"@),
                    }
                } else {
                    task_fold(acc, ns.drop_first())
                }
            },
        }
    }
}

/// What a task node denotes: a mapping with a required `cmd` and optional
/// `env`, `workdir`, `local`, `hidden` and `display` fields.
pub open spec fn task_denoted(v: serde_yaml::Value) -> Result<TaskView, Seq<char>> {
    match node_entries(v) {
        None => Err("a task must be a mapping"@),
        Some(ns) => match task_fold(task_draft_default(), ns) {
            Err(m) => Err(m),
            Ok(acc) => match acc.cmd {
                None => Err("a task must have a cmd"@),
                Some(c) => Ok(
                    TaskView {
                        cmd: c,
                        env: acc.env,
                        workdir: acc.workdir,
                        local: acc.local,
                        hidden: acc.hidden,
                        display: acc.display,
                    },
                ),
            },
        },
    }
}

/// What a list of task entries denotes, folded in document order into the
/// table `acc`.
pub open spec fn tasks_fold(
    acc: Seq<(Seq<char>, TaskView)>,
    ns: Seq<(Option<Seq<char>>, serde_yaml::Value)>,
) -> Result<Seq<(Seq<char>, TaskView)>, Seq<char>>
    decreases ns.len(),
{
    if ns.len() == 0 {
        Ok(acc)
    } else {
        match ns[0].0 {
            None => Err("task names must be strings"@),
            Some(k) => match task_denoted(ns[0].1) {
                Err(m) => Err(m),
                Ok(t) => tasks_fold(bind(acc, k, t), ns.drop_first()),
            },
        }
    }
}

/// What a `tasks` section denotes: a mapping from task names to tasks.
pub open spec fn tasks_denoted(v: serde_yaml::Value) -> Result<
    Seq<(Seq<char>, TaskView)>,
    Seq<char>,
> {
    match node_entries(v) {
        None => Err("a tasks section must be a mapping"@),
        Some(ns) => tasks_fold(Seq::empty(), ns),
    }
}

/// What a document's top-level entries denote, folded in document order;
/// keys other than `tasks` and `env` are ignored.
pub open spec fn conf_fold(
    tasks: Seq<(Seq<char>, TaskView)>,
    env: Seq<(Seq<char>, Seq<char>)>,
    ns: Seq<(Option<Seq<char>>, serde_yaml::Value)>,
) -> Result<ConfView, Seq<char>>
    decreases ns.len(),
{
    if ns.len() == 0 {
        Ok(ConfView { tasks, env })
    } else {
        match ns[0].0 {
            None => Err("top-level keys must be strings"@),
            Some(k) => {
                if k == "tasks"@ {
                    match tasks_denoted(ns[0].1) {
                        Ok(table) => conf_fold(table, env, ns.drop_first()),
                        Err(m) => Err(m),
                    }
                } else if k == "env"@ {
                    match env_denoted(ns[0].1) {
                        Ok(table) => conf_fold(tasks, table, ns.drop_first()),
                        Err(m) => Err(m),
                    }
                } else {
                    conf_fold(tasks, env, ns.drop_first())
                }
            },
        }
    }
}

/// What a definition document denotes: the parser's error for text that is
/// not YAML, the empty definition set for the null document, and otherwise
/// the `tasks` and `env` sections of the top-level mapping.
pub open spec fn conf_denoted(text: Seq<char>) -> Result<ConfView, Seq<char>> {
    match parsed_doc(text) {
        Err(m) => Err(m),
        Ok(root) => if node_null(root) {
            Ok(conf_empty())
        } else {
            match node_entries(root) {
                None => Err("a definition document must be a mapping"@),
                Some(ns) => conf_fold(Seq::empty(), Seq::empty(), ns),
            }
        },
    }
}

/// Read a `cmd` field: a single string or a list of strings, normalized to
/// the ordered list of command bodies.
fn cmd_list_from(v: &serde_yaml::Value) -> (r: Result<Vec<String>, String>)
    ensures
        match r {
            Ok(c) => cmd_denoted(*v) == Ok::<Seq<Seq<char>>, Seq<char>>(c.deep_view()),
            Err(m) => cmd_denoted(*v) == Err::<Seq<Seq<char>>, Seq<char>>(m@),
        },
{
    broadcast use lemma_vec_deep_view;

    if let Some(s) = yaml_as_str(v) {
        let mut out: Vec<String> = Vec::new();
        out.push(s);
        proof {
            assert(out.deep_view() =~= seq![node_str(*v)->0]);
        }
        return Ok(out);
    }
    let mut items = match yaml_as_list(v) {
        Some(items) => items,
        None => {
            return Err(String::from_str("cmd must be a string or a list of strings"));
        },
    };
    let ghost ns = node_items(*v)->0;
    let mut out: Vec<String> = Vec::new();
    while items.len() > 0
        invariant
            node_str(*v) is None,
            node_items(*v) == Some(ns),
            out@.len() + items@.len() == ns.len(),
            items@ == ns.subrange(out@.len() as int, ns.len() as int),
            forall|j: int|
                0 <= j < out@.len() ==> node_str(#[trigger] ns[j]) is Some && out.deep_view()[j]
                    == node_str(ns[j])->0,
        decreases items@.len(),
    {
        let ghost k = out@.len() as int;
        let ghost iv = items@;
        let node = items.remove(0);
        proof {
            assert(items@ =~= ns.subrange(k + 1, ns.len() as int));
            assert(node == ns[k]);
        }
        match yaml_as_str(&node) {
            Some(s) => {
                out.push(s);
            },
            None => {
                proof {
                    assert(node_str(ns[k]) is None);
                }
                return Err(String::from_str("cmd entries must be strings"));
            },
        }
    }
    proof {
        assert(out.deep_view() =~= Seq::new(ns.len(), |i: int| node_str(ns[i])->0));
    }
    Ok(out)
}

/// Read an environment table: a mapping from names to string expressions.
fn env_table_from(v: &serde_yaml::Value) -> (r: Result<Vec<(String, String)>, String>)
    ensures
        match r {
            Ok(table) => env_denoted(*v) == Ok::<Seq<(Seq<char>, Seq<char>)>, Seq<char>>(
                table.deep_view(),
            ) && distinct_names(table.deep_view()),
            Err(m) => env_denoted(*v) == Err::<Seq<(Seq<char>, Seq<char>)>, Seq<char>>(m@),
        },
{
    broadcast use lemma_entries_deep_view;

    let mut entries = match yaml_as_entries(v) {
        Some(e) => e,
        None => {
            return Err(String::from_str("an env section must be a mapping"));
        },
    };
    let ghost ns = node_entries(*v)->0;
    let mut out: Vec<(String, String)> = Vec::new();
    let ghost total = ns.len() as int;
    proof {
        assert(ns.subrange(0, total) =~= ns);
        assert(out.deep_view() =~= Seq::<(Seq<char>, Seq<char>)>::empty());
    }
    while entries.len() > 0
        invariant
            node_entries(*v) == Some(ns),
            total == ns.len(),
            entries@.len() <= ns.len(),
            entries_match(entries@, ns.subrange(total - entries@.len(), total)),
            env_fold(out.deep_view(), ns.subrange(total - entries@.len(), total)) == env_fold(
                Seq::empty(),
                ns,
            ),
            distinct_names(out.deep_view()),
        decreases entries@.len(),
    {
        let ghost k = total - entries@.len();
        let ghost suffix = ns.subrange(k, total);
        let ghost ev = entries@;
        let (key, node) = entries.remove(0);
        proof {
            assert(suffix.drop_first() =~= ns.subrange(k + 1, total));
            assert(entry_matches(ev[0], suffix[0]));
            assert forall|i: int| 0 <= i < entries@.len() implies entry_matches(
                #[trigger] entries@[i],
                ns.subrange(k + 1, total)[i],
            ) by {
                assert(entries@[i] == ev[i + 1]);
                assert(entry_matches(ev[i + 1], suffix[i + 1]));
                assert(ns.subrange(k + 1, total)[i] == suffix[i + 1]);
            }
        }
        let key = match key {
            Some(k) => k,
            None => {
                return Err(String::from_str("env names must be strings"));
            },
        };
        let value = match yaml_as_str(&node) {
            Some(s) => s,
            None => {
                proof {
                    assert(node_str(suffix[0].1) is None);
                }
                return Err(String::from_str("env values must be strings"));
            },
        };
        proof {
            lemma_bind_distinct(out.deep_view(), key@, value@);
            assert(suffix[0].0 == Some(key@));
            assert(node_str(suffix[0].1) == Some(value@));
        }
        entry_put(&mut out, key, value);
    }
    proof {
        assert(ns.subrange(total, total) =~= Seq::<(Option<Seq<char>>, serde_yaml::Value)>::empty());
    }
    Ok(out)
}

/// The draft a set of in-progress task fields stands for.
pub open spec fn draft_of(
    cmd: Option<Vec<String>>,
    env: Vec<(String, String)>,
    workdir: Option<String>,
    local: bool,
    hidden: bool,
    display: bool,
) -> TaskDraft {
    TaskDraft {
        cmd: match cmd {
            Some(c) => Some(c.deep_view()),
            None => None,
        },
        env: env.deep_view(),
        workdir: match workdir {
            Some(d) => Some(d@),
            None => None,
        },
        local,
        hidden,
        display,
    }
}

/// Read one task: a mapping with a required `cmd` and optional `env`,
/// `workdir`, `local`, `hidden` and `display` fields; unknown fields are
/// ignored.
fn task_from(v: &serde_yaml::Value) -> (r: Result<Task, String>)
    ensures
        match r {
            Ok(t) => task_denoted(*v) == Ok::<TaskView, Seq<char>>(t@) && t.wf(),
            Err(m) => task_denoted(*v) == Err::<TaskView, Seq<char>>(m@),
        },
{
    broadcast use lemma_vec_deep_view;

    let mut entries = match yaml_as_entries(v) {
        Some(e) => e,
        None => {
            return Err(String::from_str("a task must be a mapping"));
        },
    };
    let ghost ns = node_entries(*v)->0;
    let mut cmd: Option<Vec<String>> = None;
    let mut env: Vec<(String, String)> = Vec::new();
    let mut workdir: Option<String> = None;
    let mut local = false;
    let mut hidden = false;
    let mut display = false;
    let ghost total = ns.len() as int;
    proof {
        assert(ns.subrange(0, total) =~= ns);
        assert(draft_of(cmd, env, workdir, local, hidden, display) =~= task_draft_default());
    }
    while entries.len() > 0
        invariant
            node_entries(*v) == Some(ns),
            total == ns.len(),
            entries@.len() <= ns.len(),
            entries_match(entries@, ns.subrange(total - entries@.len(), total)),
            task_fold(
                draft_of(cmd, env, workdir, local, hidden, display),
                ns.subrange(total - entries@.len(), total),
            ) == task_fold(task_draft_default(), ns),
            distinct_names(env.deep_view()),
        decreases entries@.len(),
    {
        let ghost k = total - entries@.len();
        let ghost suffix = ns.subrange(k, total);
        let ghost ev = entries@;
        let ghost draft = draft_of(cmd, env, workdir, local, hidden, display);
        let (key, node) = entries.remove(0);
        proof {
            assert(suffix.drop_first() =~= ns.subrange(k + 1, total));
            assert(entry_matches(ev[0], suffix[0]));
            assert forall|i: int| 0 <= i < entries@.len() implies entry_matches(
                #[trigger] entries@[i],
                ns.subrange(k + 1, total)[i],
            ) by {
                assert(entries@[i] == ev[i + 1]);
                assert(entry_matches(ev[i + 1], suffix[i + 1]));
                assert(ns.subrange(k + 1, total)[i] == suffix[i + 1]);
            }
        }
        let key = match key {
            Some(k) => k,
            None => {
                return Err(String::from_str("task fields must have string names"));
            },
        };
        proof {
            assert(suffix[0].0 == Some(key@));
            assert(suffix[0].1 == node);
        }
        if key == String::from_str("cmd") {
            match cmd_list_from(&node) {
                Ok(c) => {
                    proof {
                        assert(draft_of(Some(c), env, workdir, local, hidden, display)
                            == (TaskDraft { cmd: Some(c.deep_view()), ..draft }));
                    }
                    cmd = Some(c);
                },
                Err(m) => {
                    return Err(m);
                },
            }
        } else if key == String::from_str("env") {
            match env_table_from(&node) {
                Ok(table) => {
                    proof {
                        assert(draft_of(cmd, table, workdir, local, hidden, display)
                            == (TaskDraft { env: table.deep_view(), ..draft }));
                    }
                    env = table;
                },
                Err(m) => {
                    return Err(m);
                },
            }
        } else if key == String::from_str("workdir") {
            match yaml_as_str(&node) {
                Some(s) => {
                    proof {
                        assert(draft_of(cmd, env, Some(s), local, hidden, display)
                            == (TaskDraft { workdir: Some(s@), ..draft }));
                    }
                    workdir = Some(s);
                },
                None => {
                    return Err(String::from_str("workdir must be a string"));
                },
            }
        } else if key == String::from_str("local") {
            match yaml_as_bool(&node) {
                Some(b) => {
                    local = b;
                },
                None => {
                    return Err(String::from_str("local must be a boolean"));
                },
            }
        } else if key == String::from_str("hidden") {
            match yaml_as_bool(&node) {
                Some(b) => {
                    hidden = b;
                },
                None => {
                    return Err(String::from_str("hidden must be a boolean"));
                },
            }
        } else if key == String::from_str("display") {
            match yaml_as_bool(&node) {
                Some(b) => {
                    display = b;
                },
                None => {
                    return Err(String::from_str("display must be a boolean"));
                },
            }
        }
    }
    proof {
        assert(ns.subrange(total, total) =~= Seq::<(Option<Seq<char>>, serde_yaml::Value)>::empty());
    }
    let cmd = match cmd {
        Some(c) => c,
        None => {
            return Err(String::from_str("a task must have a cmd"));
        },
    };
    let task = Task { cmd, env, workdir, local, hidden, display };
    proof {
        assert(task_denoted(*v) == Ok::<TaskView, Seq<char>>(task@));
    }
    Ok(task)
}

/// Read a task table: a mapping from task names to tasks.
fn task_table_from(v: &serde_yaml::Value) -> (r: Result<Vec<(String, Task)>, String>)
    ensures
        match r {
            Ok(table) => {
                &&& tasks_denoted(*v) == Ok::<Seq<(Seq<char>, TaskView)>, Seq<char>>(
                    table.deep_view(),
                )
                &&& distinct_names(table.deep_view())
                &&& forall|i: int|
                    0 <= i < table.deep_view().len() ==> distinct_names(
                        (#[trigger] table.deep_view()[i]).1.env,
                    )
            },
            Err(m) => tasks_denoted(*v) == Err::<Seq<(Seq<char>, TaskView)>, Seq<char>>(m@),
        },
{
    broadcast use lemma_entries_deep_view;

    let mut entries = match yaml_as_entries(v) {
        Some(e) => e,
        None => {
            return Err(String::from_str("a tasks section must be a mapping"));
        },
    };
    let ghost ns = node_entries(*v)->0;
    let mut out: Vec<(String, Task)> = Vec::new();
    let ghost total = ns.len() as int;
    proof {
        assert(ns.subrange(0, total) =~= ns);
        assert(out.deep_view() =~= Seq::<(Seq<char>, TaskView)>::empty());
    }
    while entries.len() > 0
        invariant
            node_entries(*v) == Some(ns),
            total == ns.len(),
            entries@.len() <= ns.len(),
            entries_match(entries@, ns.subrange(total - entries@.len(), total)),
            tasks_fold(out.deep_view(), ns.subrange(total - entries@.len(), total)) == tasks_fold(
                Seq::empty(),
                ns,
            ),
            distinct_names(out.deep_view()),
            forall|i: int|
                0 <= i < out.deep_view().len() ==> distinct_names(
                    (#[trigger] out.deep_view()[i]).1.env,
                ),
        decreases entries@.len(),
    {
        let ghost k = total - entries@.len();
        let ghost suffix = ns.subrange(k, total);
        let ghost ev = entries@;
        let (key, node) = entries.remove(0);
        proof {
            assert(suffix.drop_first() =~= ns.subrange(k + 1, total));
            assert(entry_matches(ev[0], suffix[0]));
            assert forall|i: int| 0 <= i < entries@.len() implies entry_matches(
                #[trigger] entries@[i],
                ns.subrange(k + 1, total)[i],
            ) by {
                assert(entries@[i] == ev[i + 1]);
                assert(entry_matches(ev[i + 1], suffix[i + 1]));
                assert(ns.subrange(k + 1, total)[i] == suffix[i + 1]);
            }
        }
        let key = match key {
            Some(k) => k,
            None => {
                return Err(String::from_str("task names must be strings"));
            },
        };
        proof {
            assert(suffix[0].0 == Some(key@));
            assert(suffix[0].1 == node);
        }
        let task = match task_from(&node) {
            Ok(t) => t,
            Err(m) => {
                return Err(m);
            },
        };
        proof {
            lemma_bind_distinct(out.deep_view(), key@, task@);
            lemma_bind_value_pred(
                out.deep_view(),
                key@,
                task@,
                |t: TaskView| distinct_names(t.env),
            );
        }
        entry_put(&mut out, key, task);
    }
    proof {
        assert(ns.subrange(total, total) =~= Seq::<(Option<Seq<char>>, serde_yaml::Value)>::empty());
    }
    Ok(out)
}

/// Parse one definition document.  An empty document is an empty definition
/// set; otherwise the document must be a mapping, whose `tasks` and `env`
/// sections are read and whose other keys are ignored.  The result is
/// exactly what [`conf_denoted`] says the text denotes.
pub fn parse_conf(text: &str) -> (r: Result<Conf, String>)
    ensures
        match r {
            Ok(c) => conf_denoted(text@) == Ok::<ConfView, Seq<char>>(c@) && c.wf(),
            Err(m) => conf_denoted(text@) == Err::<ConfView, Seq<char>>(m@),
        },
{
    broadcast use lemma_entries_deep_view;

    let root = match yaml_from_str(text) {
        Ok(v) => v,
        Err(m) => {
            return Err(m);
        },
    };
    if yaml_is_null(&root) {
        return Ok(Conf::default());
    }
    let mut entries = match yaml_as_entries(&root) {
        Some(e) => e,
        None => {
            return Err(String::from_str("a definition document must be a mapping"));
        },
    };
    let ghost ns = node_entries(root)->0;
    let mut tasks: Vec<(String, Task)> = Vec::new();
    let mut env: Vec<(String, String)> = Vec::new();
    let ghost total = ns.len() as int;
    proof {
        assert(ns.subrange(0, total) =~= ns);
        assert(tasks.deep_view() =~= Seq::<(Seq<char>, TaskView)>::empty());
        assert(env.deep_view() =~= Seq::<(Seq<char>, Seq<char>)>::empty());
    }
    while entries.len() > 0
        invariant
            parsed_doc(text@) == Ok::<serde_yaml::Value, Seq<char>>(root),
            !node_null(root),
            node_entries(root) == Some(ns),
            total == ns.len(),
            entries@.len() <= ns.len(),
            entries_match(entries@, ns.subrange(total - entries@.len(), total)),
            conf_fold(
                tasks.deep_view(),
                env.deep_view(),
                ns.subrange(total - entries@.len(), total),
            ) == conf_fold(Seq::empty(), Seq::empty(), ns),
            distinct_names(tasks.deep_view()),
            distinct_names(env.deep_view()),
            forall|i: int|
                0 <= i < tasks.deep_view().len() ==> distinct_names(
                    (#[trigger] tasks.deep_view()[i]).1.env,
                ),
        decreases entries@.len(),
    {
        let ghost k = total - entries@.len();
        let ghost suffix = ns.subrange(k, total);
        let ghost ev = entries@;
        let (key, node) = entries.remove(0);
        proof {
            assert(suffix.drop_first() =~= ns.subrange(k + 1, total));
            assert(entry_matches(ev[0], suffix[0]));
            assert forall|i: int| 0 <= i < entries@.len() implies entry_matches(
                #[trigger] entries@[i],
                ns.subrange(k + 1, total)[i],
            ) by {
                assert(entries@[i] == ev[i + 1]);
                assert(entry_matches(ev[i + 1], suffix[i + 1]));
                assert(ns.subrange(k + 1, total)[i] == suffix[i + 1]);
            }
        }
        let key = match key {
            Some(k) => k,
            None => {
                return Err(String::from_str("top-level keys must be strings"));
            },
        };
        proof {
            assert(suffix[0].0 == Some(key@));
            assert(suffix[0].1 == node);
        }
        if key == String::from_str("tasks") {
            match task_table_from(&node) {
                Ok(table) => {
                    tasks = table;
                },
                Err(m) => {
                    return Err(m);
                },
            }
        } else if key == String::from_str("env") {
            match env_table_from(&node) {
                Ok(table) => {
                    env = table;
                },
                Err(m) => {
                    return Err(m);
                },
            }
        }
    }
    proof {
        assert(ns.subrange(total, total) =~= Seq::<(Option<Seq<char>>, serde_yaml::Value)>::empty());
    }
    let conf = Conf { tasks, env };
    proof {
        assert(conf_denoted(text@) == Ok::<ConfView, Seq<char>>(conf@));
    }
    Ok(conf)
}

} // verus!
