//! Folding the definition files found on the walk into one definition set.
//!
//! The caller walks from the starting directory towards the filesystem root
//! and collects, nearest directory first, each definition file's directory
//! and text.  Loading parses each text, stamps unset working directories
//! with the defining directory, and merges so that nearer definitions
//! override farther ones.

use crate::conf::{
    conf_empty, conf_wf, lemma_merge_wf, lemma_stamped_tasks_wf, stamped_tasks, Conf, ConfView,
};
use crate::ordmap::{
    bound_to, combined, distinct_names, has_name, lemma_combined_lookup, lemma_vec_deep_view,
};
use crate::parse::{conf_denoted, parse_conf};
use vstd::prelude::*;

verus! {

/// Why loading failed.
#[derive(Debug)]
pub enum LoadError {
    /// A definition file could not be read; raised by the I/O layer that
    /// walks the directories.
    Io(String),
    /// A definition file did not parse: its directory and the parser's
    /// message.
    Parse { path: String, message: String },
    /// The walk found no task at all.
    NoTasksFound,
}

impl LoadError {
    /// A printable description of the failure.
    pub fn message(&self) -> (r: String)
        ensures
            match self {
                LoadError::Io(m) => r@ == "IO error: "@ + m@,
                LoadError::Parse { path: _, message } => r@ == "Failed to parse config: "@
                    + message@,
                LoadError::NoTasksFound => r@ == "No tasks found."@,
            },
    {
        match self {
            LoadError::Io(m) => String::from_str("IO error: ").concat(m.as_str()),
            LoadError::Parse { path: _, message } => String::from_str(
                "Failed to parse config: ",
            ).concat(message.as_str()),
            LoadError::NoTasksFound => String::from_str("No tasks found."),
        }
    }
}

/// The result of merging one definition level: the already-merged nearer
/// definitions `acc` override the level's own definitions `cand`, whose
/// unset working directories are first stamped with the level's directory.
pub open spec fn level_merged(cand: ConfView, acc: ConfView, dir: Seq<char>) -> ConfView {
    ConfView {
        tasks: combined(stamped_tasks(cand.tasks, dir), acc.tasks),
        env: combined(cand.env, acc.env),
    }
}

/// Fold of [`level_merged`] over definition levels ordered nearest first.
pub open spec fn chain_merged(acc: ConfView, levels: Seq<(ConfView, Seq<char>)>) -> ConfView
    decreases levels.len(),
{
    if levels.len() == 0 {
        acc
    } else {
        chain_merged(level_merged(levels[0].0, acc, levels[0].1), levels.drop_first())
    }
}

/// Merge one definition level: `cand` was parsed from the file found in
/// `dir`, and everything nearer, already merged into `acc`, overrides it.
pub fn merge_level(cand: Conf, acc: Conf, dir: &String) -> (r: Conf)
    requires
        cand.wf(),
        acc.wf(),
    ensures
        r.wf(),
        r@ == level_merged(cand@, acc@, dir@),
{
    let mut merged_set = cand;
    merged_set.stamp_workdirs(dir);
    proof {
        lemma_stamped_tasks_wf(cand@.tasks, dir@);
        assert(conf_wf(merged_set@));
        lemma_merge_wf(merged_set@, acc@);
    }
    merged_set.extend(acc);
    proof {
        assert(merged_set@ =~= level_merged(cand@, acc@, dir@));
        assert(conf_wf(merged_set@));
    }
    merged_set
}

/// Merge parsed definition levels, nearest first: each farther level is
/// merged under everything nearer.
pub fn merge_chain(levels: Vec<(Conf, String)>) -> (r: Conf)
    requires
        forall|i: int|
            0 <= i < levels.deep_view().len() ==> conf_wf((#[trigger] levels.deep_view()[i]).0),
    ensures
        r.wf(),
        r@ == chain_merged(conf_empty(), levels.deep_view()),
{
    broadcast use lemma_vec_deep_view;

    let mut acc = Conf::default();
    let ghost all = levels.deep_view();
    let mut rest = levels;
    while rest.len() > 0
        invariant
            acc.wf(),
            chain_merged(acc@, rest.deep_view()) == chain_merged(conf_empty(), all),
            forall|i: int|
                0 <= i < rest.deep_view().len() ==> conf_wf((#[trigger] rest.deep_view()[i]).0),
        decreases rest@.len(),
    {
        let ghost rv = rest.deep_view();
        let (cand, dir) = rest.remove(0);
        proof {
            assert(rest.deep_view() =~= rv.drop_first());
            assert(rv[0] == (cand@, dir@));
            assert forall|i: int| 0 <= i < rest.deep_view().len() implies conf_wf(
                (#[trigger] rest.deep_view()[i]).0,
            ) by {
                assert(rest.deep_view()[i] == rv[i + 1]);
                assert(conf_wf(rv[i + 1].0));
            }
        }
        acc = merge_level(cand, acc, &dir);
    }
    proof {
        assert(rest.deep_view() =~= Seq::<(ConfView, Seq<char>)>::empty());
    }
    acc
}

/// Law: stamping precedes merging.  A task a nearer level defined — already
/// stamped with that level's own directory when the level was merged — is
/// untouched when a farther level is merged under it, so a task without an
/// explicit working directory keeps the directory of the file that defined
/// it, never an ancestor's.
pub proof fn lemma_nearer_tasks_survive(
    cand: ConfView,
    acc: ConfView,
    dir: Seq<char>,
    name: Seq<char>,
)
    requires
        distinct_names(acc.tasks),
        has_name(acc.tasks, name),
    ensures
        bound_to(level_merged(cand, acc, dir).tasks, name) == bound_to(acc.tasks, name),
{
    lemma_combined_lookup(stamped_tasks(cand.tasks, dir), acc.tasks, name);
}

/// Law: loading is deterministic.  Merging the same parsed definition
/// levels always yields the same definition set, so loading an unchanged
/// directory tree twice yields structurally equal sets.
pub proof fn lemma_load_deterministic(
    a: Seq<(ConfView, Seq<char>)>,
    b: Seq<(ConfView, Seq<char>)>,
)
    requires
        a == b,
    ensures
        chain_merged(conf_empty(), a) == chain_merged(conf_empty(), b),
{
}

/// What a walk's definition texts denote: the parsed levels, each paired
/// with its directory and in walk order, or — for the first text that does
/// not parse to the schema — that level's directory and the message.
pub open spec fn texts_denoted(files: Seq<(Seq<char>, Seq<char>)>) -> Result<
    Seq<(ConfView, Seq<char>)>,
    (Seq<char>, Seq<char>),
>
    decreases files.len(),
{
    if files.len() == 0 {
        Ok(Seq::empty())
    } else {
        match conf_denoted(files[0].1) {
            Err(m) => Err((files[0].0, m)),
            Ok(c) => match texts_denoted(files.drop_first()) {
                Err(e) => Err(e),
                Ok(levels) => Ok(seq![(c, files[0].0)] + levels),
            },
        }
    }
}

/// Load a definition set from the definition texts found on the walk.
/// `files` holds, for each directory that had a definition file, nearest
/// directory first, the directory and the file's text.  The first file that
/// does not parse aborts the load with that level's directory and message;
/// otherwise the levels are merged, and a walk that yields no task — in
/// particular one that found no definition file at all — fails with
/// `NoTasksFound`.
pub fn load_from_texts(files: Vec<(String, String)>) -> (r: Result<Conf, LoadError>)
    ensures
        match r {
            Ok(c) => {
                &&& c.wf()
                &&& c@.tasks.len() > 0
                &&& texts_denoted(files.deep_view()) matches Ok(levels) && c@ == chain_merged(
                    conf_empty(),
                    levels,
                )
            },
            Err(e) => match e {
                LoadError::Parse { path, message } => texts_denoted(files.deep_view()) == Err::<
                    Seq<(ConfView, Seq<char>)>,
                    (Seq<char>, Seq<char>),
                >((path@, message@)),
                LoadError::NoTasksFound => texts_denoted(files.deep_view()) matches Ok(levels)
                    && chain_merged(conf_empty(), levels).tasks.len() == 0,
                LoadError::Io(_) => false,
            },
        },
        files@.len() == 0 ==> r == Result::<Conf, LoadError>::Err(LoadError::NoTasksFound),
{
    broadcast use lemma_vec_deep_view;

    let ghost fdv = files.deep_view();
    let mut levels: Vec<(Conf, String)> = Vec::new();
    let mut rest = files;
    while rest.len() > 0
        invariant
            files.deep_view() == fdv,
            files@.len() == 0 ==> levels@.len() == 0 && rest@.len() == 0,
            match texts_denoted(rest.deep_view()) {
                Ok(ls) => texts_denoted(fdv) == Ok::<
                    Seq<(ConfView, Seq<char>)>,
                    (Seq<char>, Seq<char>),
                >(levels.deep_view() + ls),
                Err(e) => texts_denoted(fdv) == Err::<
                    Seq<(ConfView, Seq<char>)>,
                    (Seq<char>, Seq<char>),
                >(e),
            },
            forall|i: int|
                0 <= i < levels.deep_view().len() ==> conf_wf(
                    (#[trigger] levels.deep_view()[i]).0,
                ),
        decreases rest@.len(),
    {
        let ghost rv = rest.deep_view();
        let ghost lv = levels.deep_view();
        let (dir, text) = rest.remove(0);
        proof {
            assert(rest.deep_view() =~= rv.drop_first());
            assert(rv[0] == (dir@, text@));
        }
        match parse_conf(text.as_str()) {
            Ok(cand) => {
                levels.push((cand, dir));
                proof {
                    assert(levels.deep_view() =~= lv.push((cand@, dir@)));
                    if texts_denoted(rest.deep_view()) is Ok {
                        let ls = texts_denoted(rest.deep_view())->Ok_0;
                        assert(texts_denoted(rv) == Ok::<
                            Seq<(ConfView, Seq<char>)>,
                            (Seq<char>, Seq<char>),
                        >(seq![(cand@, dir@)] + ls));
                        assert(lv + (seq![(cand@, dir@)] + ls) =~= levels.deep_view() + ls);
                    }
                    assert forall|i: int| 0 <= i < levels.deep_view().len() implies conf_wf(
                        (#[trigger] levels.deep_view()[i]).0,
                    ) by {
                        if i < lv.len() {
                            assert(levels.deep_view()[i] == lv[i]);
                        } else {
                            assert(levels.deep_view()[i] == (cand@, dir@));
                        }
                    }
                }
            },
            Err(m) => {
                proof {
                    assert(conf_denoted(text@) == Err::<ConfView, Seq<char>>(m@));
                    assert(texts_denoted(rv) == Err::<
                        Seq<(ConfView, Seq<char>)>,
                        (Seq<char>, Seq<char>),
                    >((dir@, m@)));
                }
                return Err(LoadError::Parse { path: dir, message: m });
            },
        }
    }
    proof {
        assert(rest.deep_view() =~= Seq::<(Seq<char>, Seq<char>)>::empty());
        assert(texts_denoted(rest.deep_view()) == Ok::<
            Seq<(ConfView, Seq<char>)>,
            (Seq<char>, Seq<char>),
        >(Seq::empty()));
        assert(levels.deep_view() + Seq::<(ConfView, Seq<char>)>::empty() =~= levels.deep_view());
    }
    let merged_set = merge_chain(levels);
    if merged_set.tasks.len() == 0 {
        Err(LoadError::NoTasksFound)
    } else {
        Ok(merged_set)
    }
}

} // verus!
