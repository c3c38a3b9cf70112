//! Resolving a command's environment bindings, strictly in order.
//!
//! The candidate sequence is the global table extended by the task's own
//! table.  Bindings are then processed one by one: a name the ambient
//! environment already sets keeps its ambient value verbatim; any other
//! value expression must be evaluated by the caller's shell with every
//! previously resolved binding exported, so later expressions can read
//! earlier values.  The resolver is a step machine: it spawns nothing
//! itself, but hands the caller one evaluation request at a time and
//! records the caller's results.

use crate::ordmap::{
    bound_to, combined, copy_strings, copy_table, entry_extend, entry_get, has_name,
};
use vstd::prelude::*;

verus! {

/// One evaluation request: evaluate `expression` as a shell expression,
/// invoked with the positional `args` and with `exports` — every earlier
/// binding, already resolved, in order — present in the evaluation's
/// environment.  The trimmed standard output goes back through
/// [`Resolution::supply`].
#[derive(Debug)]
pub struct EvalRequest {
    /// The name being resolved.
    pub key: String,
    /// The raw value expression to evaluate.
    pub expression: String,
    /// Every binding resolved before this one, in order.
    pub exports: Vec<(String, String)>,
    /// The positional arguments of the invocation.
    pub args: Vec<String>,
}

/// What [`Resolution::step`] asks of the caller.
#[derive(Debug)]
pub enum ResolveStep {
    /// Every binding is resolved; the result is ready.
    Done,
    /// The caller must evaluate this request and record the result with
    /// [`Resolution::supply`].
    Evaluate(EvalRequest),
}

/// The bindings for the plan entries `from..to`, every one taken verbatim
/// from the ambient environment.
pub open spec fn ambient_filled(
    plan: Seq<(Seq<char>, Seq<char>)>,
    ambient: Seq<(Seq<char>, Seq<char>)>,
    from: int,
    to: int,
) -> Seq<(Seq<char>, Seq<char>)> {
    Seq::new((to - from) as nat, |i: int| (plan[from + i].0, bound_to(ambient, plan[from + i].0)))
}

/// What `str::trim_end` returns: the text with its trailing whitespace
/// removed.
pub uninterp spec fn trimmed_trailing(s: Seq<char>) -> Seq<char>;

/// Relies on `str::trim_end`: the result is a prefix of the input — the
/// input with its trailing whitespace removed — and depends on the
/// characters alone.
#[verifier::external_body]
fn trim_trailing(s: &str) -> (r: String)
    ensures
        r@ == trimmed_trailing(s@),
        r@.len() <= s@.len(),
        r@ == s@.take(r@.len() as int),
{
    s.trim_end().to_string()
}

/// The in-progress resolution of one command's bindings.
pub struct Resolution {
    plan: Vec<(String, String)>,
    next: usize,
    ambient: Vec<(String, String)>,
    args: Vec<String>,
    resolved: Vec<(String, String)>,
}

impl Resolution {
    /// The candidate bindings, in order.
    pub closed spec fn plan_v(self) -> Seq<(Seq<char>, Seq<char>)> {
        self.plan.deep_view()
    }

    /// The ambient-environment snapshot.
    pub closed spec fn ambient_v(self) -> Seq<(Seq<char>, Seq<char>)> {
        self.ambient.deep_view()
    }

    /// The positional arguments.
    pub closed spec fn args_v(self) -> Seq<Seq<char>> {
        self.args.deep_view()
    }

    /// The bindings resolved so far, in order.
    pub closed spec fn resolved_v(self) -> Seq<(Seq<char>, Seq<char>)> {
        self.resolved.deep_view()
    }

    /// How many leading plan entries are resolved.
    pub closed spec fn next_v(self) -> int {
        self.next as int
    }

    /// The state is consistent: the resolved bindings cover exactly the
    /// leading plan entries, name for name and in order, and every resolved
    /// name the ambient environment sets carries the ambient value.
    pub closed spec fn wf(self) -> bool {
        &&& self.next_v() <= self.plan_v().len()
        &&& self.resolved_v().len() == self.next_v()
        &&& forall|i: int|
            0 <= i < self.next_v() ==> (#[trigger] self.resolved_v()[i]).0 == self.plan_v()[i].0
        &&& forall|i: int|
            0 <= i < self.next_v() && has_name(self.ambient_v(), self.plan_v()[i].0) ==> (
            #[trigger] self.resolved_v()[i]).1 == bound_to(self.ambient_v(), self.plan_v()[i].0)
    }

    /// Start resolving from an already-built candidate sequence, as a
    /// command spec carries it.
    pub fn with_plan(
        plan: Vec<(String, String)>,
        ambient: Vec<(String, String)>,
        args: Vec<String>,
    ) -> (r: Resolution)
        ensures
            r.wf(),
            r.plan_v() == plan.deep_view(),
            r.ambient_v() == ambient.deep_view(),
            r.args_v() == args.deep_view(),
            r.resolved_v() == Seq::<(Seq<char>, Seq<char>)>::empty(),
            r.next_v() == 0,
    {
        let r = Resolution { plan, next: 0, ambient, args, resolved: Vec::new() };
        proof {
            assert(r.resolved_v() =~= Seq::<(Seq<char>, Seq<char>)>::empty());
        }
        r
    }

    /// Start resolving one command's environment: the candidate sequence is
    /// `base_env` extended by `task_env` (task entries override same-named
    /// globals in place), `ambient` is the caller's snapshot of the ambient
    /// environment, and `args` are the positional arguments.
    pub fn begin(
        base_env: &Vec<(String, String)>,
        task_env: &Vec<(String, String)>,
        ambient: Vec<(String, String)>,
        args: Vec<String>,
    ) -> (r: Resolution)
        ensures
            r.wf(),
            r.plan_v() == combined(base_env.deep_view(), task_env.deep_view()),
            r.ambient_v() == ambient.deep_view(),
            r.args_v() == args.deep_view(),
            r.resolved_v() == Seq::<(Seq<char>, Seq<char>)>::empty(),
            r.next_v() == 0,
    {
        let mut plan = copy_table(base_env);
        let overrides = copy_table(task_env);
        entry_extend(&mut plan, overrides);
        Resolution::with_plan(plan, ambient, args)
    }

    /// Advance the resolution.  Bindings whose names the ambient
    /// environment sets are resolved with their ambient values, in order;
    /// at the first binding that needs shell evaluation an [`Evaluate`]
    /// request is handed out, carrying exactly the bindings resolved so
    /// far as exports.
    ///
    /// [`Evaluate`]: ResolveStep::Evaluate
    pub fn step(&mut self) -> (r: ResolveStep)
        requires
            old(self).wf(),
        ensures
            final(self).wf(),
            final(self).plan_v() == old(self).plan_v(),
            final(self).ambient_v() == old(self).ambient_v(),
            final(self).args_v() == old(self).args_v(),
            old(self).next_v() <= final(self).next_v(),
            final(self).resolved_v() == old(self).resolved_v() + ambient_filled(
                old(self).plan_v(),
                old(self).ambient_v(),
                old(self).next_v(),
                final(self).next_v(),
            ),
            forall|i: int|
                old(self).next_v() <= i < final(self).next_v() ==> has_name(
                    old(self).ambient_v(),
                    (#[trigger] old(self).plan_v()[i]).0,
                ),
            match r {
                ResolveStep::Done => final(self).next_v() == final(self).plan_v().len(),
                ResolveStep::Evaluate(req) => {
                    &&& final(self).next_v() < final(self).plan_v().len()
                    &&& req.key@ == final(self).plan_v()[final(self).next_v()].0
                    &&& req.expression@ == final(self).plan_v()[final(self).next_v()].1
                    &&& !has_name(final(self).ambient_v(), req.key@)
                    &&& req.exports.deep_view() == final(self).resolved_v()
                    &&& req.args.deep_view() == final(self).args_v()
                },
            },
    {
        while self.next < self.plan.len()
            invariant
                self.wf(),
                self.plan == old(self).plan,
                self.ambient == old(self).ambient,
                self.args == old(self).args,
                old(self).next_v() <= self.next_v(),
                self.resolved_v() == old(self).resolved_v() + ambient_filled(
                    old(self).plan_v(),
                    old(self).ambient_v(),
                    old(self).next_v(),
                    self.next_v(),
                ),
                forall|i: int|
                    old(self).next_v() <= i < self.next_v() ==> has_name(
                        old(self).ambient_v(),
                        (#[trigger] old(self).plan_v()[i]).0,
                    ),
            decreases self.plan@.len() - self.next,
        {
            let ghost pre = *self;
            match entry_get(&self.ambient, &self.plan[self.next].0) {
                Some(v) => {
                    let name = self.plan[self.next].0.clone();
                    let value = v.clone();
                    self.resolved.push((name, value));
                    self.next = self.next + 1;
                    proof {
                        assert(self.resolved_v() =~= pre.resolved_v().push(
                            (
                                pre.plan_v()[pre.next_v()].0,
                                bound_to(pre.ambient_v(), pre.plan_v()[pre.next_v()].0),
                            ),
                        ));
                        assert(self.resolved_v() =~= old(self).resolved_v() + ambient_filled(
                            old(self).plan_v(),
                            old(self).ambient_v(),
                            old(self).next_v(),
                            self.next_v(),
                        ));
                    }
                },
                None => {
                    let req = EvalRequest {
                        key: self.plan[self.next].0.clone(),
                        expression: self.plan[self.next].1.clone(),
                        exports: copy_table(&self.resolved),
                        args: copy_strings(&self.args),
                    };
                    return ResolveStep::Evaluate(req);
                },
            }
        }
        proof {
            assert(self.resolved_v() =~= old(self).resolved_v() + ambient_filled(
                old(self).plan_v(),
                old(self).ambient_v(),
                old(self).next_v(),
                self.next_v(),
            ));
        }
        ResolveStep::Done
    }

    /// Record the evaluation result for the binding the last [`step`]
    /// requested: the binding's name with the supplied value is appended to
    /// the resolved bindings, and resolution moves past it.
    ///
    /// [`step`]: Resolution::step
    pub fn supply(&mut self, value: String)
        requires
            old(self).wf(),
            old(self).next_v() < old(self).plan_v().len(),
            !has_name(old(self).ambient_v(), old(self).plan_v()[old(self).next_v()].0),
        ensures
            final(self).wf(),
            final(self).plan_v() == old(self).plan_v(),
            final(self).ambient_v() == old(self).ambient_v(),
            final(self).args_v() == old(self).args_v(),
            final(self).next_v() == old(self).next_v() + 1,
            final(self).resolved_v() == old(self).resolved_v().push(
                (old(self).plan_v()[old(self).next_v()].0, value@),
            ),
    {
        broadcast use crate::ordmap::lemma_entries_deep_view;

        let n = self.plan.len();
        proof {
            assert(n == old(self).plan_v().len());
        }
        let name = self.plan[self.next].0.clone();
        self.resolved.push((name, value));
        self.next = self.next + 1;
        proof {
            assert(self.resolved_v() =~= old(self).resolved_v().push(
                (old(self).plan_v()[old(self).next_v()].0, value@),
            ));
        }
    }

    /// Record a captured evaluation output for the binding the last
    /// [`step`] requested: the output's trailing whitespace is dropped, as
    /// the resolution protocol asks, and the binding is recorded as by
    /// [`supply`].
    ///
    /// [`step`]: Resolution::step
    /// [`supply`]: Resolution::supply
    pub fn supply_output(&mut self, raw: String)
        requires
            old(self).wf(),
            old(self).next_v() < old(self).plan_v().len(),
            !has_name(old(self).ambient_v(), old(self).plan_v()[old(self).next_v()].0),
        ensures
            final(self).wf(),
            final(self).plan_v() == old(self).plan_v(),
            final(self).ambient_v() == old(self).ambient_v(),
            final(self).args_v() == old(self).args_v(),
            final(self).next_v() == old(self).next_v() + 1,
            final(self).resolved_v() == old(self).resolved_v().push(
                (old(self).plan_v()[old(self).next_v()].0, trimmed_trailing(raw@)),
            ),
    {
        let value = trim_trailing(raw.as_str());
        self.supply(value);
    }

    /// The fully resolved bindings, in plan order.
    pub fn into_bindings(self) -> (r: Vec<(String, String)>)
        requires
            self.wf(),
            self.next_v() == self.plan_v().len(),
        ensures
            r.deep_view() == self.resolved_v(),
    {
        self.resolved
    }
}

/// Law: ambient override precedence.  In a consistent resolution state,
/// every binding resolved so far whose name the ambient environment sets
/// carries the ambient value verbatim — the declared value expression was
/// never consulted.
pub proof fn lemma_ambient_override(r: Resolution, i: int)
    requires
        r.wf(),
        0 <= i < r.resolved_v().len(),
        has_name(r.ambient_v(), r.plan_v()[i].0),
    ensures
        r.resolved_v()[i].0 == r.plan_v()[i].0,
        r.resolved_v()[i].1 == bound_to(r.ambient_v(), r.plan_v()[i].0),
{
}

} // verus!
