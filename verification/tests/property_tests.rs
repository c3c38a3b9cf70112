//! Concrete checks of the library's stated properties: merge semantics,
//! ambient override, sequential dependency exports, output ordering,
//! locality, load failure, idempotence, and the error cases.

use doit::{
    collect_outputs, load_from_texts, parse_conf, Conf, ExecError, ExecutionMode, LoadError,
    Resolution, ResolveStep,
};

fn pairs(entries: &[(&str, &str)]) -> Vec<(String, String)> {
    entries
        .iter()
        .map(|(k, v)| (k.to_string(), v.to_string()))
        .collect()
}

#[test]
fn merge_replaces_task_wholesale() {
    let mut parent = parse_conf(
        r#"tasks:
    hello:
        cmd: a
        env:
            KEEP: yes"#,
    )
    .unwrap();
    let child = parse_conf(
        r#"tasks:
    hello:
        cmd: b"#,
    )
    .unwrap();
    parent.extend(child);
    let merged = parent.get_task(&"hello".to_string()).unwrap();
    assert_eq!(merged.cmd, vec!["b".to_string()]);
    // no field-level blending: the parent's task-scoped env is gone too
    assert!(merged.env.is_empty());
}

#[test]
fn merge_env_is_keywise() {
    let mut parent = parse_conf("env:\n    NAME: world\n    A: \"1\"").unwrap();
    let child = parse_conf("env:\n    NAME: child\n    B: \"2\"").unwrap();
    parent.extend(child);
    assert_eq!(parent.env, pairs(&[("NAME", "child"), ("A", "1"), ("B", "2")]));
}

#[test]
fn ambient_key_skips_evaluation() {
    let plan = pairs(&[("NAME_TEST", "declared value")]);
    let ambient = pairs(&[("NAME_TEST", "override")]);
    let mut resolution = Resolution::with_plan(plan, ambient, Vec::new());
    match resolution.step() {
        ResolveStep::Done => {}
        ResolveStep::Evaluate(req) => panic!("unexpected evaluation of {}", req.key),
    }
    assert_eq!(
        resolution.into_bindings(),
        pairs(&[("NAME_TEST", "override")])
    );
}

#[test]
fn evaluation_requests_export_earlier_bindings_in_order() {
    let plan = pairs(&[("HIDDEN", "dworld"), ("NAME", "$HIDDEN")]);
    let mut resolution = Resolution::with_plan(plan, Vec::new(), Vec::new());
    let first = match resolution.step() {
        ResolveStep::Evaluate(req) => req,
        ResolveStep::Done => panic!("expected a request"),
    };
    assert_eq!(first.key, "HIDDEN");
    assert_eq!(first.expression, "dworld");
    assert!(first.exports.is_empty());
    resolution.supply("dworld".to_string());
    let second = match resolution.step() {
        ResolveStep::Evaluate(req) => req,
        ResolveStep::Done => panic!("expected a second request"),
    };
    assert_eq!(second.key, "NAME");
    assert_eq!(second.expression, "$HIDDEN");
    assert_eq!(second.exports, pairs(&[("HIDDEN", "dworld")]));
    resolution.supply("dworld".to_string());
    assert!(matches!(resolution.step(), ResolveStep::Done));
    assert_eq!(
        resolution.into_bindings(),
        pairs(&[("HIDDEN", "dworld"), ("NAME", "dworld")])
    );
}

#[test]
fn task_env_overrides_base_in_place() {
    // the candidate sequence keeps the position of first appearance
    let base = pairs(&[("NAME", "world"), ("OTHER", "kept")]);
    let task_env = pairs(&[("NAME", "task"), ("EXTRA", "new")]);
    let mut resolution = Resolution::begin(&base, &task_env, Vec::new(), Vec::new());
    let mut seen: Vec<(String, String)> = Vec::new();
    loop {
        match resolution.step() {
            ResolveStep::Done => break,
            ResolveStep::Evaluate(req) => {
                let value = req.expression.clone();
                seen.push((req.key.clone(), value.clone()));
                resolution.supply(value);
            }
        }
    }
    assert_eq!(
        seen,
        pairs(&[("NAME", "task"), ("OTHER", "kept"), ("EXTRA", "new")])
    );
}

#[test]
fn evaluation_output_loses_only_trailing_whitespace() {
    let plan = pairs(&[("KEY", "irrelevant")]);
    let mut resolution = Resolution::with_plan(plan, Vec::new(), Vec::new());
    match resolution.step() {
        ResolveStep::Evaluate(_) => resolution.supply_output("  kept \t\n".to_string()),
        ResolveStep::Done => panic!("expected a request"),
    }
    assert_eq!(resolution.into_bindings(), pairs(&[("KEY", "  kept")]));
}

#[test]
fn parse_failure_names_the_failing_level() {
    let good = "tasks:\n    hello:\n        cmd: echo hello";
    let bad = "tasks:\n    hello:\n        cmd: [1, 2]";
    let err = load_from_texts(vec![
        ("/work/child".to_string(), good.to_string()),
        ("/work".to_string(), bad.to_string()),
    ])
    .unwrap_err();
    match err {
        LoadError::Parse { path, message } => {
            assert_eq!(path, "/work");
            assert_eq!(message, "cmd entries must be strings");
        }
        _ => panic!("expected a parse error"),
    }
}

#[test]
fn positional_args_are_forwarded_unchanged() {
    let conf = parse_conf(
        r#"tasks:
    hello:
        cmd: echo hello $1"#,
    )
    .unwrap();
    let args = vec!["real-world".to_string(), "real world".to_string()];
    let plan = conf
        .plan_task(&"hello".to_string(), &args, ExecutionMode::Capture)
        .unwrap();
    assert_eq!(plan.commands.len(), 1);
    assert_eq!(plan.commands[0].args, args);
    assert_eq!(plan.commands[0].script, "echo hello $1");
}

#[test]
fn outputs_concatenate_in_declaration_order() {
    let results = vec![Ok("hello\n".to_string()), Ok("world\n".to_string())];
    assert_eq!(collect_outputs(results).unwrap(), "hello\nworld\n");
}

#[test]
fn first_failure_wins() {
    let results = vec![
        Ok("fine\n".to_string()),
        Err(ExecError::Spawn("first".to_string())),
        Err(ExecError::Spawn("second".to_string())),
    ];
    match collect_outputs(results) {
        Err(ExecError::Spawn(m)) => assert_eq!(m, "first"),
        other => panic!("unexpected result: {:?}", other.is_ok()),
    }
}

#[test]
fn local_task_runs_in_callers_directory() {
    let conf = parse_conf(
        r#"tasks:
    here:
        cmd: echo hi
        workdir: /somewhere/else
        local: true
    there:
        cmd: echo hi
        workdir: /somewhere/else"#,
    )
    .unwrap();
    let args: Vec<String> = Vec::new();
    let local_plan = conf
        .plan_task(&"here".to_string(), &args, ExecutionMode::Capture)
        .unwrap();
    assert!(local_plan.commands[0].effective_workdir().is_none());
    let other_plan = conf
        .plan_task(&"there".to_string(), &args, ExecutionMode::Capture)
        .unwrap();
    assert_eq!(
        other_plan.commands[0].effective_workdir().unwrap(),
        "/somewhere/else"
    );
}

#[test]
fn local_task_stays_local_with_inherited_workdir() {
    let text = r#"tasks:
    here:
        cmd: echo hi
        local: true"#;
    let conf = load_from_texts(vec![("/work".to_string(), text.to_string())]).unwrap();
    let task = conf.get_task(&"here".to_string()).unwrap();
    // the defining directory was stamped in ...
    assert_eq!(task.workdir.as_deref(), Some("/work"));
    let args: Vec<String> = Vec::new();
    let plan = conf
        .plan_task(&"here".to_string(), &args, ExecutionMode::Capture)
        .unwrap();
    // ... but a local task still runs in the caller's directory
    assert!(plan.commands[0].effective_workdir().is_none());
}

#[test]
fn workdir_stamped_before_merge() {
    // the child's own task keeps the child's directory even after the
    // parent level is merged in
    let child = r#"tasks:
    build:
        cmd: echo child"#;
    let parent = r#"tasks:
    build:
        cmd: echo parent"#;
    let conf = load_from_texts(vec![
        ("/work/child".to_string(), child.to_string()),
        ("/work".to_string(), parent.to_string()),
    ])
    .unwrap();
    let task = conf.get_task(&"build".to_string()).unwrap();
    assert_eq!(task.cmd, vec!["echo child".to_string()]);
    assert_eq!(task.workdir.as_deref(), Some("/work/child"));
}

#[test]
fn no_definition_files_means_no_tasks_found() {
    match load_from_texts(Vec::new()) {
        Err(LoadError::NoTasksFound) => {}
        _ => panic!("expected NoTasksFound"),
    }
}

#[test]
fn definitions_without_tasks_mean_no_tasks_found() {
    let err = load_from_texts(vec![(
        "/work".to_string(),
        "env:\n    NAME: world".to_string(),
    )])
    .unwrap_err();
    assert_eq!(err.message(), "No tasks found.");
}

#[test]
fn parse_failure_carries_path_and_message() {
    let err = load_from_texts(vec![(
        "/work".to_string(),
        "tasks: [not, a, mapping".to_string(),
    )])
    .unwrap_err();
    match err {
        LoadError::Parse { path, message } => {
            assert_eq!(path, "/work");
            assert!(!message.is_empty());
        }
        _ => panic!("expected a parse error"),
    }
}

#[test]
fn loading_twice_gives_structurally_equal_sets() {
    let parent = "env:\n    NAME: world\ntasks:\n    hello:\n        cmd: echo hello $NAME";
    let child = "tasks:\n    bye:\n        cmd: echo bye";
    let files = || {
        vec![
            ("/work/child".to_string(), child.to_string()),
            ("/work".to_string(), parent.to_string()),
        ]
    };
    let first = load_from_texts(files()).unwrap();
    let second = load_from_texts(files()).unwrap();
    assert!(first.equal_to(&second));
    assert!(second.equal_to(&first));
}

#[test]
fn structural_equality_sees_every_field() {
    let a = parse_conf("tasks:\n    hello:\n        cmd: echo hello").unwrap();
    let b = parse_conf("tasks:\n    hello:\n        cmd: echo hello\n        hidden: true")
        .unwrap();
    assert!(!a.equal_to(&b));
}

#[test]
fn task_not_found_is_reported() {
    let conf = parse_conf("tasks:\n    hello:\n        cmd: echo hello").unwrap();
    let args: Vec<String> = Vec::new();
    let err = conf
        .plan_task(&"missing".to_string(), &args, ExecutionMode::Capture)
        .unwrap_err();
    match &err {
        ExecError::TaskNotFound(name) => assert_eq!(name, "missing"),
        _ => panic!("expected TaskNotFound"),
    }
    assert_eq!(err.message(), "Task not found");
}

#[test]
fn malformed_documents_are_rejected() {
    assert!(parse_conf("- just\n- a\n- list").is_err());
    assert!(parse_conf("tasks:\n    hello: {}").is_err());
    assert!(parse_conf("tasks:\n    hello:\n        cmd: [1, 2]").is_err());
    assert!(parse_conf("tasks:\n    hello:\n        cmd: echo hi\n        local: maybe").is_err());
    assert!(parse_conf("env:\n    NAME: [list, value]").is_err());
}

#[test]
fn hidden_tasks_are_left_out_of_listings() {
    let conf = parse_conf(
        r#"tasks:
    shown:
        cmd: echo hi
    secret:
        cmd: echo shh
        hidden: true
    also_shown:
        cmd: echo hey"#,
    )
    .unwrap();
    assert_eq!(
        conf.visible_task_names(),
        vec!["shown".to_string(), "also_shown".to_string()]
    );
}

#[test]
fn production_mode_is_kept_in_the_plan() {
    let conf = parse_conf("tasks:\n    hello:\n        cmd: echo hello").unwrap();
    let args: Vec<String> = Vec::new();
    let plan = conf
        .plan_task(&"hello".to_string(), &args, ExecutionMode::Production)
        .unwrap();
    assert!(matches!(plan.mode, ExecutionMode::Production));
}

#[test]
fn env_resolution_is_per_command() {
    let conf = parse_conf(
        r#"env:
    NAME: world
tasks:
    hello:
        cmd:
            - echo a $NAME
            - echo b $NAME"#,
    )
    .unwrap();
    let args: Vec<String> = Vec::new();
    let plan = conf
        .plan_task(&"hello".to_string(), &args, ExecutionMode::Capture)
        .unwrap();
    assert_eq!(plan.commands.len(), 2);
    // each command carries its own copy of the candidate bindings
    assert_eq!(plan.commands[0].env_plan, pairs(&[("NAME", "world")]));
    assert_eq!(plan.commands[1].env_plan, pairs(&[("NAME", "world")]));
}
