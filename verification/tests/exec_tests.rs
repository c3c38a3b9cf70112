//! End-to-end execution scenarios, driven through the library's planning
//! and resolution machinery with a tiny in-process stand-in for the shell
//! (enough to run the `echo` scripts these scenarios use).

use doit::{collect_outputs, parse_conf, Conf, ExecError, ExecutionMode, Resolution, ResolveStep};

fn lookup<'a>(table: &'a [(String, String)], key: &str) -> Option<&'a str> {
    table.iter().find(|(k, _)| k == key).map(|(_, v)| v.as_str())
}

/// Substitute `$1`-style positional parameters and `$NAME`-style variables,
/// the way the shell would when running an evaluation script.
fn substitute(
    expr: &str,
    env: &[(String, String)],
    ambient: &[(String, String)],
    args: &[String],
) -> String {
    let chars: Vec<char> = expr.chars().collect();
    let mut out = String::new();
    let mut i = 0;
    while i < chars.len() {
        if chars[i] == '$' {
            let mut j = i + 1;
            while j < chars.len() && (chars[j].is_alphanumeric() || chars[j] == '_') {
                j += 1;
            }
            let name: String = chars[i + 1..j].iter().collect();
            if !name.is_empty() {
                if let Ok(n) = name.parse::<usize>() {
                    if n >= 1 && n <= args.len() {
                        out.push_str(&args[n - 1]);
                    }
                } else if let Some(v) = lookup(ambient, &name) {
                    out.push_str(v);
                } else if let Some(v) = lookup(env, &name) {
                    out.push_str(v);
                }
                i = j;
                continue;
            }
        }
        out.push(chars[i]);
        i += 1;
    }
    out
}

/// Run one command body: each `echo` line prints its substituted arguments.
fn run_script(
    script: &str,
    env: &[(String, String)],
    ambient: &[(String, String)],
    args: &[String],
) -> String {
    let mut out = String::new();
    for line in script.lines() {
        let line = line.trim();
        if let Some(rest) = line.strip_prefix("echo ") {
            out.push_str(&substitute(rest, env, ambient, args));
            out.push('\n');
        }
    }
    out
}

/// Plan the named task, resolve each command's environment through the
/// resolution machine, run each command with the fake shell, and assemble
/// the outputs in declaration order.
fn run_task(
    conf: &Conf,
    cmd: Vec<&str>,
    ambient: &[(String, String)],
) -> Result<String, ExecError> {
    let name = cmd[0].to_string();
    let args: Vec<String> = cmd[1..].iter().map(|s| s.to_string()).collect();
    let plan = conf.plan_task(&name, &args, ExecutionMode::Capture)?;
    let mut results: Vec<Result<String, ExecError>> = Vec::new();
    for command in plan.commands {
        let mut resolution =
            Resolution::with_plan(command.env_plan, ambient.to_vec(), command.args.clone());
        loop {
            match resolution.step() {
                ResolveStep::Done => break,
                ResolveStep::Evaluate(req) => {
                    // `echo` prints the substituted expression and a newline;
                    // the resolver drops the trailing whitespace
                    let raw =
                        format!("{}\n", substitute(&req.expression, &req.exports, ambient, &req.args));
                    resolution.supply_output(raw);
                }
            }
        }
        let bindings = resolution.into_bindings();
        results.push(Ok(run_script(&command.script, &bindings, ambient, &args)));
    }
    collect_outputs(results)
}

#[test]
fn test_does_not_panic_when_missing() {
    let conf = Conf::default();
    assert!(run_task(&conf, vec!["nonexistent"], &[]).is_err());
}

#[test]
fn test_parallel_execution() {
    let text = r#"
tasks:
    hello:
        cmd:
            - echo hello
            - echo world"#;
    let conf = parse_conf(text).unwrap();
    assert_eq!(run_task(&conf, vec!["hello"], &[]).unwrap(), "hello\nworld\n");
}

#[test]
fn exec_test_global_env() {
    let text = r#"
env:
    NAME: "world"
tasks:
    hello:
        cmd: echo hello $NAME"#;
    let conf = parse_conf(text).unwrap();
    assert_eq!(run_task(&conf, vec!["hello"], &[]).unwrap(), "hello world\n");
}

#[test]
fn exec_test_parnent_env_override() {
    let parent = r#"env:
    NAME: world
    "#;
    let child = r#"env:
    NAME: child
tasks:
    hello:
        cmd: echo hello $NAME"#;
    let mut conf = parse_conf(parent).unwrap();
    let child_conf = parse_conf(child).unwrap();
    conf.extend(child_conf);
    assert_eq!(run_task(&conf, vec!["hello"], &[]).unwrap(), "hello child\n");
}

#[test]
fn exec_test_task_env_override() {
    let parent = r#"env:
    NAME: world
tasks:
    hello:
        cmd: echo hello $NAME
        env:
            NAME: task"#;
    let conf = parse_conf(parent).unwrap();
    assert_eq!(run_task(&conf, vec!["hello"], &[]).unwrap(), "hello task\n");
}

#[test]
fn exec_test_extra_args() {
    let conf = parse_conf(
        r#"tasks:
    hello:
        cmd: echo hello $1"#,
    )
    .unwrap();
    assert_eq!(
        run_task(&conf, vec!["hello", "world"], &[]).unwrap(),
        "hello world\n"
    );
}

#[test]
fn exec_test_args_to_env() {
    let conf = parse_conf(
        r#"tasks:
        hello:
            cmd: echo hello $ARGS
            env:
                ARGS: $1"#,
    )
    .unwrap();
    assert_eq!(
        run_task(&conf, vec!["hello", "world"], &[]).unwrap(),
        "hello world\n"
    );
}

#[test]
fn exec_test_evaluated_env() {
    let conf = parse_conf(
        r#"tasks:
    hello:
        cmd: echo hello $NAME
        env:
            HIDDEN: dworld
            NAME: $HIDDEN"#,
    )
    .unwrap();
    assert_eq!(run_task(&conf, vec!["hello"], &[]).unwrap(), "hello dworld\n");
}

#[test]
fn exec_test_hyphenated_args() {
    let conf = parse_conf(
        r#"tasks:
    hello:
        cmd: echo hello $1"#,
    )
    .unwrap();
    assert_eq!(
        run_task(&conf, vec!["hello", "real-world"], &[]).unwrap(),
        "hello real-world\n"
    );
}

#[test]
fn exec_test_multiline_command() {
    let conf = parse_conf(
        r#"
tasks:
    hello:
        cmd: |
            echo hello
            echo world"#,
    )
    .unwrap();
    assert_eq!(run_task(&conf, vec!["hello"], &[]).unwrap(), "hello\nworld\n");
}

#[test]
fn exec_test_multiple_args() {
    let conf = parse_conf(
        r#"tasks:
    hello:
        cmd: echo hello $1 $2"#,
    )
    .unwrap();
    assert_eq!(
        run_task(&conf, vec!["hello", "real", "world"], &[]).unwrap(),
        "hello real world\n"
    );
}

#[test]
fn exec_test_quoted_args() {
    let conf = parse_conf(
        r#"tasks:
    hello:
        cmd: echo hello $1"#,
    )
    .unwrap();
    assert_eq!(
        run_task(&conf, vec!["hello", "real world"], &[]).unwrap(),
        "hello real world\n"
    );
}

#[test]
fn exec_test_override_env() {
    let ambient = vec![("NAME_TEST".to_string(), "override".to_string())];
    let conf = parse_conf(
        r#"env:
    NAME: world
tasks:
    hello:
        cmd: echo hello $NAME_TEST"#,
    )
    .unwrap();
    assert_eq!(
        run_task(&conf, vec!["hello"], &ambient).unwrap(),
        "hello override\n"
    );
}

#[test]
fn exec_parent_and_local_tasks_combine() {
    let parent = r#"env:
    NAME: world
tasks:
    hello:
        cmd: echo hello""#;
    let child = r#"env:
    BOY: child
tasks:
    bye:
        cmd: echo bye"#;
    let conf = doit::load_from_texts(vec![
        ("/work/child".to_string(), child.to_string()),
        ("/work".to_string(), parent.to_string()),
    ])
    .unwrap();
    assert_eq!(conf.tasks.len(), 2);
    assert_eq!(conf.env.len(), 2);
}

#[test]
fn lib_test_deserialize_cmds() {
    let text = r#"
tasks:
    hello:
        cmd: echo hello"#;
    let conf = parse_conf(text).unwrap();
    assert_eq!(conf.get_task(&"hello".to_string()).unwrap().cmd[0], "echo hello");
}

#[test]
fn lib_test_multiline_command() {
    let conf = parse_conf(
        r#"
tasks:
    hello:
        cmd: |
            echo hello
            echo world"#,
    )
    .unwrap();
    let res = run_task(&conf, vec!["hello"], &[]).unwrap();
    assert_eq!(res, "hello\nworld\n");
}

#[test]
fn lib_test_global_env() {
    let text = r#"
env:
    NAME: "world"
tasks:
    hello:
        cmd: echo hello $NAME"#;
    let conf = parse_conf(text).unwrap();
    assert_eq!(run_task(&conf, vec!["hello"], &[]).unwrap(), "hello world\n");
}

#[test]
fn lib_test_defaults() {
    parse_conf("").unwrap();
}

#[test]
fn lib_test_extend() {
    let parent = r#"env:
    NAME: world
"#;
    let child = r#"tasks:
    hello:
        cmd: echo hello $NAME"#;
    let mut conf = parse_conf(parent).unwrap();
    let child_conf = parse_conf(child).unwrap();
    conf.extend(child_conf);
    assert_eq!(run_task(&conf, vec!["hello"], &[]).unwrap(), "hello world\n");
}

#[test]
fn lib_test_parnent_env_override() {
    let parent = r#"env:
    NAME: world
    "#;
    let child = r#"env:
    NAME: child
tasks:
    hello:
        cmd: echo hello $NAME"#;
    let mut conf = parse_conf(parent).unwrap();
    let child_conf = parse_conf(child).unwrap();
    conf.extend(child_conf);
    assert_eq!(run_task(&conf, vec!["hello"], &[]).unwrap(), "hello child\n");
}

#[test]
fn lib_test_task_env_override() {
    let parent = r#"env:
    NAME: world
tasks:
    hello:
        cmd: echo hello $NAME
        env:
            NAME: task"#;
    let conf = parse_conf(parent).unwrap();
    assert_eq!(run_task(&conf, vec!["hello"], &[]).unwrap(), "hello task\n");
}

#[test]
fn lib_test_combine_tasks() {
    let mut conf = parse_conf(
        r#"tasks:
    hello:
        cmd: echo hello"#,
    )
    .unwrap();
    let child = parse_conf(
        r#"tasks:
    bye:
        cmd: echo bye"#,
    )
    .unwrap();
    conf.extend(child);
    assert_eq!(conf.tasks.len(), 2);
}

#[test]
fn lib_test_local_default() {
    let text = r#"
tasks:
    hello:
        cmd: echo hello
"#;
    let conf = parse_conf(text).unwrap();
    assert!(!conf.get_task(&"hello".to_string()).unwrap().local);
}

#[test]
fn lib_parent_and_local_tasks_combine() {
    let parent = r#"env:
    NAME: world
tasks:
    hello:
        cmd: echo hello""#;
    let child = r#"env:
    BOY: child
tasks:
    bye:
        cmd: echo bye"#;
    let conf = doit::load_from_texts(vec![
        ("/work/child".to_string(), child.to_string()),
        ("/work".to_string(), parent.to_string()),
    ])
    .unwrap();
    assert_eq!(conf.tasks.len(), 2);
    assert_eq!(conf.env.len(), 2);
}

#[test]
fn lib_test_extra_args() {
    let conf = parse_conf(
        r#"tasks:
    hello:
        cmd: echo hello $1"#,
    )
    .unwrap();
    assert_eq!(
        run_task(&conf, vec!["hello", "world"], &[]).unwrap(),
        "hello world\n"
    );
}

#[test]
fn lib_test_args_to_env() {
    let conf = parse_conf(
        r#"tasks:
        hello:
            cmd: echo hello $ARGS
            env:
                ARGS: $1"#,
    )
    .unwrap();
    assert_eq!(
        run_task(&conf, vec!["hello", "world"], &[]).unwrap(),
        "hello world\n"
    );
}

#[test]
fn lib_test_evaluated_env() {
    let conf = parse_conf(
        r#"tasks:
    hello:
        cmd: echo hello $NAME
        env:
            HIDDEN: dworld
            NAME: $HIDDEN"#,
    )
    .unwrap();
    assert_eq!(run_task(&conf, vec!["hello"], &[]).unwrap(), "hello dworld\n");
}

#[test]
fn lib_test_hyphenated_args() {
    let conf = parse_conf(
        r#"tasks:
    hello:
        cmd: echo hello $1"#,
    )
    .unwrap();
    assert_eq!(
        run_task(&conf, vec!["hello", "real-world"], &[]).unwrap(),
        "hello real-world\n"
    );
}

#[test]
fn lib_test_multiple_args() {
    let conf = parse_conf(
        r#"tasks:
    hello:
        cmd: echo hello $1 $2"#,
    )
    .unwrap();
    assert_eq!(
        run_task(&conf, vec!["hello", "real", "world"], &[]).unwrap(),
        "hello real world\n"
    );
}

#[test]
fn lib_test_quoted_args() {
    let conf = parse_conf(
        r#"tasks:
    hello:
        cmd: echo hello $1"#,
    )
    .unwrap();
    assert_eq!(
        run_task(&conf, vec!["hello", "real world"], &[]).unwrap(),
        "hello real world\n"
    );
}

#[test]
fn lib_test_override_env() {
    let ambient = vec![("NAME_TEST".to_string(), "override".to_string())];
    let conf = parse_conf(
        r#"env:
    NAME: world
tasks:
    hello:
        cmd: echo hello $NAME_TEST"#,
    )
    .unwrap();
    assert_eq!(
        run_task(&conf, vec!["hello"], &ambient).unwrap(),
        "hello override\n"
    );
}
