use doit::{parse_conf, Conf, Task};

#[test]
fn test_deserialize_cmds_handling() {
    let conf = parse_conf(
        r#"
            tasks:
                booba:
                    cmd : ["hi"]
        "#,
    )
    .unwrap();
    let task = conf.get_task(&"booba".to_string()).unwrap();
    assert_eq!(task.cmd, vec!["hi".to_string()]);
}

#[test]
fn test_task_default_visible() {
    assert!(!Task::default().hidden);
}

#[test]
fn config_test_deserialize_cmds() {
    let text = r#"
tasks:
    hello:
        cmd: echo hello"#;
    let conf = parse_conf(text).unwrap();
    let task = conf.get_task(&"hello".to_string()).unwrap();
    assert_eq!(task.cmd[0], "echo hello");
}

#[test]
fn test_default_values() {
    let empty = Conf {
        tasks: Vec::new(),
        env: Vec::new(),
    };
    assert!(Conf::default().equal_to(&empty));
}

#[test]
fn config_test_defaults() {
    parse_conf("").unwrap();
}

#[test]
fn config_test_extend() {
    let parent = r#"env:
    NAME: world
"#;
    let child = r#"tasks:
    hello:
        cmd: echo hello $NAME"#;
    let mut conf = parse_conf(parent).unwrap();
    let child_conf = parse_conf(child).unwrap();
    conf.extend(child_conf);
    let task = conf.get_task(&"hello".to_string()).unwrap();
    assert_eq!(task.cmd[0], r#"echo hello $NAME"#);
}

#[test]
fn config_test_combine_tasks() {
    let mut conf = parse_conf(
        r#"tasks:
    hello:
        cmd: echo hello"#,
    )
    .unwrap();
    let child = parse_conf(
        r#"tasks:
    bye:
        cmd: echo bye"#,
    )
    .unwrap();
    conf.extend(child);
    assert_eq!(conf.tasks.len(), 2);
}

#[test]
fn config_test_local_default() {
    let text = r#"
tasks:
    hello:
        cmd: echo hello
"#;
    let conf = parse_conf(text).unwrap();
    assert!(!conf.get_task(&"hello".to_string()).unwrap().local);
}
