use blaunch::{borrow_nodes, on_text_changed, resolve, shell_command, starts_with, Config, Node, Reaction, Resolved};

fn leaf(shortcut: &str, command: &str) -> Node {
    Node {
        shortcut: shortcut.to_string(),
        description: format!("{} entry", shortcut),
        command: Some(command.to_string()),
        children: None,
    }
}

fn group(shortcut: &str, children: Vec<Node>) -> Node {
    Node {
        shortcut: shortcut.to_string(),
        description: format!("{} group", shortcut),
        command: None,
        children: Some(children),
    }
}

fn menu() -> Vec<Node> {
    vec![
        leaf("terminal", "xfce4-terminal"),
        group("web", vec![leaf("chrome", "chromium"), leaf("firefox", "firefox")]),
    ]
}

fn shortcuts(r: &Resolved) -> Option<Vec<String>> {
    match r {
        Resolved::Partial(ns) => Some(ns.iter().map(|n| n.shortcut.clone()).collect()),
        Resolved::Complete(_) => None,
    }
}

fn completed(r: &Resolved) -> Option<String> {
    match r {
        Resolved::Complete(n) => Some(n.shortcut.clone()),
        Resolved::Partial(_) => None,
    }
}

#[test]
fn empty_input_lists_root_in_order() {
    let m = menu();
    let r = resolve(borrow_nodes(&m), String::new());
    assert_eq!(shortcuts(&r), Some(vec!["terminal".to_string(), "web".to_string()]));
}

#[test]
fn group_shortcut_lists_children_in_order() {
    let m = menu();
    let r = resolve(borrow_nodes(&m), "web".to_string());
    assert_eq!(shortcuts(&r), Some(vec!["chrome".to_string(), "firefox".to_string()]));
}

#[test]
fn partial_result_keeps_candidate_order() {
    let m = vec![leaf("bb", "b"), leaf("ba", "a"), leaf("c", "c"), leaf("bc", "x")];
    let r = resolve(borrow_nodes(&m), "b".to_string());
    assert_eq!(
        shortcuts(&r),
        Some(vec!["bb".to_string(), "ba".to_string(), "bc".to_string()])
    );
}

#[test]
fn overshooting_a_terminal_matches_nothing() {
    let m = menu();
    let r = resolve(borrow_nodes(&m), "terminalx".to_string());
    assert_eq!(shortcuts(&r), Some(vec![]));
}

#[test]
fn unknown_child_matches_nothing() {
    let m = menu();
    let r = resolve(borrow_nodes(&m), "webopera".to_string());
    assert_eq!(shortcuts(&r), Some(vec![]));
}

#[test]
fn first_consuming_sibling_wins() {
    let m = vec![leaf("go", "first"), leaf("go2", "second")];
    let r = resolve(borrow_nodes(&m), "go".to_string());
    assert_eq!(completed(&r), Some("go".to_string()));
    let r = resolve(borrow_nodes(&m), "go2".to_string());
    assert_eq!(shortcuts(&r), Some(vec![]));
}

#[test]
fn prefix_that_also_matches_later_sibling_waits() {
    let m = vec![leaf("go2", "second"), leaf("go", "first")];
    let r = resolve(borrow_nodes(&m), "g".to_string());
    assert_eq!(shortcuts(&r), Some(vec!["go2".to_string(), "go".to_string()]));
}

#[test]
fn resolving_twice_gives_equal_results() {
    let m = menu();
    for input in ["", "t", "web", "webchr", "webfirefox", "wrong", "terminal"] {
        let a = resolve(borrow_nodes(&m), input.to_string());
        let b = resolve(borrow_nodes(&m), input.to_string());
        assert_eq!(a, b);
    }
}

#[test]
fn non_ascii_shortcuts_are_stripped_by_characters() {
    let m = vec![group("é", vec![leaf("ü", "u"), leaf("x", "x")])];
    let r = resolve(borrow_nodes(&m), "éü".to_string());
    assert_eq!(completed(&r), Some("ü".to_string()));
    let r = resolve(borrow_nodes(&m), "é".to_string());
    assert_eq!(shortcuts(&r), Some(vec!["ü".to_string(), "x".to_string()]));
}

#[test]
fn deep_groups_resolve() {
    let m = vec![group("a", vec![group("b", vec![leaf("c", "run")])])];
    let r = resolve(borrow_nodes(&m), "abc".to_string());
    assert_eq!(completed(&r), Some("c".to_string()));
    let r = resolve(borrow_nodes(&m), "ab".to_string());
    assert_eq!(shortcuts(&r), Some(vec!["c".to_string()]));
}

#[test]
fn starts_with_compares_characters() {
    assert!(starts_with("webfirefox", "web"));
    assert!(starts_with("web", ""));
    assert!(!starts_with("we", "web"));
    assert!(!starts_with("wab", "web"));
}

#[test]
fn borrow_nodes_keeps_order() {
    let m = menu();
    let b = borrow_nodes(&m);
    assert_eq!(b.len(), 2);
    assert_eq!(b[0].shortcut, "terminal");
    assert_eq!(b[1].shortcut, "web");
}

#[test]
fn shell_command_strips_prefix() {
    assert_eq!(shell_command("!", "!ls -l"), Some("ls -l".to_string()));
    assert_eq!(shell_command("$ ", "$ echo é"), Some("echo é".to_string()));
    assert_eq!(shell_command("!", "ls"), None);
    assert_eq!(shell_command("!", "!"), Some(String::new()));
}

#[test]
fn text_changes_react() {
    let config = Config { shell_prefix: "!".to_string(), menu: menu() };
    assert!(matches!(on_text_changed(&config, "!ls".to_string()), Reaction::ShellHint));
    match on_text_changed(&config, "webfirefox".to_string()) {
        Reaction::Launch(n) => assert_eq!(n.command, Some("firefox".to_string())),
        _ => panic!("expected a launch"),
    }
    match on_text_changed(&config, "w".to_string()) {
        Reaction::Show(ns) => {
            assert_eq!(ns.len(), 1);
            assert_eq!(ns[0].shortcut, "web");
        }
        _ => panic!("expected entries to show"),
    }
}
