use wl_pick::sway::{
    Display, Named, Node, NodeType, Output, choose_socket, displays, env_socket, focused, is_sway,
    socket_pid, targets, unreachable_socket, windows,
};

#[test]
fn a_socket_name_gives_up_its_pid() {
    assert_eq!(socket_pid("sway-ipc.1000.573773.sock"), Some("573773"));
    // Anything that is not a live sway's socket must not be tried: the
    // runtime directory is full of other people's sockets.
    assert_eq!(socket_pid("wayland-1"), None);
    assert_eq!(socket_pid("sway-ipc.1000.573773.sock.bak"), None);
    assert_eq!(socket_pid("i3-ipc.1000.5.sock"), None);
    assert_eq!(socket_pid("sway-ipc.1000..sock"), None);
    assert_eq!(socket_pid("sway-ipc.1000.notapid.sock"), None);
}

#[test]
fn a_socket_name_has_a_uid_too() {
    assert_eq!(socket_pid("sway-ipc.573773.sock"), None);
    assert_eq!(socket_pid("sway-ipc..573773.sock"), None);
    assert_eq!(socket_pid("sway-ipc.user.573773.sock"), None);
    assert_eq!(socket_pid("sway-ipc.1.2.3.sock"), None);
    assert_eq!(socket_pid("sway-ipc.sock"), None);
    assert_eq!(socket_pid("sway-ipc.0.1.sock"), Some("1"));
}

#[test]
fn only_a_sway_is_a_sway() {
    assert!(is_sway("sway\n"));
    assert!(!is_sway("swaybg\n"));
    assert!(!is_sway(""));
}

fn named(path: &str, exists: bool) -> Option<Named> {
    Some(Named { path: path.to_string(), exists })
}

#[test]
fn the_environment_wins_where_it_points_at_something() {
    assert_eq!(env_socket(named("/a", true), named("/b", true)), Some("/a".to_string()));
    assert_eq!(env_socket(named("/a", false), named("/b", true)), Some("/b".to_string()));
    assert_eq!(env_socket(None, named("/b", false)), None);
    assert_eq!(env_socket(None, None), None);
}

#[test]
fn one_running_sway_is_the_one() {
    assert_eq!(choose_socket(&["/run/a".to_string()]), Ok("/run/a".to_string()));
    let none = choose_socket(&[]).unwrap_err();
    assert!(none.starts_with("cannot reach sway;"), "{none}");
    assert_eq!(
        choose_socket(&["/run/a".to_string(), "/run/b".to_string()]),
        Err(
            "several sway sockets to choose from (/run/a, /run/b); set SWAYSOCK to the one you mean"
                .to_string()
        )
    );
    assert_eq!(unreachable_socket("/run/a", "refused"), "cannot reach sway on /run/a (refused)");
}

fn node(id: i64, node_type: NodeType, app: Option<&str>, class: Option<&str>) -> Node {
    Node {
        id,
        node_type,
        app_id: app.map(|s| s.to_string()),
        class: class.map(|s| s.to_string()),
        foreign_toplevel_identifier: Some(format!("ft{id}")),
        name: Some(format!("title {id}")),
        nodes: Vec::new(),
        floating_nodes: Vec::new(),
    }
}

#[test]
fn windows_come_in_tree_order() {
    let mut root = node(1, NodeType::Other, None, None);
    let mut workspace = node(2, NodeType::Other, Some("not a window"), None);
    let mut split = node(3, NodeType::Con, None, None);
    split.nodes.push(node(4, NodeType::Con, Some("kitty"), None));
    split.nodes.push(node(5, NodeType::Con, None, Some("XTerm")));
    workspace.floating_nodes.push(node(6, NodeType::FloatingCon, Some("mpv"), Some("ignored")));
    workspace.nodes.push(split);
    root.nodes.push(workspace);
    let rows: Vec<String> = windows(&root).iter().map(|t| t.tsv()).collect();
    assert_eq!(
        rows,
        vec![
            "window\t4\tft4\tkitty\ttitle 4",
            "window\t5\tft5\tXTerm\ttitle 5",
            "window\t6\tft6\tmpv\ttitle 6",
        ]
    );
}

#[test]
fn a_view_without_an_identifier_still_gets_a_tile() {
    let mut view = node(9, NodeType::Con, Some("x"), None);
    view.foreign_toplevel_identifier = None;
    view.name = None;
    let found = windows(&view);
    assert_eq!(found.len(), 1);
    assert_eq!(found[0].tsv(), "window\t9\t\tx\t");
}

fn output(name: &str, active: bool, scale: Option<i32>, focused: bool) -> Output {
    Output { name: name.to_string(), active, width: 1280, height: 720, scale, focused }
}

#[test]
fn only_active_displays_count_and_the_focused_one_is_taken() {
    let all = displays(&[
        output("A", true, Some(0), false),
        output("B", false, Some(2), true),
        output("C", true, Some(2), true),
        output("D", true, None, false),
    ]);
    let names: Vec<&str> = all.iter().map(|d| d.name.as_str()).collect();
    assert_eq!(names, vec!["A", "C", "D"]);
    let scales: Vec<i32> = all.iter().map(|d| d.scale).collect();
    assert_eq!(scales, vec![1, 2, 1]);
    assert_eq!(focused(&all).map(|d| d.name.as_str()), Some("C"));
    assert_eq!(focused(&all[2..]).map(|d| d.name.as_str()), Some("D"));
    assert!(focused(&[]).is_none());
}

#[test]
fn displays_go_after_the_windows() {
    let view = node(9, NodeType::Con, Some("x"), None);
    let shown: Vec<Display> = displays(&[output("A", true, None, false)]);
    let with = targets(windows(&view), &shown, true);
    assert_eq!(with.len(), 2);
    assert_eq!(with[0].id, "9");
    assert_eq!(with[1].id, "A");
    assert_eq!(targets(windows(&view), &shown, false).len(), 1);
}
