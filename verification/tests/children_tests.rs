use hoptodesk::children::{
    child_command_line, close_remote_connection, list_active_connections, new_remote_action,
    recent_sessions_updated, remote_args, send_dismiss_to_all_children, send_to_child,
    ChildPipes, ChildStatus, Children, NewRemoteAction,
};

fn strs(v: &[&str]) -> Vec<String> {
    v.iter().map(|s| s.to_string()).collect()
}

fn key(a: &str, b: &str) -> (String, String) {
    (a.to_string(), b.to_string())
}

#[test]
fn remote_args_for_sessions() {
    assert_eq!(remote_args("123", "connect", false, None, None), strs(&["--connect", "123"]));
    assert_eq!(
        remote_args("123", "file-transfer", false, None, Some("pw".to_string())),
        strs(&["--file-transfer", "123", "--password", "pw"])
    );
    assert_eq!(
        remote_args("123", "rdp", true, Some("me".to_string()), None),
        strs(&["--rdp", "123", "", "--relay"])
    );
}

#[test]
fn remote_args_for_invites() {
    assert_eq!(
        remote_args("123", "invite", true, Some("me".to_string()), Some("pw".to_string())),
        strs(&["--invite", "123", "me", "pw", "--relay"])
    );
    assert_eq!(
        remote_args("123", "invite", false, None, Some("pw".to_string())),
        strs(&["--invite", "123", "pw"])
    );
}

#[test]
fn new_remote_decisions() {
    let mut c = Children::new();
    assert_eq!(new_remote_action(&c, "1", "connect", ChildStatus::Running), NewRemoteAction::Spawn);
    c.add_session("1", "connect");
    c.add_session("1", "rdp");
    assert_eq!(
        new_remote_action(&c, "1", "connect", ChildStatus::Running),
        NewRemoteAction::AlreadyOpen
    );
    assert_eq!(
        new_remote_action(&c, "1", "connect", ChildStatus::Unknown),
        NewRemoteAction::AlreadyOpen
    );
    assert_eq!(
        new_remote_action(&c, "1", "connect", ChildStatus::Exited),
        NewRemoteAction::ReplaceFinished
    );
    assert_eq!(
        new_remote_action(&c, "1", "rdp", ChildStatus::Running),
        NewRemoteAction::KillAndReplace
    );
    assert_eq!(new_remote_action(&c, "2", "rdp", ChildStatus::Running), NewRemoteAction::Spawn);
}

#[test]
fn adding_twice_keeps_one_session() {
    let mut c = Children::new();
    c.add_session("1", "connect");
    c.add_session("1", "connect");
    assert_eq!(c.session_keys(), vec![key("1", "connect")]);
    assert!(c.has_session("1", "connect"));
    c.remove_session("1", "connect");
    assert!(!c.has_session("1", "connect"));
    assert!(c.session_keys().is_empty());
}

#[test]
fn recent_sessions_flag_is_read_once() {
    let mut c = Children::new();
    assert!(!recent_sessions_updated(&mut c));
    c.mark_updated();
    assert!(recent_sessions_updated(&mut c));
    assert!(!recent_sessions_updated(&mut c));
}

#[test]
fn closing_a_peer_drops_stopped_sessions_and_its_pipes() {
    let mut c = Children::new();
    let mut p = ChildPipes::new();
    c.add_session("1", "connect");
    c.add_session("1", "rdp");
    c.add_session("2", "connect");
    p.add_pipe("1", "connect");
    p.add_pipe("1", "rdp");
    p.add_pipe("2", "connect");
    let mut of_peer = c.sessions_of_peer("1");
    of_peer.sort();
    assert_eq!(of_peer, vec![key("1", "connect"), key("1", "rdp")]);
    // the rdp process could not be stopped
    close_remote_connection(&mut c, &mut p, "1", &vec![key("1", "connect")]);
    assert_eq!(c.session_keys(), vec![key("1", "rdp"), key("2", "connect")]);
    assert!(!p.has_pipe("1", "connect"));
    assert!(!p.has_pipe("1", "rdp"));
    assert!(p.has_pipe("2", "connect"));
    assert_eq!(p.pipe_keys(), vec![key("2", "connect")]);
    assert_eq!(send_to_child(&p, "1", "dismiss"), None);
    assert_eq!(
        send_to_child(&p, "2", "dismiss"),
        Some(("dismiss\n".to_string(), vec![key("2", "connect")]))
    );
}

#[test]
fn commands_go_to_every_session_of_the_peer() {
    let mut p = ChildPipes::new();
    p.add_pipe("7", "connect");
    p.add_pipe("8", "connect");
    p.add_pipe("7", "file-transfer");
    assert_eq!(p.pipes_of_peer("7"), vec![key("7", "connect"), key("7", "file-transfer")]);
    assert_eq!(
        send_to_child(&p, "7", "dismiss_dialog"),
        Some((
            "dismiss_dialog\n".to_string(),
            vec![key("7", "connect"), key("7", "file-transfer")]
        ))
    );
    assert_eq!(send_to_child(&p, "9", "dismiss_dialog"), None);
    assert_eq!(child_command_line("dismiss"), "dismiss\n");
}

#[test]
fn adding_a_pipe_twice_keeps_one() {
    let mut p = ChildPipes::new();
    p.add_pipe("7", "connect");
    p.add_pipe("7", "connect");
    assert_eq!(p.len(), 1);
    assert_eq!(p.pipe_keys(), vec![key("7", "connect")]);
}

#[test]
fn dismiss_counts_delivered_commands() {
    let mut p = ChildPipes::new();
    p.add_pipe("a", "connect");
    p.add_pipe("b", "connect");
    p.add_pipe("c", "connect");
    assert_eq!(p.len(), 3);
    assert_eq!(send_dismiss_to_all_children(&p, &vec![true, false, true]), 2);
    assert_eq!(send_dismiss_to_all_children(&ChildPipes::new(), &vec![]), 0);
}

#[test]
fn dismiss_reaches_both_sessions_to_one_peer() {
    let mut p = ChildPipes::new();
    p.add_pipe("123", "connect");
    p.add_pipe("123", "file-transfer");
    assert_eq!(p.len(), 2);
    assert_eq!(p.pipe_keys(), vec![key("123", "connect"), key("123", "file-transfer")]);
    assert_eq!(send_dismiss_to_all_children(&p, &vec![true, true]), 2);
}

#[test]
fn listing_reports_running_processes_as_alive() {
    let mut c = Children::new();
    c.add_session("1", "connect");
    c.add_session("2", "rdp");
    c.add_session("3", "terminal");
    let list = list_active_connections(
        &c,
        &vec![ChildStatus::Running, ChildStatus::Exited, ChildStatus::Unknown],
    );
    assert_eq!(
        list,
        vec![
            ("1".to_string(), "connect".to_string(), true),
            ("2".to_string(), "rdp".to_string(), false),
            ("3".to_string(), "terminal".to_string(), false),
        ]
    );
}
