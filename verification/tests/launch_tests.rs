use hoptodesk::launch::{
    installed_from_store, invite_request, is_numeric_id, launch_arg_text, launch_mode,
    needs_hostname_lookup, parse_session_args, quick_connect_plan, remote_update_action,
    resolved_address, rewrite_play_args, session_plan, split_host_port, LaunchMode,
    RemoteUpdateAction,
};

fn args(v: &[&str]) -> Vec<String> {
    v.iter().map(|s| s.to_string()).collect()
}

#[test]
fn numeric_ids_have_ten_to_twelve_digits() {
    assert!(is_numeric_id("1234567890"));
    assert!(is_numeric_id("123456789012"));
    assert!(!is_numeric_id("123456789"));
    assert!(!is_numeric_id("1234567890123"));
    assert!(!is_numeric_id("12345a7890"));
    assert!(!is_numeric_id(""));
}

#[test]
fn host_names_are_looked_up_only_when_not_ip_or_numeric() {
    assert!(needs_hostname_lookup("rmt.myddns.com", false, false));
    assert!(!needs_hostname_lookup("rmt.myddns.com", true, false));
    assert!(!needs_hostname_lookup("::1.2", false, true));
    assert!(!needs_hostname_lookup("123456789", false, false));
    assert!(needs_hostname_lookup("12345.67890", false, false));
}

#[test]
fn host_and_port_are_split_at_the_last_colon() {
    assert_eq!(
        split_host_port("rmt.myddns.com:21118"),
        ("rmt.myddns.com".to_string(), Some("21118".to_string()))
    );
    assert_eq!(split_host_port("rmt.myddns.com"), ("rmt.myddns.com".to_string(), None));
    assert_eq!(split_host_port("host:"), ("host:".to_string(), None));
    assert_eq!(split_host_port("host:8a"), ("host:8a".to_string(), None));
    assert_eq!(split_host_port("a:1:2"), ("a:1".to_string(), Some("2".to_string())));
}

#[test]
fn resolved_address_keeps_the_port() {
    assert_eq!(resolved_address("10.0.0.5", Some("21118".to_string())), "10.0.0.5:21118");
    assert_eq!(resolved_address("10.0.0.5", None), "10.0.0.5");
}

#[test]
fn arg_text_drops_quotes_and_brackets() {
    assert_eq!(launch_arg_text(&args(&["--connect", "\"[abc]\""])), "--connectabc");
    assert_eq!(launch_arg_text(&args(&["\"\"", "[]"])), "");
}

#[test]
fn launch_modes() {
    assert_eq!(launch_mode(&args(&[]), false, false), LaunchMode::Main);
    assert_eq!(launch_mode(&args(&["\"[]\""]), false, false), LaunchMode::Main);
    assert_eq!(launch_mode(&args(&["--qs"]), false, false), LaunchMode::Main);
    assert_eq!(launch_mode(&args(&["--cm"]), true, false), LaunchMode::Main);
    assert_eq!(launch_mode(&args(&["--install"]), true, false), LaunchMode::Install);
    assert_eq!(launch_mode(&args(&["--remoteupdate"]), false, false), LaunchMode::RemoteUpdate);
    assert_eq!(launch_mode(&args(&["--cm"]), false, false), LaunchMode::ConnectionManager);
    assert_eq!(launch_mode(&args(&["--ticket"]), false, false), LaunchMode::Ticket);
    assert_eq!(launch_mode(&args(&["--invite", "1", "2", "3"]), false, false), LaunchMode::Invite);
    assert_eq!(launch_mode(&args(&["--invite", "1"]), false, false), LaunchMode::Wrong);
    assert_eq!(launch_mode(&args(&["--connect", "123"]), false, false), LaunchMode::Session);
    assert_eq!(launch_mode(&args(&["--terminal", "123"]), false, false), LaunchMode::Session);
    assert_eq!(launch_mode(&args(&["--connect"]), false, false), LaunchMode::Wrong);
    assert_eq!(
        launch_mode(&args(&["hoptodesk://connect/123"]), false, true),
        LaunchMode::QuickConnect
    );
    assert_eq!(launch_mode(&args(&["hoptodesk://connect/123"]), false, false), LaunchMode::Wrong);
}

#[test]
fn play_becomes_connect_with_the_file_stem() {
    let mut a = args(&["--play", "/tmp/123456789.hop"]);
    rewrite_play_args(&mut a);
    assert_eq!(a, args(&["--connect", "123456789"]));
    assert_eq!(launch_mode(&a, false, false), LaunchMode::Session);
    let mut b = args(&["--play"]);
    rewrite_play_args(&mut b);
    assert_eq!(b, args(&["--play"]));
}

#[test]
fn invite_arguments() {
    let a = args(&["--invite", "peer", "me", "pw"]);
    assert_eq!(
        invite_request(&a),
        ("peer".to_string(), "me".to_string(), "pw".to_string())
    );
}

#[test]
fn session_arguments_are_scanned() {
    let p = parse_session_args(&args(&[
        "--connect", "123456789", "--password", "pw", "--tokenex", "tk", "--relay",
    ]));
    assert_eq!(p.cmd, "--connect");
    assert_eq!(p.id, "123456789");
    assert_eq!(p.password, "pw");
    assert_eq!(p.token, "tk");
    assert_eq!(p.rest, args(&["--relay"]));

    let q = parse_session_args(&args(&["--connect", "--relay", "abc", "def"]));
    assert_eq!(q.id, "abc");
    assert_eq!(q.rest, args(&["--relay", "def"]));

    let r = parse_session_args(&args(&["--connect", "x", "--password"]));
    assert_eq!(r.id, "x");
    assert_eq!(r.password, "");
}

#[test]
fn print_selection_arguments_are_positional() {
    let p = parse_session_args(&args(&[
        "--file-transfer", "--select-for-print", "id1", "pw1", "team", "tok", "x", "y",
    ]));
    assert_eq!(p.id, "id1");
    assert_eq!(p.password, "pw1");
    assert_eq!(p.token, "tok");
    assert_eq!(p.rest, args(&["--select-for-print", "x", "y"]));

    let q = parse_session_args(&args(&["--file-transfer", "--select-for-print", "id1"]));
    assert_eq!(q.id, "id1");
    assert_eq!(q.password, "");
    assert_eq!(q.token, "");
    assert_eq!(q.rest, args(&["--select-for-print"]));
}

#[test]
fn session_plan_refuses_missing_peer() {
    let a = args(&["--connect", "hoptodesk:///"]);
    assert!(session_plan(&a, parse_session_args(&a)).is_none());
    let b = args(&["--rdp", "--relay"]);
    assert!(session_plan(&b, parse_session_args(&b)).is_none());
}

#[test]
fn sso_link_sets_peer_and_token() {
    let token = "0123456789abcdef0123456789abcdef";
    let link = format!("hoptodesk://sso-login/123456789/{}", token);
    let a = args(&["--connect", &link]);
    let plan = session_plan(&a, parse_session_args(&a)).unwrap();
    assert_eq!(plan.id, "123456789");
    assert_eq!(plan.password, token);
    assert_eq!(plan.token, token);
    assert_eq!(plan.save_token, None);
}

#[test]
fn connect_takes_third_argument_as_token() {
    let a = args(&["--connect", "123", "tok"]);
    let plan = session_plan(&a, parse_session_args(&a)).unwrap();
    assert_eq!(plan.id, "123");
    assert_eq!(plan.token, "tok");
    assert_eq!(plan.save_token, None);
    let b = args(&["--rdp", "123", "--tokenex", "tk"]);
    let plan2 = session_plan(&b, parse_session_args(&b)).unwrap();
    assert_eq!(plan2.token, "tk");
    assert_eq!(plan2.save_token, Some("tk".to_string()));
}

#[test]
fn quick_connect_links() {
    let p = quick_connect_plan("hoptodesk://connect/123456789/pw/team/tok/a/b").unwrap();
    assert_eq!(p.id, "123456789");
    assert_eq!(p.password, "pw");
    assert_eq!(p.token, "tok");
    assert_eq!(p.rest, args(&["a", "b"]));
    assert_eq!(p.pending_token, Some("team".to_string()));
    assert_eq!(p.save_token, Some("tok".to_string()));

    let q = quick_connect_plan("hoptodesk://connect/42/pw/0123456789abcdef").unwrap();
    assert_eq!(q.pending_token, None);
    assert_eq!(q.save_token, None);
    assert!(q.rest.is_empty());

    assert!(quick_connect_plan("hoptodesk://connect/").is_none());
}

#[test]
fn remote_update_decisions() {
    let store = Some("C:\\Program Files\\WindowsApps".to_string());
    assert!(installed_from_store(&store));
    assert!(!installed_from_store(&Some("C:\\Program Files".to_string())));
    assert_eq!(remote_update_action(&store, 1, 2), RemoteUpdateAction::Stay);
    assert_eq!(remote_update_action(&None, 1, 2), RemoteUpdateAction::RunUpdate);
    assert_eq!(remote_update_action(&None, 2, 2), RemoteUpdateAction::Exit);
}

#[test]
fn connect_with_password_keeps_the_third_argument_as_token() {
    let a = args(&["--connect", "123", "--password", "pw"]);
    let plan = session_plan(&a, parse_session_args(&a)).unwrap();
    assert_eq!(plan.id, "123");
    assert_eq!(plan.password, "pw");
    assert_eq!(plan.token, "--password");
    assert!(plan.rest.is_empty());
}
