use hoptodesk::handlers::{
    connect_back_args, custom_api_url, exe_is_quick_support, exit_after_update,
    favorites_to_store, file_size_text, listing_text, mac_update_url, open_url_program,
    options_to_store, peer_row, recent_session_rows, published_version, requires_update, running_qs,
    should_quit_after_removal, software_ext, stored_options, sound_input_names, team_id_text, ticket_id,
    ticket_portal_reply, update_argument, update_file_name, window_size_values,
    windows_update_url, PeerSummary, Platform, PublishedVersions,
};

fn strs(v: &[&str]) -> Vec<String> {
    v.iter().map(|s| s.to_string()).collect()
}

#[test]
fn quick_support_detection() {
    assert!(exe_is_quick_support(&Some("hoptodesk-qs.exe".to_string())));
    assert!(!exe_is_quick_support(&Some("hoptodesk.exe".to_string())));
    assert!(!exe_is_quick_support(&None));
    assert!(running_qs(&strs(&["prog", "--qs"]), &None));
    assert!(running_qs(&strs(&["prog"]), &Some("x-qs".to_string())));
    assert!(!running_qs(&strs(&["prog", "--qsx"]), &Some("x".to_string())));
}

#[test]
fn only_non_empty_text_options_are_stored() {
    let items = vec![
        (Some("a".to_string()), Some("1".to_string())),
        (Some("b".to_string()), Some("".to_string())),
        (None, Some("2".to_string())),
        (Some("c".to_string()), None),
        (Some("d".to_string()), Some("4".to_string())),
    ];
    assert_eq!(
        options_to_store(&items),
        vec![("a".to_string(), "1".to_string()), ("d".to_string(), "4".to_string())]
    );
    let favs = vec![Some("1".to_string()), None, Some("".to_string()), Some("2".to_string())];
    assert_eq!(favorites_to_store(&favs), strs(&["1", "2"]));
}

#[test]
fn peer_rows() {
    let p = PeerSummary {
        username: "u".to_string(),
        hostname: "h".to_string(),
        platform: "Linux".to_string(),
        alias: Some("home".to_string()),
    };
    assert_eq!(peer_row("123", &p), strs(&["123", "u", "h", "Linux", "home"]));
    let q = PeerSummary { alias: None, ..p };
    assert_eq!(peer_row("123", &q), strs(&["123", "u", "h", "Linux", ""]));
    assert_eq!(window_size_values((1, -2, 300, 400)), vec![1, -2, 300, 400]);
}

#[test]
fn platform_specific_texts() {
    assert_eq!(software_ext(Platform::Windows), "exe");
    assert_eq!(software_ext(Platform::MacOs), "dmg");
    assert_eq!(software_ext(Platform::Linux), "deb");
    assert_eq!(open_url_program(Platform::Windows, true), "explorer");
    assert_eq!(open_url_program(Platform::MacOs, true), "open");
    assert_eq!(open_url_program(Platform::Linux, true), "firefox");
    assert_eq!(open_url_program(Platform::Linux, false), "xdg-open");
}

#[test]
fn update_locations() {
    assert_eq!(update_file_name("https://x.com/dl/HopToDesk.exe"), "HopToDesk.exe");
    assert_eq!(update_file_name("HopToDesk.exe"), "HopToDesk.exe");
    assert_eq!(update_file_name("https://x.com/dl/"), "");
    assert_eq!(
        windows_update_url(true, true, 42),
        "https://download.hoptodesk.com/hoptodesk-arm64.exe?update=42"
    );
    assert_eq!(
        windows_update_url(false, true, 7),
        "https://www.hoptodesk.com/update-windows64?update=7"
    );
    assert_eq!(
        windows_update_url(false, false, 0),
        "https://www.hoptodesk.com/update-windows?update=0"
    );
    assert_eq!(mac_update_url(true), "https://www.hoptodesk.com/HopToDesk-silicon.dmg");
    assert_eq!(mac_update_url(false), "https://www.hoptodesk.com/HopToDesk.dmg");
}

#[test]
fn update_process_arguments() {
    assert_eq!(update_argument(&strs(&["prog", ""])), "--update");
    assert_eq!(update_argument(&strs(&["prog", "--remoteupdate"])), "--updatefromremote");
    assert!(exit_after_update(&strs(&["prog"])));
    assert!(exit_after_update(&strs(&["prog", "--install"])));
    assert!(!exit_after_update(&strs(&["prog", "--remoteupdate"])));
}

#[test]
fn page_answers() {
    assert_eq!(team_id_text(Some("team-1".to_string())), "team-1");
    assert_eq!(team_id_text(None), "(none)");
    assert_eq!(custom_api_url(Some("https://api".to_string())), "https://api");
    assert_eq!(custom_api_url(None), "");
    assert_eq!(ticket_id("42"), 42);
    assert_eq!(ticket_id("-3"), -3);
    assert_eq!(ticket_id("x"), 0);
    assert_eq!(ticket_id(""), 0);
    assert_eq!(listing_text(Some("[1]".to_string())), "[1]");
    assert_eq!(listing_text(None), "[]");
    assert_eq!(ticket_portal_reply(Ok(())), "ok");
    assert_eq!(ticket_portal_reply(Err("no exe".to_string())), "no exe");
    assert_eq!(file_size_text(Some(1024)), "1024");
    assert_eq!(file_size_text(None), "0");
}

#[test]
fn published_versions_by_platform() {
    let v = || PublishedVersions {
        windows: "1.1".to_string(),
        linux: "1.2".to_string(),
        macos: "1.3".to_string(),
        other: "1.4".to_string(),
    };
    assert_eq!(published_version(Platform::Windows, Some(v())), "1.1");
    assert_eq!(published_version(Platform::Linux, Some(v())), "1.2");
    assert_eq!(published_version(Platform::MacOs, Some(v())), "1.3");
    assert_eq!(published_version(Platform::Other, Some(v())), "1.4");
    assert_eq!(published_version(Platform::Windows, None), "");
}

#[test]
fn update_is_offered_by_the_official_build_only() {
    assert!(requires_update("hoptodesk", &None, 1_002_000, 1_003_000));
    assert!(!requires_update("hoptodesk", &None, 1_003_000, 1_003_000));
    assert!(!requires_update("other", &None, 1, 2));
    assert!(!requires_update("hoptodesk", &Some("C:\\WindowsApps\\x".to_string()), 1, 2));
}

#[test]
fn connection_manager_decisions() {
    assert_eq!(
        connect_back_args("987", "pw"),
        strs(&["--connect", "987", "--password", "pw"])
    );
    assert!(should_quit_after_removal(0));
    assert!(!should_quit_after_removal(2));
}

#[test]
fn usable_sound_inputs() {
    let devices = vec![
        (true, Some("Mic".to_string())),
        (false, Some("Speakers".to_string())),
        (true, None),
        (true, Some("Line in".to_string())),
    ];
    assert_eq!(sound_input_names(&devices), strs(&["Mic", "Line in"]));
}

#[test]
fn recent_sessions_list_one_row_per_peer() {
    let peers = vec![
        (
            "1".to_string(),
            PeerSummary {
                username: "a".to_string(),
                hostname: "b".to_string(),
                platform: "Windows".to_string(),
                alias: None,
            },
        ),
        (
            "2".to_string(),
            PeerSummary {
                username: "c".to_string(),
                hostname: "d".to_string(),
                platform: "Mac OS".to_string(),
                alias: Some("laptop".to_string()),
            },
        ),
    ];
    assert_eq!(
        recent_session_rows(&peers),
        vec![strs(&["1", "a", "b", "Windows", ""]), strs(&["2", "c", "d", "Mac OS", "laptop"])]
    );
}

#[test]
fn stored_options_read_the_json_object() {
    let mut opts = stored_options(r#"{"b":"2","a":"1"}"#);
    opts.sort();
    assert_eq!(opts, vec![("a".to_string(), "1".to_string()), ("b".to_string(), "2".to_string())]);
    assert!(stored_options("{}").is_empty());
}

#[test]
fn unreadable_stored_options_give_none() {
    assert!(stored_options("not json").is_empty());
    assert!(stored_options(r#"{"a":1}"#).is_empty());
    assert!(stored_options("").is_empty());
}
