//! The computing part of the main window's and the connection manager's
//! script handlers: what they hand to the configuration and to child
//! processes, and what they answer the page.
use vstd::prelude::*;
use crate::launch::installed_from_store;
use crate::text::{
    joined, decimal, decimal_u64, has_substring, contains_str, owned, parse_i64, parse_i64_spec,
    split_char, split_spec, str_eq,
};

verus! {

/// The operating system the client is built for.
#[derive(PartialEq, Eq, Structural, Clone, Copy, Debug)]
pub enum Platform {
    Windows,
    MacOs,
    Linux,
    Other,
}

/// The executable's file name marks a quick-support build (`-qs`).
pub fn exe_is_quick_support(exe_file_name: &Option<String>) -> (res: bool)
    ensures
        res == (exe_file_name matches Some(n) && has_substring(n@, "-qs"@)),
{
    match exe_file_name {
        Some(n) => contains_str(n.as_str(), "-qs"),
        None => false,
    }
}

/// The client runs as quick support: a `--qs` argument or a `-qs` executable.
pub fn running_qs(args: &Vec<String>, exe_file_name: &Option<String>) -> (res: bool)
    ensures
        res == (args.deep_view().contains("--qs"@) || (exe_file_name matches Some(n)
            && has_substring(n@, "-qs"@))),
{
    let n = args.len();
    for i in 0..n
        invariant
            n == args.len(),
            forall|j: int| 0 <= j < i ==> args.deep_view()[j] != "--qs"@,
    {
        if str_eq(args[i].as_str(), "--qs") {
            assert(args.deep_view()[i as int] == "--qs"@);
            return true;
        }
    }
    exe_is_quick_support(exe_file_name)
}

/// The options of a `set_options` call that are stored: entries whose key
/// and value are both text and whose value is not empty.
pub open spec fn options_to_store_spec(items: Seq<(Option<Seq<char>>, Option<Seq<char>>)>) -> Seq<
    (Seq<char>, Seq<char>),
>
    decreases items.len(),
{
    if items.len() == 0 {
        Seq::empty()
    } else {
        let p = options_to_store_spec(items.drop_last());
        match items.last() {
            (Some(k), Some(v)) => if v.len() > 0 {
                p.push((k, v))
            } else {
                p
            },
            _ => p,
        }
    }
}

/// Keeps the entries that `set_options` stores, in order.
pub fn options_to_store(items: &Vec<(Option<String>, Option<String>)>) -> (res: Vec<(String, String)>)
    ensures
        res.deep_view() == options_to_store_spec(items.deep_view()),
{
    let n = items.len();
    let mut res: Vec<(String, String)> = Vec::new();
    for i in 0..n
        invariant
            n == items.len(),
            res.deep_view() == options_to_store_spec(items.deep_view().take(i as int)),
    {
        assert(items.deep_view().take(i + 1).drop_last() =~= items.deep_view().take(i as int));
        let e = &items[i];
        match (&e.0, &e.1) {
            (Some(k), Some(v)) => {
                if !v.as_str().is_empty() {
                    let ghost prev = res.deep_view();
                    res.push((k.clone(), v.clone()));
                    assert(res.deep_view() =~= prev.push((k@, v@)));
                }
            },
            _ => {},
        }
    }
    assert(items.deep_view().take(n as int) =~= items.deep_view());
    res
}

/// The map that a list of (key, value) pairs describes; a later pair wins
/// over an earlier one with the same key.
pub open spec fn pairs_as_map(p: Seq<(Seq<char>, Seq<char>)>) -> Map<Seq<char>, Seq<char>>
    decreases p.len(),
{
    if p.len() == 0 {
        Map::empty()
    } else {
        pairs_as_map(p.drop_last()).insert(p.last().0, p.last().1)
    }
}

/// No key occurs twice among the pairs.
pub open spec fn keys_distinct(p: Seq<(Seq<char>, Seq<char>)>) -> bool {
    forall|i: int, j: int| 0 <= i < p.len() && 0 <= j < p.len() && i != j ==> p[i].0 != p[j].0
}

/// The string-to-string map that `serde_json` reads from the JSON text
/// `json`, or `None` when the text is not a JSON object of strings.
pub uninterp spec fn string_map_json(json: Seq<char>) -> Option<Map<Seq<char>, Seq<char>>>;

/// `serde_json::from_str::<HashMap<String, String>>`: parses `json` as an
/// object whose values are all strings.
/// Trusted: the parsed map is a function of the text alone, and its
/// entries come back as pairs with distinct keys (those of a `HashMap`);
/// the order of the pairs is the map's and is not stated.
#[verifier::external_body]
fn parse_string_map(json: &str) -> (res: Option<Vec<(String, String)>>)
    ensures
        res is None <==> string_map_json(json@) is None,
        res matches Some(v) ==> keys_distinct(v.deep_view()) && string_map_json(json@) == Some(
            pairs_as_map(v.deep_view()),
        ),
{
    match serde_json::from_str::<std::collections::HashMap<String, String>>(json) {
        Ok(m) => Some(m.into_iter().collect()),
        Err(_) => None,
    }
}

/// The stored options, read from their JSON text for `get_options`: the
/// entries of the object, each key once; none when the text does not parse.
pub fn stored_options(json: &str) -> (res: Vec<(String, String)>)
    ensures
        string_map_json(json@) is None ==> res@.len() == 0,
        string_map_json(json@) matches Some(m) ==> keys_distinct(res.deep_view()) && pairs_as_map(
            res.deep_view(),
        ) == m,
{
    match parse_string_map(json) {
        Some(v) => v,
        None => Vec::new(),
    }
}

/// The favourites that `store_fav` keeps: text values that are not empty.
pub open spec fn favorites_spec(values: Seq<Option<Seq<char>>>) -> Seq<Seq<char>>
    decreases values.len(),
{
    if values.len() == 0 {
        Seq::empty()
    } else {
        let p = favorites_spec(values.drop_last());
        match values.last() {
            Some(v) => if v.len() > 0 {
                p.push(v)
            } else {
                p
            },
            None => p,
        }
    }
}

/// Keeps the favourite peer ids that `store_fav` stores, in order.
pub fn favorites_to_store(values: &Vec<Option<String>>) -> (res: Vec<String>)
    ensures
        res.deep_view() == favorites_spec(values.deep_view()),
{
    let n = values.len();
    let mut res: Vec<String> = Vec::new();
    for i in 0..n
        invariant
            n == values.len(),
            res.deep_view() == favorites_spec(values.deep_view().take(i as int)),
    {
        assert(values.deep_view().take(i + 1).drop_last() =~= values.deep_view().take(i as int));
        match &values[i] {
            Some(v) => {
                if !v.as_str().is_empty() {
                    let ghost prev = res.deep_view();
                    res.push(v.clone());
                    assert(res.deep_view() =~= prev.push(v@));
                }
            },
            None => {},
        }
    }
    assert(values.deep_view().take(n as int) =~= values.deep_view());
    res
}

/// What the peer list shows of a stored peer.
pub struct PeerSummary {
    pub username: String,
    pub hostname: String,
    pub platform: String,
    /// The `alias` option, if set.
    pub alias: Option<String>,
}

/// The alias of a peer, empty when unset.
pub open spec fn alias_text(peer: &PeerSummary) -> Seq<char> {
    match peer.alias {
        Some(a) => a@,
        None => Seq::<char>::empty(),
    }
}

/// The row of a peer in the page's peer lists:
/// id, user name, host name, platform, alias (empty when unset).
pub fn peer_row(id: &str, peer: &PeerSummary) -> (res: Vec<String>)
    ensures
        res.deep_view() == seq![
            id@,
            peer.username@,
            peer.hostname@,
            peer.platform@,
            alias_text(peer),
        ],
{
    let mut row: Vec<String> = Vec::new();
    row.push(owned(id));
    row.push(peer.username.clone());
    row.push(peer.hostname.clone());
    row.push(peer.platform.clone());
    let alias = match &peer.alias {
        Some(a) => a.clone(),
        None => String::new(),
    };
    row.push(alias);
    let ghost expected = seq![
        id@,
        peer.username@,
        peer.hostname@,
        peer.platform@,
        alias_text(peer),
    ];
    assert(row.deep_view() =~= expected);
    row
}

/// The rows of the recent-sessions list, one per stored peer, in order.
pub fn recent_session_rows(peers: &Vec<(String, PeerSummary)>) -> (res: Vec<Vec<String>>)
    ensures
        res.len() == peers.len(),
        forall|i: int|
            0 <= i < peers.len() ==> (#[trigger] res[i]).deep_view() == seq![
                peers[i].0@,
                peers[i].1.username@,
                peers[i].1.hostname@,
                peers[i].1.platform@,
                alias_text(&peers[i].1),
            ],
{
    let n = peers.len();
    let mut rows: Vec<Vec<String>> = Vec::new();
    for i in 0..n
        invariant
            n == peers.len(),
            rows.len() == i,
            forall|j: int|
                0 <= j < i ==> (#[trigger] rows[j]).deep_view() == seq![
                    peers[j].0@,
                    peers[j].1.username@,
                    peers[j].1.hostname@,
                    peers[j].1.platform@,
                    alias_text(&peers[j].1),
                ],
    {
        let e = &peers[i];
        rows.push(peer_row(e.0.as_str(), &e.1));
    }
    rows
}

/// The stored window geometry as the list the page reads.
pub fn window_size_values(size: (i32, i32, i32, i32)) -> (res: Vec<i32>)
    ensures
        res@ == seq![size.0, size.1, size.2, size.3],
{
    let mut v: Vec<i32> = Vec::new();
    v.push(size.0);
    v.push(size.1);
    v.push(size.2);
    v.push(size.3);
    assert(v@ =~= seq![size.0, size.1, size.2, size.3]);
    v
}

/// File extension of the installer for the platform.
pub fn software_ext(platform: Platform) -> (res: String)
    requires
        platform != Platform::Other,
    ensures
        platform == Platform::Windows ==> res@ == "exe"@,
        platform == Platform::MacOs ==> res@ == "dmg"@,
        platform == Platform::Linux ==> res@ == "deb"@,
{
    match platform {
        Platform::Windows => owned("exe"),
        Platform::MacOs => owned("dmg"),
        _ => owned("deb"),
    }
}

/// The file name under which a downloaded update is stored: the last
/// `/`-separated piece of the update URL.
pub fn update_file_name(update_url: &str) -> (res: String)
    ensures
        res@ == split_spec(update_url@, '/').last(),
{
    let parts = split_char(update_url, '/');
    proof {
        crate::text::lemma_split_join(update_url@, '/');
    }
    let k = parts.len() - 1;
    parts[k].clone()
}

/// The program that opens a URL: Explorer on Windows, `open` on macOS,
/// Firefox on Linux when installed and `xdg-open` otherwise.
pub fn open_url_program(platform: Platform, firefox_installed: bool) -> (res: String)
    requires
        platform != Platform::Other,
    ensures
        platform == Platform::Windows ==> res@ == "explorer"@,
        platform == Platform::MacOs ==> res@ == "open"@,
        platform == Platform::Linux && firefox_installed ==> res@ == "firefox"@,
        platform == Platform::Linux && !firefox_installed ==> res@ == "xdg-open"@,
{
    match platform {
        Platform::Windows => owned("explorer"),
        Platform::MacOs => owned("open"),
        _ => if firefox_installed {
            owned("firefox")
        } else {
            owned("xdg-open")
        },
    }
}

/// Where the Windows update is downloaded from: the ARM64 installer, the
/// 64-bit or the 32-bit one, with `update=<random>` against caches.
pub fn windows_update_url(is_aarch64: bool, is_64bit: bool, random: u64) -> (res: String)
    ensures
        is_aarch64 ==> res@ == "https://download.hoptodesk.com/hoptodesk-arm64.exe?update="@ + decimal(
            random as nat,
        ),
        !is_aarch64 && is_64bit ==> res@ == "https://www.hoptodesk.com/update-windows64?update="@
            + decimal(random as nat),
        !is_aarch64 && !is_64bit ==> res@ == "https://www.hoptodesk.com/update-windows?update="@
            + decimal(random as nat),
{
    let r = decimal_u64(random);
    if is_aarch64 {
        joined("https://download.hoptodesk.com/hoptodesk-arm64.exe?update=", r.as_str())
    } else if is_64bit {
        joined("https://www.hoptodesk.com/update-windows64?update=", r.as_str())
    } else {
        joined("https://www.hoptodesk.com/update-windows?update=", r.as_str())
    }
}

/// The macOS disk image that the updater opens.
pub fn mac_update_url(is_aarch64: bool) -> (res: String)
    ensures
        is_aarch64 ==> res@ == "https://www.hoptodesk.com/HopToDesk-silicon.dmg"@,
        !is_aarch64 ==> res@ == "https://www.hoptodesk.com/HopToDesk.dmg"@,
{
    if is_aarch64 {
        owned("https://www.hoptodesk.com/HopToDesk-silicon.dmg")
    } else {
        owned("https://www.hoptodesk.com/HopToDesk.dmg")
    }
}

/// The flag the downloaded installer is started with: `--update` when an
/// argument of this process is empty, `--updatefromremote` otherwise.
pub fn update_argument(args: &Vec<String>) -> (res: String)
    ensures
        args.deep_view().contains(Seq::<char>::empty()) ==> res@ == "--update"@,
        !args.deep_view().contains(Seq::<char>::empty()) ==> res@ == "--updatefromremote"@,
{
    let n = args.len();
    for i in 0..n
        invariant
            n == args.len(),
            forall|j: int| 0 <= j < i ==> args.deep_view()[j].len() != 0,
    {
        if args[i].as_str().is_empty() {
            assert(args.deep_view()[i as int] =~= Seq::<char>::empty());
            return owned("--update");
        }
    }
    assert forall|j: int| 0 <= j < n implies args.deep_view()[j] != Seq::<char>::empty() by {
        assert(args.deep_view()[j].len() != 0);
    }
    owned("--updatefromremote")
}

/// After starting the installer the process exits, unless it was launched
/// as `<exe> --remoteupdate`.
pub fn exit_after_update(args: &Vec<String>) -> (res: bool)
    ensures
        res == (args.len() <= 1 || args.deep_view()[1] != "--remoteupdate"@),
{
    args.len() <= 1 || !str_eq(args[1].as_str(), "--remoteupdate")
}

/// The team id shown on the page: the content of `TeamID.toml` when it
/// exists and can be read, `(none)` otherwise.
pub fn team_id_text(content: Option<String>) -> (res: String)
    ensures
        content matches Some(c) ==> res@ == c@,
        content is None ==> res@ == "(none)"@,
{
    match content {
        Some(c) => c,
        None => owned("(none)"),
    }
}

/// The custom API URL: the stored value, or empty text when none is stored
/// or it cannot be read.
pub fn custom_api_url(stored: Option<String>) -> (res: String)
    ensures
        stored matches Some(v) ==> res@ == v@,
        stored is None ==> res@ == Seq::<char>::empty(),
{
    match stored {
        Some(v) => v,
        None => String::new(),
    }
}

/// The ticket number the page sends, read as `str::parse::<i64>` reads it;
/// 0 when it is not a number.
pub fn ticket_id(text: &str) -> (res: i64)
    ensures
        parse_i64_spec(text@) matches Some(v) ==> res == v,
        parse_i64_spec(text@) is None ==> res == 0,
{
    match parse_i64(text) {
        Some(v) => v,
        None => 0,
    }
}

/// A ticket listing for the page: the JSON text, or an empty JSON list when
/// the request failed.
pub fn listing_text(result: Option<String>) -> (res: String)
    ensures
        result matches Some(j) ==> res@ == j@,
        result is None ==> res@ == "[]"@,
{
    match result {
        Some(j) => j,
        None => owned("[]"),
    }
}

/// The answer to "open the ticket portal": `ok`, or the error text.
pub fn ticket_portal_reply(result: Result<(), String>) -> (res: String)
    ensures
        result is Ok ==> res@ == "ok"@,
        result matches Err(e) ==> res@ == e@,
{
    match result {
        Ok(()) => owned("ok"),
        Err(e) => e,
    }
}

/// A file's size in bytes as text; `0` when it cannot be read.
pub fn file_size_text(len: Option<u64>) -> (res: String)
    ensures
        len matches Some(n) ==> res@ == decimal(n as nat),
        len is None ==> res@ == "0"@,
{
    match len {
        Some(n) => decimal_u64(n),
        None => owned("0"),
    }
}

/// The published versions of the client, one per platform.
pub struct PublishedVersions {
    pub windows: String,
    pub linux: String,
    pub macos: String,
    pub other: String,
}

/// The published version for this platform; empty text when the version
/// service failed or answered something else.
pub fn published_version(platform: Platform, versions: Option<PublishedVersions>) -> (res: String)
    ensures
        versions is None ==> res@ == Seq::<char>::empty(),
        versions matches Some(v) ==> res@ == (match platform {
            Platform::Windows => v.windows@,
            Platform::MacOs => v.macos@,
            Platform::Linux => v.linux@,
            Platform::Other => v.other@,
        }),
{
    match versions {
        None => String::new(),
        Some(v) => match platform {
            Platform::Windows => v.windows,
            Platform::MacOs => v.macos,
            Platform::Linux => v.linux,
            Platform::Other => v.other,
        },
    }
}

/// An update is offered only by the official build (`hoptodesk`), not for
/// an app-store install, and when the published version number is higher.
pub fn requires_update(
    package_name: &str,
    program_files: &Option<String>,
    local_version: i64,
    api_version: i64,
) -> (res: bool)
    ensures
        res == (package_name@ == "hoptodesk"@ && !(program_files matches Some(pf) && has_substring(
            pf@,
            "WindowsApps"@,
        )) && local_version < api_version),
{
    if !str_eq(package_name, "hoptodesk") {
        return false;
    }
    if installed_from_store(program_files) {
        return false;
    }
    local_version < api_version
}

/// The arguments of the process that connects back to an inviter after an
/// invite was accepted.
pub fn connect_back_args(peer_id: &str, password: &str) -> (res: Vec<String>)
    ensures
        res.deep_view() == seq!["--connect"@, peer_id@, "--password"@, password@],
{
    let mut v: Vec<String> = Vec::new();
    v.push(owned("--connect"));
    v.push(owned(peer_id));
    v.push(owned("--password"));
    v.push(owned(password));
    assert(v.deep_view() =~= seq!["--connect"@, peer_id@, "--password"@, password@]);
    v
}

/// The connection manager closes once its last client is gone.
pub fn should_quit_after_removal(remaining_clients: usize) -> (res: bool)
    ensures
        res == (remaining_clients == 0),
{
    remaining_clients == 0
}

/// The names of the audio input devices: devices that have a default input
/// configuration and a readable name, in order.
pub open spec fn sound_inputs_spec(devices: Seq<(bool, Option<Seq<char>>)>) -> Seq<Seq<char>>
    decreases devices.len(),
{
    if devices.len() == 0 {
        Seq::empty()
    } else {
        let p = sound_inputs_spec(devices.drop_last());
        match devices.last() {
            (true, Some(n)) => p.push(n),
            _ => p,
        }
    }
}

/// Lists the usable audio inputs; each device is given as (has a default
/// input configuration, its name if readable).
pub fn sound_input_names(devices: &Vec<(bool, Option<String>)>) -> (res: Vec<String>)
    ensures
        res.deep_view() == sound_inputs_spec(devices.deep_view()),
{
    let n = devices.len();
    let mut res: Vec<String> = Vec::new();
    for i in 0..n
        invariant
            n == devices.len(),
            res.deep_view() == sound_inputs_spec(devices.deep_view().take(i as int)),
    {
        assert(devices.deep_view().take(i + 1).drop_last() =~= devices.deep_view().take(i as int));
        let d = &devices[i];
        if d.0 {
            match &d.1 {
                Some(name) => {
                    let ghost prev = res.deep_view();
                    res.push(name.clone());
                    assert(res.deep_view() =~= prev.push(name@));
                },
                None => {},
            }
        }
    }
    assert(devices.deep_view().take(n as int) =~= devices.deep_view());
    res
}

} // verus!
