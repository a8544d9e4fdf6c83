//! Command-line planning for the desktop client: which window the process
//! opens, and with which peer, password and token a remote session starts.
use vstd::prelude::*;
use crate::text::{
    all_digits, chars_of, joined, contains_char, contains_str, has_prefix, has_substring,
    is_digit, last_index_of, last_index_spec, lemma_split_join, owned, push_char, replace_all,
    replace_spec, split_char, split_spec, starts_with, str_eq, string_from, utf8_byte_len, utf8_len,
};

verus! {

// ---------------------------------------------------------------------------
// Specifications
// ---------------------------------------------------------------------------

/// The argument at position `i`, or empty text past the end.
pub open spec fn arg_or_empty(args: Seq<Seq<char>>, i: int) -> Seq<char> {
    if 0 <= i < args.len() {
        args[i]
    } else {
        Seq::<char>::empty()
    }
}

/// The arguments from position `i` on (none past the end).
pub open spec fn args_from(args: Seq<Seq<char>>, i: int) -> Seq<Seq<char>> {
    if i <= args.len() {
        args.skip(i)
    } else {
        Seq::<Seq<char>>::empty()
    }
}

/// All arguments written one after another.
pub open spec fn concat_all(args: Seq<Seq<char>>) -> Seq<char>
    decreases args.len(),
{
    if args.len() == 0 {
        Seq::<char>::empty()
    } else {
        concat_all(args.drop_last()) + args.last()
    }
}

/// `c` is a double quote or a square bracket.
pub open spec fn is_stripped_char(c: char) -> bool {
    c == '"' || c == '[' || c == ']'
}

/// `s` without its double quotes and square brackets.
pub open spec fn strip_quotes_brackets(s: Seq<char>) -> Seq<char>
    decreases s.len(),
{
    if s.len() == 0 {
        Seq::<char>::empty()
    } else if is_stripped_char(s.last()) {
        strip_quotes_brackets(s.drop_last())
    } else {
        strip_quotes_brackets(s.drop_last()).push(s.last())
    }
}

/// The whole command line as one text, without quotes and brackets.
pub open spec fn arg_text_spec(args: Seq<Seq<char>>) -> Seq<char> {
    strip_quotes_brackets(concat_all(args))
}

/// The commands that open a remote session window.
pub open spec fn is_session_command(a: Seq<char>) -> bool {
    a == "--connect"@ || a == "--file-transfer"@ || a == "--port-forward"@ || a == "--rdp"@
        || a == "--view-camera"@ || a == "--terminal"@
}

/// Which window the launcher opens.
#[derive(PartialEq, Eq, Structural, Clone, Copy, Debug)]
pub enum LaunchMode {
    /// The main window (`index.html`); also starts the zombie check and
    /// refreshes the published version.
    Main,
    /// Self-update started from a remote peer.
    RemoteUpdate,
    /// The installer window (`install.html`).
    Install,
    /// The connection manager (`cm.html`).
    ConnectionManager,
    /// The support-ticket window (`ticket.html`).
    Ticket,
    /// A background invite request to a peer; no window.
    Invite,
    /// A remote session window (`remote.html`).
    Session,
    /// A `hoptodesk://connect/` link (macOS only).
    QuickConnect,
    /// An unknown command; nothing is opened.
    Wrong,
}

/// The launch mode for the (already rewritten) arguments.
pub open spec fn launch_mode_spec(args: Seq<Seq<char>>, exe_is_quick_support: bool, is_macos: bool) -> LaunchMode {
    let text = arg_text_spec(args);
    if args.len() == 0 || text.len() == 0 || args[0] == "--qs"@ || (args[0] != "--install"@
        && exe_is_quick_support) {
        LaunchMode::Main
    } else if args[0] == "--remoteupdate"@ {
        LaunchMode::RemoteUpdate
    } else if args[0] == "--install"@ {
        LaunchMode::Install
    } else if args[0] == "--cm"@ {
        LaunchMode::ConnectionManager
    } else if args[0] == "--ticket"@ {
        LaunchMode::Ticket
    } else if args[0] == "--invite"@ && args.len() >= 3 {
        LaunchMode::Invite
    } else if is_session_command(args[0]) && args.len() > 1 {
        LaunchMode::Session
    } else if is_macos && has_prefix(text, "hoptodesk://connect/"@) {
        LaunchMode::QuickConnect
    } else {
        LaunchMode::Wrong
    }
}

/// State while scanning the arguments of a session command.
pub struct ArgScan {
    pub id: Seq<char>,
    pub id_found: bool,
    pub password: Seq<char>,
    pub token: Seq<char>,
    pub rest: Seq<Seq<char>>,
}

/// Scans session arguments: `--password X` and `--tokenex X` take the next
/// argument as password or token, the first argument that does not start
/// with `--` is the peer id, and everything else is passed on.
pub open spec fn scan_session_args(a: Seq<Seq<char>>, st: ArgScan) -> ArgScan
    decreases a.len(),
{
    if a.len() == 0 {
        st
    } else if a[0] == "--password"@ {
        if a.len() >= 2 {
            scan_session_args(a.skip(2), ArgScan { password: a[1], ..st })
        } else {
            st
        }
    } else if a[0] == "--tokenex"@ {
        if a.len() >= 2 {
            scan_session_args(a.skip(2), ArgScan { token: a[1], ..st })
        } else {
            st
        }
    } else if !st.id_found && !has_prefix(a[0], "--"@) {
        scan_session_args(a.skip(1), ArgScan { id: a[0], id_found: true, ..st })
    } else {
        scan_session_args(a.skip(1), ArgScan { rest: st.rest.push(a[0]), ..st })
    }
}

/// The scan that starts with nothing found.
pub open spec fn empty_scan() -> ArgScan {
    ArgScan {
        id: Seq::<char>::empty(),
        id_found: false,
        password: Seq::<char>::empty(),
        token: Seq::<char>::empty(),
        rest: Seq::<Seq<char>>::empty(),
    }
}

/// `--file-transfer --select-for-print`: the arguments after the flag are
/// positional.
pub open spec fn is_print_selection(args: Seq<Seq<char>>) -> bool {
    args.len() > 1 && args[0] == "--file-transfer"@ && args[1] == "--select-for-print"@
}

/// The first piece whose UTF-8 encoding is `n` bytes long.
pub open spec fn first_with_byte_len(parts: Seq<Seq<char>>, n: nat) -> Option<Seq<char>>
    decreases parts.len(),
{
    if parts.len() == 0 {
        None
    } else if utf8_len(parts[0]) == n {
        Some(parts[0])
    } else {
        first_with_byte_len(parts.skip(1), n)
    }
}

/// A `--connect` link that carries the peer id and token in its path.
pub open spec fn is_link_with_path(a: Seq<char>) -> bool {
    has_prefix(a, "hoptodesk://sso-login/"@) || has_prefix(a, "hoptodesk://file-transfer/"@)
}

/// Peer id, password and token after `--connect` looked at its second
/// argument.
pub open spec fn connect_override(
    args: Seq<Seq<char>>,
    id: Seq<char>,
    password: Seq<char>,
    token: Seq<char>,
) -> (Seq<char>, Seq<char>, Seq<char>) {
    if args.len() >= 2 && args[0] == "--connect"@ {
        if is_link_with_path(args[1]) {
            let parts = split_spec(args[1], '/');
            if parts.len() >= 5 {
                match first_with_byte_len(parts, 32) {
                    Some(t) => (parts[3], t, t),
                    None => (parts[3], password, token),
                }
            } else {
                (id, password, token)
            }
        } else {
            (id, password, arg_or_empty(args, 2))
        }
    } else {
        (id, password, token)
    }
}

/// `s` is a peer id of ten to twelve ASCII digits.
pub open spec fn is_numeric_id_spec(s: Seq<char>) -> bool {
    10 <= s.len() <= 12 && all_digits(s)
}

/// The `/`-separated pieces of a quick-connect link once its
/// `hoptodesk://connect/` prefix is removed.
pub open spec fn quick_connect_parts(text: Seq<char>) -> Seq<Seq<char>> {
    split_spec(replace_spec(text, "hoptodesk://connect/"@, Seq::<char>::empty()), '/')
}

/// Stripping quotes and brackets works piece by piece.
pub proof fn lemma_strip_concat(x: Seq<char>, y: Seq<char>)
    ensures
        strip_quotes_brackets(x + y) == strip_quotes_brackets(x) + strip_quotes_brackets(y),
    decreases y.len(),
{
    if y.len() == 0 {
        assert(x + y =~= x);
        assert(strip_quotes_brackets(x) + strip_quotes_brackets(y) =~= strip_quotes_brackets(x));
    } else {
        lemma_strip_concat(x, y.drop_last());
        assert((x + y).drop_last() =~= x + y.drop_last());
        assert((x + y).last() == y.last());
        if !is_stripped_char(y.last()) {
            assert(strip_quotes_brackets(x) + strip_quotes_brackets(y) =~= (strip_quotes_brackets(x)
                + strip_quotes_brackets(y.drop_last())).push(y.last()));
        }
    }
}

/// The command-line text keeps at least what survives of the first argument.
pub proof fn lemma_arg_text_covers_first(args: Seq<Seq<char>>)
    requires
        args.len() >= 1,
    ensures
        arg_text_spec(args).len() >= strip_quotes_brackets(args[0]).len(),
    decreases args.len(),
{
    let d = args.drop_last();
    lemma_strip_concat(concat_all(d), args.last());
    if args.len() == 1 {
        assert(concat_all(d) =~= Seq::<char>::empty());
        assert(Seq::<char>::empty() + args.last() =~= args[0]);
    } else {
        lemma_arg_text_covers_first(d);
    }
}

/// A `--play <file>` command line, once rewritten, opens a session window
/// (outside quick-support executables).
pub proof fn law_play_opens_session(args: Seq<Seq<char>>, stem: Seq<char>, is_macos: bool)
    requires
        args.len() > 1,
        args[0] == "--play"@,
    ensures
        launch_mode_spec(args.update(0, "--connect"@).update(1, stem), false, is_macos)
            == LaunchMode::Session,
{
    reveal_strlit("--connect");
    reveal_strlit("--qs");
    reveal_strlit("--install");
    reveal_strlit("--remoteupdate");
    reveal_strlit("--cm");
    reveal_strlit("--ticket");
    reveal_strlit("--invite");
    let a = args.update(0, "--connect"@).update(1, stem);
    let c = "--connect"@;
    assert(a[0] == c);
    lemma_arg_text_covers_first(a);
    assert(c.drop_last().last() == 'c');
    assert(strip_quotes_brackets(c) == strip_quotes_brackets(c.drop_last()).push(c.last()));
    assert(c != "--qs"@ && c != "--install"@ && c != "--remoteupdate"@ && c != "--cm"@ && c
        != "--ticket"@ && c != "--invite"@) by {
        assert(c.len() != "--qs"@.len());
        assert(c[2] != "--install"@[2]);
        assert(c.len() != "--remoteupdate"@.len());
        assert(c.len() != "--cm"@.len());
        assert(c.len() != "--ticket"@.len());
        assert(c.len() != "--invite"@.len());
    }
}

/// What a scan finds besides the password does not depend on the password
/// found so far; without a `--password` argument the password stays as it was.
proof fn lemma_scan_password_apart(r: Seq<Seq<char>>, st: ArgScan, p: Seq<char>)
    ensures
        scan_session_args(r, ArgScan { password: p, ..st }).id == scan_session_args(r, st).id,
        scan_session_args(r, ArgScan { password: p, ..st }).id_found == scan_session_args(
            r,
            st,
        ).id_found,
        scan_session_args(r, ArgScan { password: p, ..st }).token == scan_session_args(r, st).token,
        scan_session_args(r, ArgScan { password: p, ..st }).rest == scan_session_args(r, st).rest,
        !r.contains("--password"@) ==> scan_session_args(r, ArgScan { password: p, ..st }).password
            == p,
    decreases r.len(),
{
    let sp = ArgScan { password: p, ..st };
    if r.len() == 0 {
    } else if r[0] == "--password"@ {
        assert(r.contains(r[0]));
        if r.len() >= 2 {
            assert(ArgScan { password: r[1], ..sp } == ArgScan { password: r[1], ..st });
        }
    } else if r[0] == "--tokenex"@ {
        if r.len() >= 2 {
            let t = ArgScan { token: r[1], ..st };
            lemma_scan_password_apart(r.skip(2), t, p);
            assert(ArgScan { token: r[1], ..sp } == ArgScan { password: p, ..t });
            if !r.contains("--password"@) {
                assert forall|i: int| 0 <= i < r.skip(2).len() implies r.skip(2)[i] != "--password"@ by {
                    assert(r.skip(2)[i] == r[i + 2]);
                    assert(r.contains(r[i + 2]));
                }
                assert(!r.skip(2).contains("--password"@));
            }
        }
    } else if !st.id_found && !has_prefix(r[0], "--"@) {
        let t = ArgScan { id: r[0], id_found: true, ..st };
        lemma_scan_password_apart(r.skip(1), t, p);
        assert(ArgScan { id: r[0], id_found: true, ..sp } == ArgScan { password: p, ..t });
        if !r.contains("--password"@) {
            assert forall|i: int| 0 <= i < r.skip(1).len() implies r.skip(1)[i] != "--password"@ by {
                assert(r.skip(1)[i] == r[i + 1]);
                assert(r.contains(r[i + 1]));
            }
            assert(!r.skip(1).contains("--password"@));
        }
    } else {
        let t = ArgScan { rest: st.rest.push(r[0]), ..st };
        lemma_scan_password_apart(r.skip(1), t, p);
        assert(ArgScan { rest: sp.rest.push(r[0]), ..sp } == ArgScan { password: p, ..t });
        if !r.contains("--password"@) {
            assert forall|i: int| 0 <= i < r.skip(1).len() implies r.skip(1)[i] != "--password"@ by {
                assert(r.skip(1)[i] == r[i + 1]);
                assert(r.contains(r[i + 1]));
            }
            assert(!r.skip(1).contains("--password"@));
        }
    }
}

/// `--password X` in a session command sets the password to `X` wherever
/// it stands, before or after the peer id: neither the flag nor `X` becomes
/// the peer id or a passed-on argument, and the rest of the arguments is
/// read as if the pair were not there.
pub proof fn law_password_flag_anywhere(x: Seq<char>, r: Seq<Seq<char>>, st: ArgScan)
    ensures
        scan_session_args(seq!["--password"@, x] + r, st) == scan_session_args(
            r,
            ArgScan { password: x, ..st },
        ),
        scan_session_args(seq!["--password"@, x] + r, st).id == scan_session_args(r, st).id,
        scan_session_args(seq!["--password"@, x] + r, st).id_found == scan_session_args(
            r,
            st,
        ).id_found,
        scan_session_args(seq!["--password"@, x] + r, st).token == scan_session_args(r, st).token,
        scan_session_args(seq!["--password"@, x] + r, st).rest == scan_session_args(r, st).rest,
        !r.contains("--password"@) ==> scan_session_args(seq!["--password"@, x] + r, st).password
            == x,
{
    let a = seq!["--password"@, x] + r;
    assert(a[0] == "--password"@);
    assert(a[1] == x);
    assert(a.skip(2) =~= r);
    lemma_scan_password_apart(r, st, x);
}

/// One step of reading session arguments: `--tokenex X` sets the token to
/// `X` wherever it stands; the first argument that is not a flag is the
/// peer id; any later such argument, and any other flag, is passed on.
pub proof fn law_session_arg_steps(x: Seq<char>, y: Seq<char>, r: Seq<Seq<char>>, st: ArgScan)
    ensures
        scan_session_args(seq!["--tokenex"@, y] + r, st) == scan_session_args(
            r,
            ArgScan { token: y, ..st },
        ),
        x != "--password"@ && x != "--tokenex"@ && !st.id_found && !has_prefix(x, "--"@)
            ==> scan_session_args(seq![x] + r, st) == scan_session_args(
            r,
            ArgScan { id: x, id_found: true, ..st },
        ),
        x != "--password"@ && x != "--tokenex"@ && (st.id_found || has_prefix(x, "--"@))
            ==> scan_session_args(seq![x] + r, st) == scan_session_args(
            r,
            ArgScan { rest: st.rest.push(x), ..st },
        ),
        scan_session_args(Seq::<Seq<char>>::empty(), st) == st,
{
    reveal_strlit("--tokenex");
    reveal_strlit("--password");
    let a = seq!["--tokenex"@, y] + r;
    assert(a[0] == "--tokenex"@);
    assert(a[0] != "--password"@) by {
        assert(a[0].len() != "--password"@.len());
    }
    assert(a[1] == y);
    assert(a.skip(2) =~= r);
    let b = seq![x] + r;
    assert(b[0] == x);
    assert(b.skip(1) =~= r);
}

/// The window commands open their window: `--remoteupdate`, `--cm` and
/// `--ticket` outside quick-support executables, `--install` always.
pub proof fn law_window_commands(args: Seq<Seq<char>>, exe_is_quick_support: bool, is_macos: bool)
    requires
        args.len() >= 1,
    ensures
        args[0] == "--install"@ ==> launch_mode_spec(args, exe_is_quick_support, is_macos)
            == LaunchMode::Install,
        args[0] == "--remoteupdate"@ && !exe_is_quick_support ==> launch_mode_spec(
            args,
            exe_is_quick_support,
            is_macos,
        ) == LaunchMode::RemoteUpdate,
        args[0] == "--cm"@ && !exe_is_quick_support ==> launch_mode_spec(
            args,
            exe_is_quick_support,
            is_macos,
        ) == LaunchMode::ConnectionManager,
        args[0] == "--ticket"@ && !exe_is_quick_support ==> launch_mode_spec(
            args,
            exe_is_quick_support,
            is_macos,
        ) == LaunchMode::Ticket,
{
    reveal_strlit("--qs");
    reveal_strlit("--install");
    reveal_strlit("--remoteupdate");
    reveal_strlit("--cm");
    reveal_strlit("--ticket");
    let c = args[0];
    if c == "--install"@ || c == "--remoteupdate"@ || c == "--cm"@ || c == "--ticket"@ {
        lemma_arg_text_covers_first(args);
        assert(c.len() > 0 && !is_stripped_char(c.last()));
        assert(strip_quotes_brackets(c) == strip_quotes_brackets(c.drop_last()).push(c.last()));
        if c == "--cm"@ {
            assert(c != "--qs"@) by {
                assert(c[2] != "--qs"@[2]);
            }
        } else {
            assert(c != "--qs"@) by {
                assert(c.len() != "--qs"@.len());
            }
        }
        assert(c == "--remoteupdate"@ ==> c != "--install"@) by {
            if c == "--remoteupdate"@ {
                assert(c.len() != "--install"@.len());
            }
        }
        assert(c == "--cm"@ ==> c != "--install"@ && c != "--remoteupdate"@) by {
            if c == "--cm"@ {
                assert(c.len() != "--install"@.len());
                assert(c.len() != "--remoteupdate"@.len());
            }
        }
        assert(c == "--ticket"@ ==> c != "--install"@ && c != "--remoteupdate"@ && c != "--cm"@) by {
            if c == "--ticket"@ {
                assert(c.len() != "--install"@.len());
                assert(c.len() != "--remoteupdate"@.len());
                assert(c.len() != "--cm"@.len());
            }
        }
    }
}

/// The first piece of `n` bytes is the one `first_with_byte_len` finds.
proof fn lemma_first_with_byte_len_at(parts: Seq<Seq<char>>, n: nat, j: int)
    requires
        0 <= j < parts.len(),
        utf8_len(parts[j]) == n,
        forall|i: int| 0 <= i < j ==> utf8_len(#[trigger] parts[i]) != n,
    ensures
        first_with_byte_len(parts, n) == Some(parts[j]),
    decreases j,
{
    if j > 0 {
        let t = parts.skip(1);
        assert(utf8_len(parts[0]) != n);
        assert(t[j - 1] == parts[j]);
        assert forall|i: int| 0 <= i < j - 1 implies utf8_len(#[trigger] t[i]) != n by {
            assert(t[i] == parts[i + 1]);
        }
        lemma_first_with_byte_len_at(t, n, j - 1);
    }
}

/// Without a piece of `n` bytes, `first_with_byte_len` finds nothing.
proof fn lemma_no_piece_with_byte_len(parts: Seq<Seq<char>>, n: nat)
    requires
        forall|i: int| 0 <= i < parts.len() ==> utf8_len(#[trigger] parts[i]) != n,
    ensures
        first_with_byte_len(parts, n) is None,
    decreases parts.len(),
{
    if parts.len() > 0 {
        let t = parts.skip(1);
        assert(utf8_len(parts[0]) != n);
        assert forall|i: int| 0 <= i < t.len() implies utf8_len(#[trigger] t[i]) != n by {
            assert(t[i] == parts[i + 1]);
        }
        lemma_no_piece_with_byte_len(t, n);
    }
}

/// `--connect <link>` with a `hoptodesk://sso-login/` or
/// `hoptodesk://file-transfer/` link of at least five `/`-separated pieces
/// connects to the fourth piece; the first piece of 32 bytes, if any, is
/// both password and token, and otherwise they stay as read before.
pub proof fn law_connect_link_sets_peer_and_token(
    args: Seq<Seq<char>>,
    id: Seq<char>,
    password: Seq<char>,
    token: Seq<char>,
)
    requires
        args.len() >= 2,
        args[0] == "--connect"@,
        has_prefix(args[1], "hoptodesk://sso-login/"@) || has_prefix(
            args[1],
            "hoptodesk://file-transfer/"@,
        ),
        split_spec(args[1], '/').len() >= 5,
    ensures
        connect_override(args, id, password, token).0 == split_spec(args[1], '/')[3],
        forall|j: int|
            0 <= j < split_spec(args[1], '/').len() && utf8_len(
                #[trigger] split_spec(args[1], '/')[j],
            ) == 32 && (forall|i: int|
                0 <= i < j ==> utf8_len(split_spec(args[1], '/')[i]) != 32) ==> connect_override(
                args,
                id,
                password,
                token,
            ).1 == split_spec(args[1], '/')[j] && connect_override(args, id, password, token).2
                == split_spec(args[1], '/')[j],
        (forall|i: int|
            0 <= i < split_spec(args[1], '/').len() ==> utf8_len(split_spec(args[1], '/')[i]) != 32)
            ==> connect_override(args, id, password, token).1 == password && connect_override(
            args,
            id,
            password,
            token,
        ).2 == token,
{
    let parts = split_spec(args[1], '/');
    assert forall|j: int|
        0 <= j < parts.len() && utf8_len(#[trigger] parts[j]) == 32 && (forall|i: int|
            0 <= i < j ==> utf8_len(parts[i]) != 32) implies connect_override(
        args,
        id,
        password,
        token,
    ).1 == parts[j] && connect_override(args, id, password, token).2 == parts[j] by {
        lemma_first_with_byte_len_at(parts, 32, j);
    }
    if forall|i: int| 0 <= i < parts.len() ==> utf8_len(parts[i]) != 32 {
        lemma_no_piece_with_byte_len(parts, 32);
    }
}

/// Each of the six session commands, followed by at least one more
/// argument, opens a session window (outside quick-support executables).
pub proof fn law_session_commands_open_session(args: Seq<Seq<char>>, is_macos: bool)
    requires
        args.len() > 1,
        args[0] == "--connect"@ || args[0] == "--file-transfer"@ || args[0] == "--port-forward"@
            || args[0] == "--rdp"@ || args[0] == "--view-camera"@ || args[0] == "--terminal"@,
    ensures
        launch_mode_spec(args, false, is_macos) == LaunchMode::Session,
{
    reveal_strlit("--connect");
    reveal_strlit("--file-transfer");
    reveal_strlit("--port-forward");
    reveal_strlit("--rdp");
    reveal_strlit("--view-camera");
    reveal_strlit("--terminal");
    reveal_strlit("--qs");
    reveal_strlit("--install");
    reveal_strlit("--remoteupdate");
    reveal_strlit("--cm");
    reveal_strlit("--ticket");
    reveal_strlit("--invite");
    let c = args[0];
    // the command text survives quote and bracket stripping
    lemma_arg_text_covers_first(args);
    assert(c.len() > 0 && !is_stripped_char(c.last()));
    assert(strip_quotes_brackets(c) == strip_quotes_brackets(c.drop_last()).push(c.last()));
    // none of the commands checked before the session commands
    assert(c != "--qs"@) by {
        assert(c.len() != "--qs"@.len());
    }
    assert(c != "--cm"@) by {
        assert(c.len() != "--cm"@.len());
    }
    assert(c != "--ticket"@) by {
        assert(c.len() != "--ticket"@.len());
    }
    assert(c != "--invite"@) by {
        assert(c.len() != "--invite"@.len());
    }
    assert(c != "--install"@) by {
        if c.len() == "--install"@.len() {
            assert(c[2] != "--install"@[2]);
        }
    }
    assert(c != "--remoteupdate"@) by {
        if c.len() == "--remoteupdate"@.len() {
            assert(c[2] != "--remoteupdate"@[2]);
        }
    }
}

// ---------------------------------------------------------------------------
// Executable plans
// ---------------------------------------------------------------------------

/// The peer id, password, token and further arguments of a session command.
pub struct SessionArgs {
    pub cmd: String,
    pub id: String,
    pub password: String,
    pub token: String,
    pub rest: Vec<String>,
}

/// Everything a session window is opened with.
pub struct SessionPlan {
    /// The session command (`--connect`, `--rdp`, ...).
    pub cmd: String,
    /// The peer to connect to; also the window title.
    pub id: String,
    pub password: String,
    pub token: String,
    /// Further arguments handed to the session.
    pub rest: Vec<String>,
    /// A token to store in `LastToken.toml` before the window opens.
    pub save_token: Option<String>,
}

/// What a `hoptodesk://connect/<id>/<password>/<team>/<token>/...` link asks for.
pub struct QuickConnectPlan {
    pub id: String,
    pub password: String,
    pub token: String,
    pub rest: Vec<String>,
    /// A team token to hand to the dashboard as a pending quick-connect token.
    pub pending_token: Option<String>,
    /// A token to store in `LastToken.toml`.
    pub save_token: Option<String>,
}

/// What a `--remoteupdate` launch does after installing its handlers.
#[derive(PartialEq, Eq, Structural, Clone, Copy, Debug)]
pub enum RemoteUpdateAction {
    /// Installed from the app store: return without doing anything.
    Stay,
    /// The published version is newer: download and run the update.
    RunUpdate,
    /// Up to date: exit the process.
    Exit,
}

/// The argument at `i`, or an empty string.
fn arg_or_empty_exec(args: &Vec<String>, i: usize) -> (res: String)
    ensures
        res@ == arg_or_empty(args.deep_view(), i as int),
{
    if i < args.len() {
        args[i].clone()
    } else {
        String::new()
    }
}

/// The arguments from `i` on.
fn args_from_exec(args: &Vec<String>, i: usize) -> (res: Vec<String>)
    ensures
        res.deep_view() == args_from(args.deep_view(), i as int),
{
    let mut res: Vec<String> = Vec::new();
    if i > args.len() {
        return res;
    }
    let n = args.len();
    let mut k = i;
    while k < n
        invariant
            i <= k <= n,
            n == args.len(),
            res.deep_view() == args.deep_view().subrange(i as int, k as int),
        decreases n - k,
    {
        let ghost prev = res.deep_view();
        res.push(args[k].clone());
        assert(res.deep_view() =~= prev.push(args.deep_view()[k as int]));
        assert(res.deep_view() =~= args.deep_view().subrange(i as int, k + 1));
        k = k + 1;
    }
    assert(args.deep_view().subrange(i as int, n as int) =~= args.deep_view().skip(i as int));
    res
}

/// A peer id made of ten to twelve ASCII digits.
pub fn is_numeric_id(peer_id: &str) -> (res: bool)
    ensures
        res == is_numeric_id_spec(peer_id@),
{
    let cs = chars_of(peer_id);
    let n = cs.len();
    if n < 10 || n > 12 {
        return false;
    }
    for i in 0..n
        invariant
            n == cs@.len(),
            cs@ == peer_id@,
            forall|j: int| 0 <= j < i ==> is_digit(cs@[j]),
    {
        if cs[i] < '0' || cs[i] > '9' {
            return false;
        }
    }
    true
}

/// `--play <file>` becomes `--connect <file stem>` (empty when the path
/// has no file name).
pub fn rewrite_play_args(args: &mut Vec<String>)
    ensures
        old(args).len() > 1 && old(args).deep_view()[0] == "--play"@ ==> final(args).deep_view()
            == old(args).deep_view().update(0, "--connect"@).update(
            1,
            stem_or_empty(old(args).deep_view()[1]),
        ),
        !(old(args).len() > 1 && old(args).deep_view()[0] == "--play"@) ==> final(args).deep_view()
            == old(args).deep_view(),
{
    if args.len() > 1 && str_eq(args[0].as_str(), "--play") {
        let stem = match file_stem_text(args[1].as_str()) {
            Some(s) => s,
            None => String::new(),
        };
        let ghost before = args.deep_view();
        args.set(0, owned("--connect"));
        args.set(1, stem);
        assert(args.deep_view() =~= before.update(0, "--connect"@).update(1, stem_or_empty(before[1])));
    }
}

/// The file stem of a path (`Path::file_stem`), as text; `None` when the
/// path has no file name.
pub uninterp spec fn file_stem_of(path: Seq<char>) -> Option<Seq<char>>;

/// The file stem of a path, or empty text when it has none.
pub open spec fn stem_or_empty(path: Seq<char>) -> Seq<char> {
    match file_stem_of(path) {
        Some(s) => s,
        None => Seq::<char>::empty(),
    }
}

/// `std::path::Path::file_stem`, as text.
/// Trusted: the result depends on the path text alone; its rules (last
/// component, text before the final `.`) are those of `std::path` and are
/// not restated. A stem of a path given as text is itself valid text, so
/// the lossy conversion changes nothing.
#[verifier::external_body]
fn file_stem_text(path: &str) -> (res: Option<String>)
    ensures
        res matches Some(s) ==> file_stem_of(path@) == Some(s@),
        res is None ==> file_stem_of(path@) is None,
{
    match std::path::Path::new(path).file_stem() {
        Some(stem) => Some(stem.to_string_lossy().into_owned()),
        None => None,
    }
}

/// The whole command line as one text without double quotes and brackets.
pub fn launch_arg_text(args: &Vec<String>) -> (res: String)
    ensures
        res@ == arg_text_spec(args.deep_view()),
{
    let mut out: Vec<char> = Vec::new();
    let n = args.len();
    for i in 0..n
        invariant
            n == args.len(),
            out@ == strip_quotes_brackets(concat_all(args.deep_view().take(i as int))),
    {
        let cs = chars_of(args[i].as_str());
        let m = cs.len();
        let ghost pre = concat_all(args.deep_view().take(i as int));
        for j in 0..m
            invariant
                m == cs@.len(),
                cs@ == args.deep_view()[i as int],
                out@ == strip_quotes_brackets(pre + cs@.take(j as int)),
        {
            let c = cs[j];
            assert((pre + cs@.take(j + 1)).drop_last() =~= pre + cs@.take(j as int));
            assert((pre + cs@.take(j + 1)).last() == c);
            if !(c == '"' || c == '[' || c == ']') {
                out.push(c);
            }
        }
        assert(cs@.take(m as int) =~= cs@);
        assert(args.deep_view().take(i + 1).drop_last() =~= args.deep_view().take(i as int));
    }
    assert(args.deep_view().take(n as int) =~= args.deep_view());
    string_from(out.as_slice())
}

/// Which window the launcher opens for the (already rewritten) arguments.
/// `exe_is_quick_support` says that the executable's file name holds `-qs`.
pub fn launch_mode(args: &Vec<String>, exe_is_quick_support: bool, is_macos: bool) -> (res:
    LaunchMode)
    ensures
        res == launch_mode_spec(args.deep_view(), exe_is_quick_support, is_macos),
{
    let text = launch_arg_text(args);
    if args.len() == 0 || text.as_str().is_empty() {
        return LaunchMode::Main;
    }
    let a0 = args[0].as_str();
    if str_eq(a0, "--qs") || (!str_eq(a0, "--install") && exe_is_quick_support) {
        LaunchMode::Main
    } else if str_eq(a0, "--remoteupdate") {
        LaunchMode::RemoteUpdate
    } else if str_eq(a0, "--install") {
        LaunchMode::Install
    } else if str_eq(a0, "--cm") {
        LaunchMode::ConnectionManager
    } else if str_eq(a0, "--ticket") {
        LaunchMode::Ticket
    } else if str_eq(a0, "--invite") && args.len() >= 3 {
        LaunchMode::Invite
    } else if (str_eq(a0, "--connect") || str_eq(a0, "--file-transfer") || str_eq(
        a0,
        "--port-forward",
    ) || str_eq(a0, "--rdp") || str_eq(a0, "--view-camera") || str_eq(a0, "--terminal"))
        && args.len() > 1 {
        LaunchMode::Session
    } else if is_macos && starts_with(text.as_str(), "hoptodesk://connect/") {
        LaunchMode::QuickConnect
    } else {
        LaunchMode::Wrong
    }
}

/// Peer, own id and password of an invite request (`--invite <peer> <self> <password>`).
pub fn invite_request(args: &Vec<String>) -> (res: (String, String, String))
    requires
        args.len() >= 4,
    ensures
        res.0@ == args.deep_view()[1],
        res.1@ == args.deep_view()[2],
        res.2@ == args.deep_view()[3],
{
    (args[1].clone(), args[2].clone(), args[3].clone())
}

/// Reads the peer id, password, token and further arguments of a session
/// command line.
pub fn parse_session_args(args: &Vec<String>) -> (res: SessionArgs)
    requires
        args.len() >= 1,
    ensures
        res.cmd@ == args.deep_view()[0],
        is_print_selection(args.deep_view()) ==> {
            &&& res.id@ == arg_or_empty(args.deep_view(), 2)
            &&& res.password@ == arg_or_empty(args.deep_view(), 3)
            &&& res.token@ == arg_or_empty(args.deep_view(), 5)
            &&& res.rest.deep_view() == seq!["--select-for-print"@] + args_from(args.deep_view(), 6)
        },
        !is_print_selection(args.deep_view()) ==> {
            let st = scan_session_args(args.deep_view().skip(1), empty_scan());
            &&& res.id@ == st.id
            &&& res.password@ == st.password
            &&& res.token@ == st.token
            &&& res.rest.deep_view() == st.rest
        },
{
    let cmd = args[0].clone();
    if args.len() > 1 && str_eq(args[0].as_str(), "--file-transfer") && str_eq(
        args[1].as_str(),
        "--select-for-print",
    ) {
        let id = arg_or_empty_exec(args, 2);
        let password = arg_or_empty_exec(args, 3);
        let token = arg_or_empty_exec(args, 5);
        let tail = args_from_exec(args, 6);
        let mut rest: Vec<String> = Vec::new();
        rest.push(owned("--select-for-print"));
        let ghost head = rest.deep_view();
        let m = tail.len();
        for k in 0..m
            invariant
                m == tail.len(),
                rest.deep_view() == head + tail.deep_view().take(k as int),
        {
            let ghost prev = rest.deep_view();
            rest.push(tail[k].clone());
            assert(rest.deep_view() =~= prev.push(tail.deep_view()[k as int]));
            assert(rest.deep_view() =~= head + tail.deep_view().take(k + 1));
        }
        assert(tail.deep_view().take(m as int) =~= tail.deep_view());
        assert(head =~= seq!["--select-for-print"@]);
        return SessionArgs { cmd, id, password, token, rest };
    }
    let n = args.len();
    let mut id = String::new();
    let mut id_found = false;
    let mut password = String::new();
    let mut token = String::new();
    let mut rest: Vec<String> = Vec::new();
    let mut i: usize = 1;
    let ghost a = args.deep_view().skip(1);
    assert(rest.deep_view() =~= Seq::<Seq<char>>::empty());
    assert(id@ =~= Seq::<char>::empty());
    assert(password@ =~= Seq::<char>::empty());
    assert(token@ =~= Seq::<char>::empty());
    while i < n
        invariant
            1 <= i <= n,
            n == args.len(),
            a == args.deep_view().skip(1),
            scan_session_args(args.deep_view().skip(i as int), ArgScan {
                id: id@,
                id_found,
                password: password@,
                token: token@,
                rest: rest.deep_view(),
            }) == scan_session_args(a, empty_scan()),
        decreases n - i,
    {
        let ghost cur = args.deep_view().skip(i as int);
        let ghost st = ArgScan {
            id: id@,
            id_found,
            password: password@,
            token: token@,
            rest: rest.deep_view(),
        };
        assert(cur[0] == args.deep_view()[i as int]);
        let arg = args[i].as_str();
        if str_eq(arg, "--password") {
            if i + 1 < n {
                password = args[i + 1].clone();
                assert(cur.skip(2) =~= args.deep_view().skip(i + 2));
                i = i + 2;
            } else {
                assert(cur.len() < 2);
                assert(args.deep_view().skip(n as int) =~= Seq::<Seq<char>>::empty());
                i = n;
            }
        } else if str_eq(arg, "--tokenex") {
            if i + 1 < n {
                token = args[i + 1].clone();
                assert(cur.skip(2) =~= args.deep_view().skip(i + 2));
                i = i + 2;
            } else {
                assert(cur.len() < 2);
                assert(args.deep_view().skip(n as int) =~= Seq::<Seq<char>>::empty());
                i = n;
            }
        } else if !id_found && !starts_with(arg, "--") {
            id = args[i].clone();
            id_found = true;
            assert(cur.skip(1) =~= args.deep_view().skip(i + 1));
            i = i + 1;
        } else {
            rest.push(args[i].clone());
            assert(rest.deep_view() =~= st.rest.push(cur[0]));
            assert(cur.skip(1) =~= args.deep_view().skip(i + 1));
            i = i + 1;
        }
    }
    assert(args.deep_view().skip(n as int) =~= Seq::<Seq<char>>::empty());
    assert(empty_scan().rest =~= Seq::<Seq<char>>::empty());
    SessionArgs { cmd, id, password, token, rest }
}

/// A peer id with a `.` that is neither an IP address nor a numeric id is
/// a host name to resolve.
pub fn needs_hostname_lookup(id: &str, is_ipv4: bool, is_ipv6: bool) -> (res: bool)
    ensures
        res == (id@.contains('.') && !is_ipv4 && !is_ipv6 && !is_numeric_id_spec(id@)),
{
    contains_char(id, '.') && !is_ipv4 && !is_ipv6 && !is_numeric_id(id)
}

/// Splits `host:port` into host and port when the text after the last `:`
/// is a non-empty run of ASCII digits; otherwise the whole text is the host.
pub fn split_host_port(hostname: &str) -> (res: (String, Option<String>))
    ensures
        ({
            let s = hostname@;
            match last_index_spec(s, ':') {
                Some(k) => if s.skip(k + 1).len() > 0 && all_digits(s.skip(k + 1)) {
                    res.0@ == s.take(k) && (res.1 matches Some(p) && p@ == s.skip(k + 1))
                } else {
                    res.0@ == s && res.1 is None
                },
                None => res.0@ == s && res.1 is None,
            }
        }),
{
    let cs = chars_of(hostname);
    match last_index_of(cs.as_slice(), ':') {
        Some(k) => {
            let n = cs.len();
            let mut after: Vec<char> = Vec::new();
            let mut all = true;
            let mut j = k + 1;
            while j < n
                invariant
                    k < n,
                    n == cs@.len(),
                    k + 1 <= j <= n,
                    after@ == cs@.subrange(k + 1, j as int),
                    all == all_digits(after@),
                decreases n - j,
            {
                let c = cs[j];
                let ghost prev = after@;
                if c < '0' || c > '9' {
                    all = false;
                }
                after.push(c);
                proof {
                    assert(after@ == prev.push(c));
                    if all_digits(prev) && is_digit(c) {
                        assert forall|q: int| 0 <= q < after@.len() implies is_digit(
                            #[trigger] after@[q],
                        ) by {
                            if q < prev.len() {
                                assert(after@[q] == prev[q]);
                            }
                        }
                    }
                    if !all_digits(prev) {
                        let w = choose|q: int| 0 <= q < prev.len() && !is_digit(#[trigger] prev[q]);
                        assert(after@[w] == prev[w]);
                    }
                    if !is_digit(c) {
                        assert(after@[prev.len() as int] == c);
                    }
                }
                assert(after@ =~= cs@.subrange(k + 1, j + 1));
                j = j + 1;
            }
            assert(after@ =~= hostname@.skip(k + 1));
            if after.len() > 0 && all {
                let mut head = cs.clone();
                head.truncate(k);
                let host = string_from(head.as_slice());
                proof {
                    assert(cs@.subrange(0, k as int) =~= hostname@.take(k as int));
                }
                (host, Some(string_from(after.as_slice())))
            } else {
                (hostname.to_owned(), None)
            }
        },
        None => (hostname.to_owned(), None),
    }
}

/// The peer id after a host-name lookup: the resolved address, with the
/// port appended when one was given.
pub fn resolved_address(ip: &str, port: Option<String>) -> (res: String)
    ensures
        port matches Some(p) ==> res@ == ip@ + seq![':'] + p@,
        port is None ==> res@ == ip@,
{
    match port {
        Some(p) => {
            let mut s = owned(ip);
            push_char(&mut s, ':');
            joined(s.as_str(), p.as_str())
        },
        None => owned(ip),
    }
}

/// The first piece whose UTF-8 encoding is `n` bytes long.
fn first_with_len(parts: &Vec<String>, n: usize) -> (res: Option<String>)
    ensures
        res matches Some(t) ==> first_with_byte_len(parts.deep_view(), n as nat) == Some(t@),
        res is None ==> first_with_byte_len(parts.deep_view(), n as nat) is None,
{
    let m = parts.len();
    assert(parts.deep_view().skip(0) =~= parts.deep_view());
    for i in 0..m
        invariant
            m == parts.len(),
            first_with_byte_len(parts.deep_view(), n as nat) == first_with_byte_len(
                parts.deep_view().skip(i as int),
                n as nat,
            ),
    {
        let ghost cur = parts.deep_view().skip(i as int);
        assert(cur[0] == parts[i as int]@);
        assert(cur.skip(1) =~= parts.deep_view().skip(i + 1));
        if utf8_byte_len(parts[i].as_str()) == n as u128 {
            return Some(parts[i].clone());
        }
    }
    None
}

/// Completes a session command: refuses an empty or bare-scheme peer id,
/// remembers the token to store, and lets a `--connect` link override the
/// peer id, password and token.
pub fn session_plan(args: &Vec<String>, parsed: SessionArgs) -> (res: Option<SessionPlan>)
    ensures
        res is None <==> (parsed.id@ == "hoptodesk:///"@ || parsed.id@.len() == 0),
        res matches Some(p) ==> {
            let o = connect_override(args.deep_view(), parsed.id@, parsed.password@, parsed.token@);
            &&& p.cmd@ == parsed.cmd@
            &&& p.rest.deep_view() == parsed.rest.deep_view()
            &&& p.id@ == o.0
            &&& p.password@ == o.1
            &&& p.token@ == o.2
            &&& parsed.token@.len() > 0 ==> (p.save_token matches Some(t) && t@ == parsed.token@)
            &&& parsed.token@.len() == 0 ==> p.save_token is None
        },
{
    if str_eq(parsed.id.as_str(), "hoptodesk:///") || parsed.id.as_str().is_empty() {
        return None;
    }
    let save_token = if parsed.token.as_str().is_empty() {
        None
    } else {
        Some(parsed.token.clone())
    };
    let mut id = parsed.id;
    let mut password = parsed.password;
    let mut token = parsed.token;
    if args.len() >= 2 && str_eq(args[0].as_str(), "--connect") {
        let full = args[1].as_str();
        if starts_with(full, "hoptodesk://sso-login/") || starts_with(
            full,
            "hoptodesk://file-transfer/",
        ) {
            let parts = split_char(full, '/');
            if parts.len() >= 5 {
                id = parts[3].clone();
                match first_with_len(&parts, 32) {
                    Some(t) => {
                        token = t.clone();
                        password = t;
                    },
                    None => {},
                }
            }
        } else {
            token = arg_or_empty_exec(args, 2);
        }
    }
    Some(SessionPlan { cmd: parsed.cmd, id, password, token, rest: parsed.rest, save_token })
}

/// Reads a `hoptodesk://connect/<id>/<password>/<team>/<token>/<args>...`
/// command line; `None` when the link names no peer.
pub fn quick_connect_plan(arg_text: &str) -> (res: Option<QuickConnectPlan>)
    ensures
        ({
            let parts = quick_connect_parts(arg_text@);
            let team = arg_or_empty(parts, 2);
            let token = arg_or_empty(parts, 3);
            &&& (res is None <==> parts[0].len() == 0)
            &&& res matches Some(p) ==> {
                &&& p.id@ == parts[0]
                &&& p.password@ == arg_or_empty(parts, 1)
                &&& p.token@ == token
                &&& p.rest.deep_view() == args_from(parts, 4)
                &&& (team.len() > 0 && utf8_len(team) != 16 && utf8_len(team)
                    != 32) ==> (p.pending_token matches Some(t) && t@ == team)
                &&& !(team.len() > 0 && utf8_len(team) != 16 && utf8_len(team)
                    != 32) ==> p.pending_token is None
                &&& token.len() > 0 ==> (p.save_token matches Some(t) && t@ == token)
                &&& token.len() == 0 ==> p.save_token is None
            }
        }),
{
    proof {
        reveal_strlit("hoptodesk://connect/");
        reveal_strlit("");
        assert(""@ =~= Seq::<char>::empty());
    }
    let stripped = replace_all(arg_text, "hoptodesk://connect/", "");
    proof {
        lemma_split_join(stripped@, '/');
    }
    let parts = split_char(stripped.as_str(), '/');
    assert(parts.deep_view() == quick_connect_parts(arg_text@));
    let id = parts[0].clone();
    if id.as_str().is_empty() {
        return None;
    }
    let password = arg_or_empty_exec(&parts, 1);
    let team = arg_or_empty_exec(&parts, 2);
    let token = arg_or_empty_exec(&parts, 3);
    let rest = args_from_exec(&parts, 4);
    let tl = utf8_byte_len(team.as_str());
    let pending_token = if !team.as_str().is_empty() && tl != 16 && tl != 32 {
        Some(team.clone())
    } else {
        None
    };
    let save_token = if token.as_str().is_empty() {
        None
    } else {
        Some(token.clone())
    };
    Some(QuickConnectPlan { id, password, token, rest, pending_token, save_token })
}

/// `ProgramFiles` points into the app store's install folder.
pub fn installed_from_store(program_files: &Option<String>) -> (res: bool)
    ensures
        res == (program_files matches Some(pf) && has_substring(pf@, "WindowsApps"@)),
{
    match program_files {
        Some(pf) => contains_str(pf.as_str(), "WindowsApps"),
        None => false,
    }
}

/// What `--remoteupdate` does: nothing when installed from the app store,
/// update when the published version number is higher, exit otherwise.
pub fn remote_update_action(program_files: &Option<String>, local_version: i64, api_version: i64) -> (res:
    RemoteUpdateAction)
    ensures
        (program_files matches Some(pf) && has_substring(pf@, "WindowsApps"@)) ==> res
            == RemoteUpdateAction::Stay,
        !(program_files matches Some(pf) && has_substring(pf@, "WindowsApps"@)) ==> res == (if local_version
            < api_version {
            RemoteUpdateAction::RunUpdate
        } else {
            RemoteUpdateAction::Exit
        }),
{
    if installed_from_store(program_files) {
        RemoteUpdateAction::Stay
    } else if local_version < api_version {
        RemoteUpdateAction::RunUpdate
    } else {
        RemoteUpdateAction::Exit
    }
}

} // verus!
