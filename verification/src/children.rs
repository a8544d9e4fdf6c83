//! Bookkeeping for the session windows that run as child processes: which
//! (peer, session type) pairs have a process, which peers have a command
//! pipe, and how commands and listings are derived from that.
//!
//! The processes and pipes themselves belong to the caller; this registry
//! records their keys and decides what to do with them.
use vstd::prelude::*;
use crate::text::{joined, owned, push_char, str_eq};

verus! {

/// A (peer id, session type) key, as plain text.
pub type SessionKey = (Seq<char>, Seq<char>);

/// No key occurs twice.
pub open spec fn distinct_keys(s: Seq<SessionKey>) -> bool {
    forall|i: int, j: int| 0 <= i < s.len() && 0 <= j < s.len() && i != j ==> s[i] != s[j]
}

/// The set of keys in a key sequence.
pub open spec fn key_set(s: Seq<SessionKey>) -> Set<SessionKey> {
    Set::new(|k: SessionKey| s.contains(k))
}

/// What a child process reported when asked whether it has finished.
#[derive(PartialEq, Eq, Structural, Clone, Copy, Debug)]
pub enum ChildStatus {
    /// `try_wait` found the process still running.
    Running,
    /// `try_wait` found the process finished.
    Exited,
    /// `try_wait` failed.
    Unknown,
}

/// What `new_remote` does about a session that may already have a process.
#[derive(PartialEq, Eq, Structural, Clone, Copy, Debug)]
pub enum NewRemoteAction {
    /// No process for this key yet: start one.
    Spawn,
    /// The previous process has finished: forget it and start a new one.
    ReplaceFinished,
    /// An RDP session still runs: kill it, forget it, start a new one.
    KillAndReplace,
    /// A session of this kind to this peer is already open: do nothing.
    AlreadyOpen,
}

/// The session windows that run as child processes, and whether the list
/// of recent sessions changed since it was last read.
pub struct Children {
    updated: bool,
    sessions: Vec<(String, String)>,
}

/// The session processes that have a command pipe, one per
/// (peer, session type) key.
pub struct ChildPipes {
    sessions: Vec<(String, String)>,
}

impl Children {
    /// The registered keys, in registration order.
    pub closed spec fn keys(&self) -> Seq<SessionKey> {
        self.sessions.deep_view()
    }

    /// The recent-sessions list changed and nobody has read that yet.
    pub closed spec fn is_updated(&self) -> bool {
        self.updated
    }

    /// No key is registered twice.
    pub open spec fn wf(&self) -> bool {
        distinct_keys(self.keys())
    }

    /// An empty registry.
    pub fn new() -> (res: Children)
        ensures
            res.wf(),
            res.keys() == Seq::<SessionKey>::empty(),
            !res.is_updated(),
    {
        let res = Children { updated: false, sessions: Vec::new() };
        assert(res.keys() =~= Seq::<SessionKey>::empty());
        res
    }

    /// Notes that the recent-sessions list changed (a session process ended).
    pub fn mark_updated(&mut self)
        ensures
            final(self).is_updated(),
            final(self).keys() == old(self).keys(),
    {
        self.updated = true;
    }

    /// A process is registered for `(id, kind)`.
    pub fn has_session(&self, id: &str, kind: &str) -> (res: bool)
        ensures
            res == self.keys().contains((id@, kind@)),
    {
        key_position(&self.sessions, id, kind).is_some()
    }

    /// Registers a process for `(id, kind)`; a key that is already there stays once.
    pub fn add_session(&mut self, id: &str, kind: &str)
        requires
            old(self).wf(),
        ensures
            final(self).wf(),
            final(self).is_updated() == old(self).is_updated(),
            final(self).keys() == keys_after_add(old(self).keys(), id@, kind@),
    {
        if key_position(&self.sessions, id, kind).is_none() {
            let ghost before = self.keys();
            self.sessions.push((owned(id), owned(kind)));
            assert(self.keys() =~= before.push((id@, kind@)));
        }
    }

    /// Forgets the process registered for `(id, kind)`, if any.
    pub fn remove_session(&mut self, id: &str, kind: &str)
        requires
            old(self).wf(),
        ensures
            final(self).wf(),
            final(self).is_updated() == old(self).is_updated(),
            key_set(final(self).keys()) == key_set(old(self).keys()).remove((id@, kind@)),
    {
        match key_position(&self.sessions, id, kind) {
            Some(i) => {
                let ghost before = self.keys();
                self.sessions.remove(i);
                assert(self.keys() =~= before.remove(i as int));
                assert forall|k: SessionKey| #[trigger] self.keys().contains(k) <==> (before.contains(k)
                    && k != (id@, kind@)) by {
                    if self.keys().contains(k) {
                        let a = choose|a: int| 0 <= a < self.keys().len() && self.keys()[a] == k;
                        if a < i {
                            assert(before[a] == k);
                        } else {
                            assert(before[a + 1] == k);
                        }
                    }
                    if before.contains(k) && k != (id@, kind@) {
                        let a = choose|a: int| 0 <= a < before.len() && before[a] == k;
                        if a < i {
                            assert(self.keys()[a] == k);
                        } else {
                            assert(a != i);
                            assert(self.keys()[a - 1] == k);
                        }
                    }
                }
                assert(key_set(self.keys()) =~= key_set(before).remove((id@, kind@)));
            },
            None => {
                assert(key_set(self.keys()) =~= key_set(self.keys()).remove((id@, kind@)));
            },
        }
    }

    /// The registered keys, in registration order.
    pub fn session_keys(&self) -> (res: Vec<(String, String)>)
        ensures
            res.deep_view() == self.keys(),
    {
        copy_keys(&self.sessions)
    }

    /// The keys whose process belongs to peer `id` (the processes to stop
    /// when that peer's connection closes), in registration order.
    pub fn sessions_of_peer(&self, id: &str) -> (res: Vec<(String, String)>)
        ensures
            res.deep_view() == keys_of_peer(self.keys(), id@),
    {
        peer_keys(&self.sessions, id)
    }
}

/// The keys of peer `id`, in order.
pub open spec fn keys_of_peer(keys: Seq<SessionKey>, id: Seq<char>) -> Seq<SessionKey>
    decreases keys.len(),
{
    if keys.len() == 0 {
        Seq::<SessionKey>::empty()
    } else if keys.last().0 == id {
        keys_of_peer(keys.drop_last(), id).push(keys.last())
    } else {
        keys_of_peer(keys.drop_last(), id)
    }
}

impl ChildPipes {
    /// The (peer, session type) keys of the sessions with a command pipe.
    pub closed spec fn keys(&self) -> Seq<SessionKey> {
        self.sessions.deep_view()
    }

    /// No key is registered twice.
    pub open spec fn wf(&self) -> bool {
        distinct_keys(self.keys())
    }

    /// No pipes.
    pub fn new() -> (res: ChildPipes)
        ensures
            res.wf(),
            res.keys() == Seq::<SessionKey>::empty(),
    {
        let res = ChildPipes { sessions: Vec::new() };
        assert(res.keys() =~= Seq::<SessionKey>::empty());
        res
    }

    /// The session `(id, kind)` has a command pipe.
    pub fn has_pipe(&self, id: &str, kind: &str) -> (res: bool)
        ensures
            res == self.keys().contains((id@, kind@)),
    {
        key_position(&self.sessions, id, kind).is_some()
    }

    /// Records a command pipe for the session `(id, kind)` (replacing an
    /// older one of the same session).
    pub fn add_pipe(&mut self, id: &str, kind: &str)
        requires
            old(self).wf(),
        ensures
            final(self).wf(),
            final(self).keys() == keys_after_add(old(self).keys(), id@, kind@),
    {
        if key_position(&self.sessions, id, kind).is_none() {
            let ghost before = self.keys();
            self.sessions.push((owned(id), owned(kind)));
            assert(self.keys() =~= before.push((id@, kind@)));
        }
    }

    /// Number of sessions with a command pipe.
    pub fn len(&self) -> (res: usize)
        ensures
            res == self.keys().len(),
    {
        self.sessions.len()
    }

    /// The sessions with a command pipe, in registration order.
    pub fn pipe_keys(&self) -> (res: Vec<(String, String)>)
        ensures
            res.deep_view() == self.keys(),
    {
        copy_keys(&self.sessions)
    }

    /// The sessions of peer `id` that have a command pipe, in registration order.
    pub fn pipes_of_peer(&self, id: &str) -> (res: Vec<(String, String)>)
        ensures
            res.deep_view() == keys_of_peer(self.keys(), id@),
    {
        peer_keys(&self.sessions, id)
    }
}

/// Position of `(id, kind)` among the keys `v`.
fn key_position(v: &Vec<(String, String)>, id: &str, kind: &str) -> (res: Option<usize>)
    ensures
        res matches Some(i) ==> i < v.deep_view().len() && v.deep_view()[i as int] == (id@, kind@),
        res is None ==> !v.deep_view().contains((id@, kind@)),
{
    let n = v.len();
    for i in 0..n
        invariant
            n == v.len(),
            forall|j: int| 0 <= j < i ==> v.deep_view()[j] != (id@, kind@),
    {
        let e = &v[i];
        assert(v.deep_view()[i as int] == (e.0@, e.1@));
        if str_eq(e.0.as_str(), id) && str_eq(e.1.as_str(), kind) {
            return Some(i);
        }
    }
    None
}

/// A copy of the keys `v`.
fn copy_keys(v: &Vec<(String, String)>) -> (res: Vec<(String, String)>)
    ensures
        res.deep_view() == v.deep_view(),
{
    let n = v.len();
    let mut res: Vec<(String, String)> = Vec::new();
    for i in 0..n
        invariant
            n == v.len(),
            res.deep_view() == v.deep_view().take(i as int),
    {
        let e = &v[i];
        let ghost prev = res.deep_view();
        res.push((e.0.clone(), e.1.clone()));
        assert(res.deep_view() =~= prev.push(v.deep_view()[i as int]));
        assert(v.deep_view().take(i + 1) =~= v.deep_view().take(i as int).push(v.deep_view()[i as int]));
    }
    assert(v.deep_view().take(n as int) =~= v.deep_view());
    res
}

/// The keys of `v` that belong to peer `id`, in order.
fn peer_keys(v: &Vec<(String, String)>, id: &str) -> (res: Vec<(String, String)>)
    ensures
        res.deep_view() == keys_of_peer(v.deep_view(), id@),
{
    let n = v.len();
    let mut res: Vec<(String, String)> = Vec::new();
    for i in 0..n
        invariant
            n == v.len(),
            res.deep_view() == keys_of_peer(v.deep_view().take(i as int), id@),
    {
        let e = &v[i];
        let ghost key = v.deep_view()[i as int];
        assert(key == (e.0@, e.1@));
        assert(v.deep_view().take(i + 1).drop_last() =~= v.deep_view().take(i as int));
        if str_eq(e.0.as_str(), id) {
            let ghost prev = res.deep_view();
            res.push((e.0.clone(), e.1.clone()));
            assert(res.deep_view() =~= prev.push(key));
        }
    }
    assert(v.deep_view().take(n as int) =~= v.deep_view());
    res
}

/// A key of peer `id` that goes: every key of that peer when `whole_peer`,
/// otherwise those listed in `listed`.
pub open spec fn leaves(k: SessionKey, id: Seq<char>, listed: Seq<SessionKey>, whole_peer: bool) -> bool {
    k.0 == id && (whole_peer || listed.contains(k))
}

/// The keys of `v` that stay when the keys of peer `id` selected by
/// `listed` / `whole_peer` leave, in order.
fn retain_keys(
    v: &Vec<(String, String)>,
    id: &str,
    listed: &Vec<(String, String)>,
    whole_peer: bool,
) -> (res: Vec<(String, String)>)
    requires
        distinct_keys(v.deep_view()),
    ensures
        distinct_keys(res.deep_view()),
        key_set(res.deep_view()) == key_set(v.deep_view()).filter(
            |k: SessionKey| !leaves(k, id@, listed.deep_view(), whole_peer),
        ),
{
    let ghost before = v.deep_view();
    let n = v.len();
    let mut kept: Vec<(String, String)> = Vec::new();
    for i in 0..n
        invariant
            n == v.len(),
            before == v.deep_view(),
            distinct_keys(before),
            distinct_keys(kept.deep_view()),
            forall|k: SessionKey| #[trigger] kept.deep_view().contains(k) <==> (before.take(
                i as int,
            ).contains(k) && !leaves(k, id@, listed.deep_view(), whole_peer)),
    {
        let e = &v[i];
        let ghost key = before[i as int];
        let ghost prev = kept.deep_view();
        let ghost next = before.take(i + 1);
        let ghost cur = before.take(i as int);
        assert(next =~= cur.push(key));
        assert(key == (e.0@, e.1@));
        let mut drop = false;
        if str_eq(e.0.as_str(), id) {
            if whole_peer {
                drop = true;
            } else {
                let m = listed.len();
                for j in 0..m
                    invariant
                        m == listed.len(),
                        key == (e.0@, e.1@),
                        !drop ==> forall|q: int| 0 <= q < j ==> listed.deep_view()[q] != key,
                        drop ==> listed.deep_view().contains(key),
                {
                    let c = &listed[j];
                    assert(listed.deep_view()[j as int] == (c.0@, c.1@));
                    if !drop && str_eq(c.0.as_str(), e.0.as_str()) && str_eq(c.1.as_str(), e.1.as_str()) {
                        drop = true;
                    }
                }
            }
        }
        assert(drop == leaves(key, id@, listed.deep_view(), whole_peer));
        if !drop {
            proof {
                if prev.contains(key) {
                    let a = choose|a: int| 0 <= a < prev.len() && prev[a] == key;
                    assert(cur.contains(key));
                    let b = choose|b: int| 0 <= b < cur.len() && cur[b] == key;
                    assert(before[b] == before[i as int]);
                }
            }
            kept.push((e.0.clone(), e.1.clone()));
            assert(kept.deep_view() =~= prev.push(key));
        }
        assert forall|k: SessionKey| #[trigger] kept.deep_view().contains(k) <==> (next.contains(k)
            && !leaves(k, id@, listed.deep_view(), whole_peer)) by {
            if next.contains(k) {
                let a = choose|a: int| 0 <= a < next.len() && next[a] == k;
                if a < i {
                    assert(cur[a] == k);
                } else {
                    assert(k == key);
                }
            }
            if cur.contains(k) {
                let a = choose|a: int| 0 <= a < cur.len() && cur[a] == k;
                assert(next[a] == k);
            }
            if k == key && !leaves(k, id@, listed.deep_view(), whole_peer) {
                assert(kept.deep_view()[prev.len() as int] == key);
            }
            if kept.deep_view().contains(k) && !prev.contains(k) {
                let a = choose|a: int| 0 <= a < kept.deep_view().len() && kept.deep_view()[a] == k;
                assert(a == prev.len());
                assert(k == key);
                assert(next[i as int] == key);
            }
            if prev.contains(k) {
                let a = choose|a: int| 0 <= a < prev.len() && prev[a] == k;
                assert(kept.deep_view()[a] == k);
            }
        }
    }
    assert(before.take(n as int) =~= before);
    assert(key_set(kept.deep_view()) =~= key_set(before).filter(
        |k: SessionKey| !leaves(k, id@, listed.deep_view(), whole_peer),
    ));
    kept
}

/// The text of an optional string.
pub open spec fn opt_view(o: Option<String>) -> Option<Seq<char>> {
    match o {
        Some(s) => Some(s@),
        None => None,
    }
}

/// The items of an optional value: none or one.
pub open spec fn opt_items(o: Option<Seq<char>>) -> Seq<Seq<char>> {
    match o {
        Some(v) => seq![v],
        None => Seq::empty(),
    }
}

/// The arguments of the session process for `(id, remote_type)`: an invite
/// passes its peer, own id and password after `--invite`; any other session
/// passes `--<type> <id>` and `--password <password>` when there is one.
/// With `force_relay` the arguments end in `--relay`, after an empty
/// argument except for an invite.
pub open spec fn remote_args_spec(
    id: Seq<char>,
    remote_type: Seq<char>,
    force_relay: bool,
    self_id: Option<Seq<char>>,
    password: Option<Seq<char>>,
) -> Seq<Seq<char>> {
    let invite = remote_type == "invite"@;
    let head = if invite {
        seq!["--invite"@, id] + opt_items(self_id) + opt_items(password)
    } else {
        seq!["--"@ + remote_type, id] + match password {
            Some(p) => seq!["--password"@, p],
            None => Seq::empty(),
        }
    };
    if !force_relay {
        head
    } else if invite {
        head.push("--relay"@)
    } else {
        head.push(Seq::empty()).push("--relay"@)
    }
}

/// The arguments of the child process that opens a remote session.
pub fn remote_args(
    id: &str,
    remote_type: &str,
    force_relay: bool,
    self_id: Option<String>,
    password: Option<String>,
) -> (res: Vec<String>)
    ensures
        res.deep_view() == remote_args_spec(
            id@,
            remote_type@,
            force_relay,
            opt_view(self_id),
            opt_view(password),
        ),
{
    let ghost expected = remote_args_spec(
        id@,
        remote_type@,
        force_relay,
        opt_view(self_id),
        opt_view(password),
    );
    let invite = str_eq(remote_type, "invite");
    let mut args: Vec<String> = Vec::new();
    if invite {
        args.push(owned("--invite"));
        args.push(owned(id));
        match self_id {
            Some(s) => args.push(s),
            None => {},
        }
        match password {
            Some(p) => args.push(p),
            None => {},
        }
    } else {
        args.push(joined("--", remote_type));
        args.push(owned(id));
        match password {
            Some(p) => {
                args.push(owned("--password"));
                args.push(p);
            },
            None => {},
        }
    }
    if force_relay {
        if !invite {
            args.push(String::new());
        }
        args.push(owned("--relay"));
    }
    assert(args.deep_view() =~= expected);
    args
}

/// What `new_remote` does for `(id, remote_type)` given the registered
/// keys and the status of the registered process (if any).
pub open spec fn new_remote_action_spec(
    keys: Seq<SessionKey>,
    id: Seq<char>,
    remote_type: Seq<char>,
    status: ChildStatus,
) -> NewRemoteAction {
    if !keys.contains((id, remote_type)) {
        NewRemoteAction::Spawn
    } else if status == ChildStatus::Exited {
        NewRemoteAction::ReplaceFinished
    } else if remote_type == "rdp"@ {
        NewRemoteAction::KillAndReplace
    } else {
        NewRemoteAction::AlreadyOpen
    }
}

/// The keys after `add_session(id, kind)`.
pub open spec fn keys_after_add(keys: Seq<SessionKey>, id: Seq<char>, kind: Seq<char>) -> Seq<
    SessionKey,
> {
    if keys.contains((id, kind)) {
        keys
    } else {
        keys.push((id, kind))
    }
}

/// Once a session process is registered for a peer and type, `new_remote`
/// never starts a second one beside it: it reuses the open session, or
/// replaces a finished (or, for RDP, a running) one.
pub proof fn law_registered_session_not_duplicated(
    keys: Seq<SessionKey>,
    id: Seq<char>,
    kind: Seq<char>,
    status: ChildStatus,
)
    ensures
        new_remote_action_spec(keys_after_add(keys, id, kind), id, kind, status)
            != NewRemoteAction::Spawn,
        kind != "rdp"@ && status != ChildStatus::Exited ==> new_remote_action_spec(
            keys_after_add(keys, id, kind),
            id,
            kind,
            status,
        ) == NewRemoteAction::AlreadyOpen,
{
    let k2 = keys_after_add(keys, id, kind);
    if !keys.contains((id, kind)) {
        assert(k2[k2.len() - 1] == (id, kind));
    }
    assert(k2.contains((id, kind)));
}

/// A new session process is started exactly when no process is registered
/// under the same peer and session type; sessions of other types to the
/// same peer do not stand in its way. A registered process that finished
/// is replaced; a running (or unknown) one is killed and replaced for RDP
/// and otherwise left open.
pub proof fn law_spawn_only_without_same_key(
    keys: Seq<SessionKey>,
    id: Seq<char>,
    kind: Seq<char>,
    status: ChildStatus,
)
    ensures
        (new_remote_action_spec(keys, id, kind, status) == NewRemoteAction::Spawn) <==> !keys.contains(
            (id, kind),
        ),
        keys.contains((id, kind)) && status == ChildStatus::Exited ==> new_remote_action_spec(
            keys,
            id,
            kind,
            status,
        ) == NewRemoteAction::ReplaceFinished,
        keys.contains((id, kind)) && status != ChildStatus::Exited && kind == "rdp"@
            ==> new_remote_action_spec(keys, id, kind, status) == NewRemoteAction::KillAndReplace,
        keys.contains((id, kind)) && status != ChildStatus::Exited && kind != "rdp"@
            ==> new_remote_action_spec(keys, id, kind, status) == NewRemoteAction::AlreadyOpen,
{
}

/// What to do before starting a session process for `(id, remote_type)`;
/// `status` is what the registered process (if any) reported.
pub fn new_remote_action(children: &Children, id: &str, remote_type: &str, status: ChildStatus) -> (res:
    NewRemoteAction)
    ensures
        res == new_remote_action_spec(children.keys(), id@, remote_type@, status),
{
    if !children.has_session(id, remote_type) {
        NewRemoteAction::Spawn
    } else if status == ChildStatus::Exited {
        NewRemoteAction::ReplaceFinished
    } else if str_eq(remote_type, "rdp") {
        NewRemoteAction::KillAndReplace
    } else {
        NewRemoteAction::AlreadyOpen
    }
}

/// Reports whether the recent-sessions list changed since the last call,
/// and clears that mark.
pub fn recent_sessions_updated(children: &mut Children) -> (res: bool)
    ensures
        res == old(children).is_updated(),
        !final(children).is_updated(),
        final(children).keys() == old(children).keys(),
{
    if children.updated {
        children.updated = false;
        true
    } else {
        false
    }
}

/// Closes the connection to peer `id`: the command pipes of all its
/// sessions are dropped, and so is every session process of that peer that
/// `killed` says was stopped; a process that could not be stopped stays
/// registered.
pub fn close_remote_connection(
    children: &mut Children,
    pipes: &mut ChildPipes,
    id: &str,
    killed: &Vec<(String, String)>,
)
    requires
        old(children).wf(),
        old(pipes).wf(),
    ensures
        final(children).wf(),
        final(pipes).wf(),
        final(children).is_updated() == old(children).is_updated(),
        key_set(final(pipes).keys()) == key_set(old(pipes).keys()).filter(
            |k: SessionKey| k.0 != id@,
        ),
        key_set(final(children).keys()) == key_set(old(children).keys()).filter(
            |k: SessionKey| !(k.0 == id@ && killed.deep_view().contains(k)),
        ),
{
    let none: Vec<(String, String)> = Vec::new();
    let ghost old_pipes = pipes.keys();
    pipes.sessions = retain_keys(&pipes.sessions, id, &none, true);
    assert(key_set(pipes.keys()) =~= key_set(old_pipes).filter(|k: SessionKey| k.0 != id@));
    let ghost old_keys = children.keys();
    children.sessions = retain_keys(&children.sessions, id, killed, false);
    assert(key_set(children.keys()) =~= key_set(old_keys).filter(
        |k: SessionKey| !(k.0 == id@ && killed.deep_view().contains(k)),
    ));
}

/// Closing peer `id` leaves every session of other peers as it was, and
/// forgets every session of `id` whose process was stopped.
pub proof fn law_close_spares_other_peers(
    before: Seq<SessionKey>,
    after: Seq<SessionKey>,
    id: Seq<char>,
    killed: Seq<SessionKey>,
)
    requires
        key_set(after) == key_set(before).filter(
            |k: SessionKey| !(k.0 == id && killed.contains(k)),
        ),
    ensures
        forall|k: SessionKey| k.0 != id ==> (after.contains(k) <==> before.contains(k)),
        forall|k: SessionKey| k.0 == id && #[trigger] killed.contains(k) ==> !after.contains(k),
{
    assert forall|k: SessionKey| k.0 != id implies (after.contains(k) <==> before.contains(k)) by {
        assert(key_set(after).contains(k) == after.contains(k));
        assert(key_set(before).contains(k) == before.contains(k));
    }
    assert forall|k: SessionKey| k.0 == id && #[trigger] killed.contains(k) implies !after.contains(
        k,
    ) by {
        assert(key_set(after).contains(k) == after.contains(k));
    }
}

/// A peer none of whose keys is listed has no keys to select.
proof fn lemma_no_keys_of_absent_peer(keys: Seq<SessionKey>, id: Seq<char>)
    requires
        forall|i: int| 0 <= i < keys.len() ==> (#[trigger] keys[i]).0 != id,
    ensures
        keys_of_peer(keys, id).len() == 0,
    decreases keys.len(),
{
    if keys.len() > 0 {
        let rest = keys.drop_last();
        assert forall|i: int| 0 <= i < rest.len() implies (#[trigger] rest[i]).0 != id by {
            assert(rest[i] == keys[i]);
        }
        lemma_no_keys_of_absent_peer(rest, id);
    }
}

/// Once its connection is closed, a peer receives no further commands:
/// none of its sessions keeps a command pipe, so `send_to_child` finds no
/// target for it.
pub proof fn law_closed_peer_gets_no_commands(
    before: Seq<SessionKey>,
    after: Seq<SessionKey>,
    id: Seq<char>,
)
    requires
        key_set(after) == key_set(before).filter(|k: SessionKey| k.0 != id),
    ensures
        keys_of_peer(after, id).len() == 0,
{
    assert forall|i: int| 0 <= i < after.len() implies (#[trigger] after[i]).0 != id by {
        assert(after.contains(after[i]));
        assert(key_set(after).contains(after[i]));
    }
    lemma_no_keys_of_absent_peer(after, id);
}

/// A command for a session process, as one line on its pipe.
pub fn child_command_line(msg: &str) -> (res: String)
    ensures
        res@ == msg@.push('\n'),
{
    let mut line = owned(msg);
    push_char(&mut line, '\n');
    line
}

/// The line to write for a command to peer `peer_id`, and the sessions of
/// that peer that receive it: every session of the peer that has a command
/// pipe, in registration order. `None` when the peer has no such session
/// (the command is then not delivered).
pub fn send_to_child(pipes: &ChildPipes, peer_id: &str, msg: &str) -> (res: Option<
    (String, Vec<(String, String)>),
>)
    ensures
        res is None <==> keys_of_peer(pipes.keys(), peer_id@).len() == 0,
        res matches Some((line, targets)) ==> line@ == msg@.push('\n') && targets.deep_view()
            == keys_of_peer(pipes.keys(), peer_id@),
{
    let targets = pipes.pipes_of_peer(peer_id);
    if targets.len() == 0 {
        None
    } else {
        Some((child_command_line(msg), targets))
    }
}

/// Number of `true` entries.
pub open spec fn count_true(s: Seq<bool>) -> nat
    decreases s.len(),
{
    if s.len() == 0 {
        0
    } else {
        count_true(s.drop_last()) + if s.last() {
            1nat
        } else {
            0nat
        }
    }
}

/// Every entry is `true`: then all of them are counted.
proof fn lemma_count_all_true(s: Seq<bool>)
    requires
        forall|i: int| 0 <= i < s.len() ==> #[trigger] s[i],
    ensures
        count_true(s) == s.len(),
    decreases s.len(),
{
    if s.len() > 0 {
        let rest = s.drop_last();
        assert forall|i: int| 0 <= i < rest.len() implies #[trigger] rest[i] by {
            assert(rest[i] == s[i]);
        }
        lemma_count_all_true(rest);
    }
}

/// How many session processes received the `dismiss` command. The command
/// goes to every registered session that has a command pipe, one write per
/// session, in `pipe_keys` order; `delivered` says for each whether its
/// write succeeded.
pub fn send_dismiss_to_all_children(pipes: &ChildPipes, delivered: &Vec<bool>) -> (res: usize)
    requires
        delivered.len() == pipes.keys().len(),
    ensures
        res == count_true(delivered@),
        res <= pipes.keys().len(),
        (forall|i: int| 0 <= i < delivered.len() ==> #[trigger] delivered[i]) ==> res
            == pipes.keys().len(),
{
    let n = delivered.len();
    let mut count: usize = 0;
    for i in 0..n
        invariant
            n == delivered.len(),
            count == count_true(delivered@.take(i as int)),
            count <= i,
    {
        assert(delivered@.take(i + 1).drop_last() =~= delivered@.take(i as int));
        if delivered[i] {
            count = count + 1;
        }
    }
    assert(delivered@.take(n as int) =~= delivered@);
    proof {
        if forall|i: int| 0 <= i < delivered.len() ==> #[trigger] delivered[i] {
            lemma_count_all_true(delivered@);
        }
    }
    count
}

/// Each registered session with whether its process still runs, given the
/// status of each process in `session_keys` order.
pub fn list_active_connections(children: &Children, status: &Vec<ChildStatus>) -> (res: Vec<
    (String, String, bool),
>)
    requires
        status.len() == children.keys().len(),
    ensures
        res.len() == children.keys().len(),
        forall|i: int|
            0 <= i < res.len() ==> {
                &&& (#[trigger] res[i]).0@ == children.keys()[i].0
                &&& res[i].1@ == children.keys()[i].1
                &&& res[i].2 == (status[i] == ChildStatus::Running)
            },
{
    let keys = children.session_keys();
    let n = keys.len();
    let mut res: Vec<(String, String, bool)> = Vec::new();
    for i in 0..n
        invariant
            n == keys.len(),
            keys.deep_view() == children.keys(),
            status.len() == n,
            res.len() == i,
            forall|j: int|
                0 <= j < i ==> {
                    &&& (#[trigger] res[j]).0@ == children.keys()[j].0
                    &&& res[j].1@ == children.keys()[j].1
                    &&& res[j].2 == (status[j] == ChildStatus::Running)
                },
    {
        let k = &keys[i];
        assert(keys.deep_view()[i as int] == (k.0@, k.1@));
        res.push((k.0.clone(), k.1.clone(), status[i] == ChildStatus::Running));
    }
    res
}

} // verus!
