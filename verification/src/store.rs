//! The configuration the session list is built from, the built-in local
//! terminals, and the lists the session dialog offers.

use vstd::prelude::*;
use crate::color::{Color, hex_color, no_color, parse_hex_color};
use crate::groups::{display_group, lookup_color, str_views, system_group_name, GroupColors};
use crate::rows::{
    build_session_rows, opt_strings, row_views, rows_input, session_rows, RowsInput, SessionRow,
};
use crate::session::{Session, SessionKind, SessionView, fresh_session, session_views};
use crate::text::{
    chars_eq, chars_of, concat_chars, split_all, split_all_of, string_of, trim, trim_chars, views,
};

verus! {

/// A WSL distribution the user configured as a local terminal.
pub struct WslProfile {
    pub id: String,
    pub name: String,
    pub distribution: String,
    pub directory: String,
}

pub struct WslProfileView {
    pub id: Seq<char>,
    pub name: Seq<char>,
    pub distribution: Seq<char>,
    pub directory: Seq<char>,
}

impl View for WslProfile {
    type V = WslProfileView;

    open spec fn view(&self) -> WslProfileView {
        WslProfileView {
            id: self.id@,
            name: self.name@,
            distribution: self.distribution@,
            directory: self.directory@,
        }
    }
}

pub open spec fn profile_views(v: Seq<WslProfile>) -> Seq<WslProfileView> {
    v.map_values(|p: WslProfile| p@)
}

impl WslProfile {
    pub fn duplicate(&self) -> (r: WslProfile)
        ensures
            r@ == self@,
    {
        WslProfile {
            id: self.id.clone(),
            name: self.name.clone(),
            distribution: self.distribution.clone(),
            directory: self.directory.clone(),
        }
    }
}

/// What the local machine contributes to the built-in terminals: the
/// platform, whether `wsl.exe --status` succeeds, the `SHELL` variable and
/// the user name (`USERNAME`, else `USER`, else empty).
pub struct LocalEnv {
    pub windows: bool,
    pub wsl_available: bool,
    pub shell: Option<String>,
    pub user: String,
}

/// The saved configuration.
pub struct ConfigStore {
    pub sessions: Vec<Session>,
    pub groups: Vec<String>,
    pub collapsed_session_groups: Option<Vec<String>>,
    pub group_colors: GroupColors,
    pub wsl_profiles: Vec<WslProfile>,
    pub system_group_hidden: bool,
}

// ---------------------------------------------------------------------------
// Built-in local terminals
// ---------------------------------------------------------------------------

/// A built-in local terminal.
pub open spec fn local_session(id: Seq<char>, name: Seq<char>, host: Seq<char>, user: Seq<char>) -> SessionView {
    SessionView {
        id,
        name,
        host,
        user,
        group: system_group_name(),
        kind: SessionKind::Local,
        ..fresh_session(id)
    }
}

/// Builds a built-in local terminal.
pub fn builtin_local_session(id: &str, name: String, host: &str, user: &str) -> (s: Session)
    ensures
        s@ == local_session(id@, name@, host@, user@),
{
    let mut s = Session::new_empty();
    s.id = string_of(chars_of(id).as_slice());
    s.name = name;
    s.host = string_of(chars_of(host).as_slice());
    s.user = string_of(chars_of(user).as_slice());
    s.group = string_of(crate::groups::system_group_chars().as_slice());
    s.kind = SessionKind::Local;
    assert(s@ =~= local_session(id@, name@, host@, user@));
    s
}

/// The components of a Unix path that name something: the pieces between
/// `/`s, without empty ones and `.`.
pub open spec fn named_components(p: Seq<char>) -> Seq<Seq<char>> {
    split_all(p, '/').filter(|c: Seq<char>| c.len() > 0 && c != seq!['.'])
}

/// `Path::file_name` on Unix: the last component, unless the path ends in
/// `..` or has none (`/`, empty).
pub open spec fn unix_file_name(p: Seq<char>) -> Option<Seq<char>> {
    let c = named_components(p);
    if c.len() == 0 || c.last() == seq!['.', '.'] {
        None
    } else {
        Some(c.last())
    }
}

fn unix_file_name_exec(p: &[char]) -> (r: Option<Vec<char>>)
    ensures
        match unix_file_name(p@) {
            Some(x) => r is Some && r.unwrap()@ == x,
            None => r is None,
        },
{
    let ghost pred = |c: Seq<char>| c.len() > 0 && c != seq!['.'];
    let pieces = split_all_of(p, '/');
    let n = pieces.len();
    let mut last: Option<usize> = None;
    let mut i: usize = 0;
    let ghost all = views(pieces@);
    assert(all.take(0).filter(pred) =~= Seq::<Seq<char>>::empty()) by {
        reveal(Seq::filter);
    }
    while i < n
        invariant
            n == pieces@.len(),
            i <= n,
            all == views(pieces@),
            all == split_all(p@, '/'),
            pred == (|c: Seq<char>| c.len() > 0 && c != seq!['.']),
            match last {
                Some(k) => k < i && all.take(i as int).filter(pred).len() > 0 && all.take(i as int).filter(pred).last() == all[k as int],
                None => all.take(i as int).filter(pred).len() == 0,
            },
        decreases n - i,
    {
        assert(all.take(i + 1).drop_last() =~= all.take(i as int));
        assert(all.take(i + 1).last() == pieces@[i as int]@);
        assert(all.take(i + 1).filter(pred) == if pred(pieces@[i as int]@) {
            all.take(i as int).filter(pred).push(pieces@[i as int]@)
        } else {
            all.take(i as int).filter(pred)
        }) by {
            reveal(Seq::filter);
        }
        let c = &pieces[i];
        let dot = vec!['.'];
        assert(dot@ =~= seq!['.']);
        if c.len() > 0 && !chars_eq(c.as_slice(), dot.as_slice()) {
            last = Some(i);
        }
        i += 1;
    }
    assert(all.take(n as int) =~= all);
    match last {
        None => None,
        Some(k) => {
            let dd = vec!['.', '.'];
            assert(dd@ =~= seq!['.', '.']);
            if chars_eq(pieces[k].as_slice(), dd.as_slice()) {
                None
            } else {
                let r = concat_chars(pieces[k].as_slice(), Vec::<char>::new().as_slice());
                assert(r@ =~= pieces@[k as int]@);
                Some(r)
            }
        },
    }
}

/// The id of the WSL terminal of a profile: `system:wsl:<profile id>`.
pub open spec fn wsl_profile_id(p: Seq<char>) -> Seq<char> {
    seq!['s', 'y', 's', 't', 'e', 'm', ':', 'w', 's', 'l', ':'] + p
}

pub open spec fn wsl_profile_session(p: WslProfileView, user: Seq<char>) -> SessionView {
    SessionView {
        local_distribution: p.distribution,
        local_working_dir: if trim(p.directory).len() == 0 {
            seq!['~']
        } else {
            p.directory
        },
        ..local_session(wsl_profile_id(p.id), p.name, seq!['w', 's', 'l'], user)
    }
}

/// The built-in local terminals: on Windows PowerShell and CMD, then WSL
/// (one terminal per configured profile, or a plain `~` one) when WSL is
/// installed; elsewhere the user's shell, named after the last component of
/// `$SHELL` (`/bin/sh` when unset, `Shell` when it has no name).
pub open spec fn builtin_sessions_of(profiles: Seq<WslProfileView>, env: LocalEnv) -> Seq<SessionView> {
    let user = env.user@;
    if env.windows {
        seq![
            local_session(seq!['s', 'y', 's', 't', 'e', 'm', ':', 'p', 'o', 'w', 'e', 'r', 's', 'h', 'e', 'l', 'l'], seq!['P', 'o', 'w', 'e', 'r', 'S', 'h', 'e', 'l', 'l'], seq!['p', 'o', 'w', 'e', 'r', 's', 'h', 'e', 'l', 'l'], user),
            local_session(seq!['s', 'y', 's', 't', 'e', 'm', ':', 'c', 'm', 'd'], seq!['C', 'M', 'D'], seq!['c', 'm', 'd'], user),
        ] + if env.wsl_available {
            if profiles.len() == 0 {
                seq![SessionView {
                    local_working_dir: seq!['~'],
                    ..local_session(seq!['s', 'y', 's', 't', 'e', 'm', ':', 'w', 's', 'l'], seq!['W', 'S', 'L'], seq!['w', 's', 'l'], user)
                }]
            } else {
                profiles.map_values(|p: WslProfileView| wsl_profile_session(p, user))
            }
        } else {
            seq![]
        }
    } else {
        let shell = match env.shell {
            Some(s) => s@,
            None => seq!['/', 'b', 'i', 'n', '/', 's', 'h'],
        };
        let name = match unix_file_name(shell) {
            Some(n) => n,
            None => seq!['S', 'h', 'e', 'l', 'l'],
        };
        seq![local_session(seq!['s', 'y', 's', 't', 'e', 'm', ':', 's', 'h', 'e', 'l', 'l'], name, seq!['s', 'h', 'e', 'l', 'l'], user)]
    }
}


fn lit(v: Vec<char>) -> (s: String)
    ensures
        s@ == v@,
{
    string_of(v.as_slice())
}

/// The built-in local terminals (see [`builtin_sessions_of`]).
pub fn builtin_local_sessions(wsl_profiles: &[WslProfile], env: &LocalEnv) -> (out: Vec<Session>)
    ensures
        session_views(out@) == builtin_sessions_of(profile_views(wsl_profiles@), *env),
{
    let mut out: Vec<Session> = Vec::new();
    let user = env.user.as_str();
    if env.windows {
        let ps_id = vec!['s', 'y', 's', 't', 'e', 'm', ':', 'p', 'o', 'w', 'e', 'r', 's', 'h', 'e', 'l', 'l'];
        let ps_name = vec!['P', 'o', 'w', 'e', 'r', 'S', 'h', 'e', 'l', 'l'];
        let ps_host = vec!['p', 'o', 'w', 'e', 'r', 's', 'h', 'e', 'l', 'l'];
        assert(ps_id@ =~= seq!['s', 'y', 's', 't', 'e', 'm', ':', 'p', 'o', 'w', 'e', 'r', 's', 'h', 'e', 'l', 'l']);
        assert(ps_name@ =~= seq!['P', 'o', 'w', 'e', 'r', 'S', 'h', 'e', 'l', 'l']);
        assert(ps_host@ =~= seq!['p', 'o', 'w', 'e', 'r', 's', 'h', 'e', 'l', 'l']);
        let a = builtin_local_session(lit(ps_id).as_str(), lit(ps_name), lit(ps_host).as_str(), user);
        let cmd_id = vec!['s', 'y', 's', 't', 'e', 'm', ':', 'c', 'm', 'd'];
        let cmd_name = vec!['C', 'M', 'D'];
        let cmd_host = vec!['c', 'm', 'd'];
        assert(cmd_id@ =~= seq!['s', 'y', 's', 't', 'e', 'm', ':', 'c', 'm', 'd']);
        assert(cmd_name@ =~= seq!['C', 'M', 'D']);
        assert(cmd_host@ =~= seq!['c', 'm', 'd']);
        let b = builtin_local_session(lit(cmd_id).as_str(), lit(cmd_name), lit(cmd_host).as_str(), user);
        proof {
            crate::rows::lemma_session_views_push(out@, a);
        }
        out.push(a);
        proof {
            crate::rows::lemma_session_views_push(out@, b);
        }
        out.push(b);
        assert(session_views(out@) =~= seq![
            local_session(seq!['s', 'y', 's', 't', 'e', 'm', ':', 'p', 'o', 'w', 'e', 'r', 's', 'h', 'e', 'l', 'l'], seq!['P', 'o', 'w', 'e', 'r', 'S', 'h', 'e', 'l', 'l'], seq!['p', 'o', 'w', 'e', 'r', 's', 'h', 'e', 'l', 'l'], env.user@),
            local_session(seq!['s', 'y', 's', 't', 'e', 'm', ':', 'c', 'm', 'd'], seq!['C', 'M', 'D'], seq!['c', 'm', 'd'], env.user@),
        ]);
        let ghost head = session_views(out@);
        if env.wsl_available {
            if wsl_profiles.len() == 0 {
                let wsl_id = vec!['s', 'y', 's', 't', 'e', 'm', ':', 'w', 's', 'l'];
                let wsl_name = vec!['W', 'S', 'L'];
                let wsl_host = vec!['w', 's', 'l'];
                assert(wsl_id@ =~= seq!['s', 'y', 's', 't', 'e', 'm', ':', 'w', 's', 'l']);
                assert(wsl_name@ =~= seq!['W', 'S', 'L']);
                assert(wsl_host@ =~= seq!['w', 's', 'l']);
                let mut w = builtin_local_session(lit(wsl_id).as_str(), lit(wsl_name), lit(wsl_host).as_str(), user);
                let tilde = vec!['~'];
                assert(tilde@ =~= seq!['~']);
                w.local_working_dir = lit(tilde);
                proof {
                    crate::rows::lemma_session_views_push(out@, w);
                }
                out.push(w);
            } else {
                let n = wsl_profiles.len();
                let mut i: usize = 0;
                while i < n
                    invariant
                        n == wsl_profiles@.len(),
                        i <= n,
                        user@ == env.user@,
                        session_views(out@) == head + profile_views(wsl_profiles@).take(i as int).map_values(
                            |p: WslProfileView| wsl_profile_session(p, env.user@),
                        ),
                    decreases n - i,
                {
                    let p = &wsl_profiles[i];
                    let prefix = vec!['s', 'y', 's', 't', 'e', 'm', ':', 'w', 's', 'l', ':'];
                    assert(prefix@ =~= seq!['s', 'y', 's', 't', 'e', 'm', ':', 'w', 's', 'l', ':']);
                    let pid = chars_of(p.id.as_str());
                    let id = concat_chars(prefix.as_slice(), pid.as_slice());
                    assert(id@ == wsl_profile_id(p.id@));
                    let host_v = vec!['w', 's', 'l'];
                    assert(host_v@ =~= seq!['w', 's', 'l']);
                    let id_s = string_of(id.as_slice());
                    let host_s = lit(host_v);
                    let mut w = builtin_local_session(id_s.as_str(), p.name.clone(), host_s.as_str(), user);
                    assert(w@ == local_session(wsl_profile_id(p.id@), p.name@, seq!['w', 's', 'l'], env.user@));
                    w.local_distribution = p.distribution.clone();
                    let dir = chars_of(p.directory.as_str());
                    let dt = trim_chars(dir.as_slice());
                    let tilde = vec!['~'];
                    assert(tilde@ =~= seq!['~']);
                    w.local_working_dir = if dt.len() == 0 {
                        lit(tilde)
                    } else {
                        p.directory.clone()
                    };
                    assert(w@ =~= wsl_profile_session(p@, env.user@));
                    proof {
                        crate::rows::lemma_session_views_push(out@, w);
                    }
                    out.push(w);
                    assert(profile_views(wsl_profiles@).take(i + 1) =~= profile_views(wsl_profiles@).take(i as int).push(p@));
                    assert(head + profile_views(wsl_profiles@).take(i + 1).map_values(
                        |p: WslProfileView| wsl_profile_session(p, env.user@),
                    ) =~= (head + profile_views(wsl_profiles@).take(i as int).map_values(
                        |p: WslProfileView| wsl_profile_session(p, env.user@),
                    )).push(wsl_profile_session(p@, env.user@)));
                    i += 1;
                }
                assert(profile_views(wsl_profiles@).take(n as int) =~= profile_views(wsl_profiles@));
            }
        }
        assert(session_views(out@) =~= builtin_sessions_of(profile_views(wsl_profiles@), *env));
    } else {
        let shell: Vec<char> = match &env.shell {
            Some(s) => chars_of(s.as_str()),
            None => vec!['/', 'b', 'i', 'n', '/', 's', 'h'],
        };
        let name: Vec<char> = match unix_file_name_exec(shell.as_slice()) {
            Some(n) => n,
            None => vec!['S', 'h', 'e', 'l', 'l'],
        };
        let id = vec!['s', 'y', 's', 't', 'e', 'm', ':', 's', 'h', 'e', 'l', 'l'];
        let host = vec!['s', 'h', 'e', 'l', 'l'];
        let sh = builtin_local_session(lit(id).as_str(), string_of(name.as_slice()), lit(host).as_str(), user);
        proof {
            crate::rows::lemma_session_views_push(out@, sh);
        }
        out.push(sh);
        assert(session_views(out@) =~= builtin_sessions_of(profile_views(wsl_profiles@), *env));
    }
    out
}

// ---------------------------------------------------------------------------
// The session list of the welcome page
// ---------------------------------------------------------------------------

/// What the session list is computed from, for a configuration.
pub open spec fn store_rows_input(store: &ConfigStore, env: &LocalEnv, query: Seq<char>) -> RowsInput {
    RowsInput {
        sessions: session_views(store.sessions@),
        groups: str_views(store.groups@),
        collapsed: match store.collapsed_session_groups {
            Some(c) => Some(str_views(c@)),
            None => None,
        },
        colors: store.group_colors@,
        builtins: builtin_sessions_of(profile_views(store.wsl_profiles@), *env),
        query,
        hide_system: store.system_group_hidden,
    }
}

fn collapsed_slice(c: &Option<Vec<String>>) -> (r: Option<&[String]>)
    ensures
        opt_strings(r) == match c {
            Some(v) => Some(v@),
            None => None::<Seq<String>>,
        },
{
    match c {
        Some(v) => Some(v.as_slice()),
        None => None,
    }
}

fn store_session_rows(store: &ConfigStore, query: &str, env: &LocalEnv) -> (rows: Vec<SessionRow>)
    ensures
        row_views(rows@) == session_rows(store_rows_input(store, env, query@)),
{
    let builtins = builtin_local_sessions(store.wsl_profiles.as_slice(), env);
    let collapsed = collapsed_slice(&store.collapsed_session_groups);
    assert(rows_input(
        store.sessions@,
        store.groups@,
        opt_strings(collapsed),
        store.group_colors@,
        builtins@,
        query@,
        store.system_group_hidden,
    ) == store_rows_input(store, env, query@));
    build_session_rows(
        store.sessions.as_slice(),
        store.groups.as_slice(),
        collapsed,
        &store.group_colors,
        builtins.as_slice(),
        query,
        store.system_group_hidden,
    )
}

/// Replaces the rows of the session list with those of the configuration,
/// filtered by `query` (see [`session_rows`]).
pub fn sync_sessions_to_model_with_filter(
    store: &ConfigStore,
    model: &mut Vec<SessionRow>,
    query: &str,
    env: &LocalEnv,
)
    ensures
        row_views(final(model)@) == session_rows(store_rows_input(store, env, query@)),
{
    *model = store_session_rows(store, query, env);
}

/// The same rows as [`sync_sessions_to_model_with_filter`]; when their number
/// is unchanged they are written over the old ones one by one, and the
/// result says so (`false`: the list was rebuilt with another length).
pub fn refresh_session_rows_in_place(
    store: &ConfigStore,
    model: &mut Vec<SessionRow>,
    query: &str,
    env: &LocalEnv,
) -> (kept: bool)
    ensures
        row_views(final(model)@) == session_rows(store_rows_input(store, env, query@)),
        kept == (final(model)@.len() == old(model)@.len()),
{
    let mut rows = store_session_rows(store, query, env);
    let n = rows.len();
    if n == model.len() {
        let ghost target = rows@;
        let mut i: usize = n;
        while i > 0
            invariant
                i <= n,
                n == model@.len(),
                n == target.len(),
                rows@ == target.take(i as int),
                forall|k: int| i <= k < n ==> model@[k] == target[k],
            decreases i,
        {
            let row = rows.pop().unwrap();
            model.set(i - 1, row);
            i -= 1;
        }
        assert(model@ =~= target);
        true
    } else {
        *model = rows;
        false
    }
}

/// The full session list, without a filter.
pub fn sync_sessions_to_model(store: &ConfigStore, model: &mut Vec<SessionRow>, env: &LocalEnv)
    ensures
        row_views(final(model)@) == session_rows(store_rows_input(store, env, seq![])),
{
    let empty = String::new();
    sync_sessions_to_model_with_filter(store, model, empty.as_str(), env);
}

// ---------------------------------------------------------------------------
// The colour bar under a terminal tab
// ---------------------------------------------------------------------------

/// The group a tab's session belongs to on the list: `system` for a
/// built-in terminal, else its display group.
pub open spec fn tab_group_of(builtins: Seq<SessionView>, s: SessionView) -> Seq<char> {
    if exists|i: int| 0 <= i < builtins.len() && #[trigger] builtins[i].id == s.id {
        system_group_name()
    } else {
        display_group(s.group)
    }
}

/// The colour of a tab's bar and its hex text: the colour of the stored
/// text of the group and that text trimmed, when it is a colour; else no
/// colour and `""` (no bar).
pub open spec fn tab_color(colors: Seq<(Seq<char>, Seq<char>)>, g: Seq<char>) -> (Color, Seq<char>) {
    match lookup_color(colors, g) {
        Some(h) => match hex_color(h) {
            Some(c) => (c, trim(h)),
            None => (no_color(), seq![]),
        },
        None => (no_color(), seq![]),
    }
}

fn is_builtin_id(builtins: &[Session], id: &str) -> (r: bool)
    ensures
        r == exists|i: int| 0 <= i < builtins@.len() && #[trigger] session_views(builtins@)[i].id == id@,
{
    let n = builtins.len();
    let idc = chars_of(id);
    let mut i: usize = 0;
    while i < n
        invariant
            n == builtins@.len(),
            i <= n,
            idc@ == id@,
            forall|k: int| 0 <= k < i ==> #[trigger] session_views(builtins@)[k].id != id@,
        decreases n - i,
    {
        let b = chars_of(builtins[i].id.as_str());
        assert(session_views(builtins@)[i as int] == builtins@[i as int]@);
        if chars_eq(b.as_slice(), idc.as_slice()) {
            assert(session_views(builtins@)[i as int].id == id@);
            return true;
        }
        i += 1;
    }
    false
}

fn tab_group_exec(store: &ConfigStore, session: &Session, env: &LocalEnv) -> (g: String)
    ensures
        g@ == tab_group_of(builtin_sessions_of(profile_views(store.wsl_profiles@), *env), session@),
{
    let builtins = builtin_local_sessions(store.wsl_profiles.as_slice(), env);
    if is_builtin_id(builtins.as_slice(), session.id.as_str()) {
        string_of(crate::groups::system_group_chars().as_slice())
    } else {
        crate::groups::display_group_of(session)
    }
}

/// The colour bar under the tab of `session`: the colour of the group it is
/// listed under, from the same table as the session list (see [`tab_color`]).
pub fn tab_group_color(store: &ConfigStore, session: &Session, env: &LocalEnv) -> (r: (Color, String))
    ensures
        (r.0, r.1@) == tab_color(
            store.group_colors@,
            tab_group_of(builtin_sessions_of(profile_views(store.wsl_profiles@), *env), session@),
        ),
{
    let g = tab_group_exec(store, session, env);
    let gc = chars_of(g.as_str());
    match store.group_colors.get(gc.as_slice()) {
        Some(h) => match parse_hex_color(h.as_str()) {
            Some(c) => {
                let hc = chars_of(h.as_str());
                let t = trim_chars(hc.as_slice());
                (c, string_of(t.as_slice()))
            },
            None => (Color::default(), String::new()),
        },
        None => (Color::default(), String::new()),
    }
}

// ---------------------------------------------------------------------------
// Laws
// ---------------------------------------------------------------------------

proof fn lemma_colour_text_not_blank(h: Seq<char>)
    requires
        hex_color(h) is Some,
    ensures
        h.len() > 0,
        trim(h).len() > 0,
{
    if trim(h).len() == 0 {
        assert(trim(h) =~= Seq::<char>::empty());
        assert(crate::color::hex_body(h) == Seq::<char>::empty());
    }
    if h.len() == 0 {
        assert(h =~= Seq::<char>::empty());
        assert(crate::text::trim_start(h) == h);
        assert(trim(h) == h);
    }
}

/// A tab takes its colour from the same table and group as the session
/// list: a built-in terminal's tab uses the `system` group, any other tab
/// the display group of its session; the tab's bar has the colour of the
/// rows of that group, and is drawn exactly when they carry a colour text;
/// where the stored text is already trimmed, the tab's text is theirs.
pub proof fn law_tab_colour_matches_list(
    colors: Seq<(Seq<char>, Seq<char>)>,
    builtins: Seq<SessionView>,
    s: SessionView,
)
    ensures
        (exists|i: int| 0 <= i < builtins.len() && builtins[i].id == s.id) ==> tab_group_of(builtins, s)
            == system_group_name(),
        (forall|i: int| 0 <= i < builtins.len() ==> #[trigger] builtins[i].id != s.id) ==> tab_group_of(
            builtins,
            s,
        ) == display_group(s.group),
        ({
            let g = tab_group_of(builtins, s);
            let tab = tab_color(colors, g);
            let row = crate::groups::row_group_color(colors, g);
            &&& tab.0 == row.0
            &&& (tab.1.len() == 0) == (row.1.len() == 0)
            &&& (match lookup_color(colors, g) {
                Some(h) => trim(h) == h,
                None => true,
            }) ==> tab == row
        }),
{
    let g = tab_group_of(builtins, s);
    assert(g.len() > 0) by {
        if tab_group_of(builtins, s) == system_group_name() {
        } else if crate::groups::in_default_group(s.group) {
        } else {
            assert(s.group.len() > 0);
        }
    }
    match lookup_color(colors, g) {
        Some(h) => {
            if hex_color(h) is Some {
                lemma_colour_text_not_blank(h);
            }
        },
        None => {},
    }
}

} // verus!
