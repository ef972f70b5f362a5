//! The session list shown on the welcome page: one row per session, grouped
//! under folder headers, filtered by a search query.

use vstd::prelude::*;
use crate::color::Color;
use crate::groups::{
    default_group_name, display_group, system_group_name, in_default_group, dedup, str_views,
    group_fields, named_groups, row_group_color, GroupColors,
};
use crate::session::{Session, SessionView, session_views, kind_name};
use crate::text::{chars_of, contains, contains_chars, lowercase, to_lowercase, trim, trim_chars, string_of};

verus! {

/// The search text in the form it is matched with: trimmed, lowercase.
pub open spec fn normalized_query_of(query: Seq<char>) -> Seq<char> {
    lowercase(trim(query))
}

/// A session matches a normalized query when the query is empty or occurs in
/// the lowercase name or the lowercase host.
pub open spec fn session_matches(s: SessionView, q: Seq<char>) -> bool {
    q.len() == 0 || contains(lowercase(s.name), q) || contains(lowercase(s.host), q)
}

/// `query.trim().to_lowercase()`.
pub fn normalized_query(query: &str) -> (r: String)
    ensures
        r@ == normalized_query_of(query@),
        trim(query@).len() == 0 ==> r@.len() == 0,
        crate::text::is_ascii_seq(trim(query@)) ==> r@ == trim(query@).map_values(
            |c: char| crate::text::ascii_lower(c),
        ),
{
    let c = chars_of(query);
    let t = trim_chars(c.as_slice());
    let ts = string_of(t.as_slice());
    to_lowercase(ts.as_str())
}

/// Whether `session` matches an already normalized query.
pub fn session_matches_normalized_query(session: &Session, query: &str) -> (r: bool)
    ensures
        r == session_matches(session@, query@),
{
    let q = chars_of(query);
    if q.len() == 0 {
        return true;
    }
    let name = to_lowercase(session.name.as_str());
    let name_c = chars_of(name.as_str());
    if contains_chars(name_c.as_slice(), q.as_slice()) {
        return true;
    }
    let host = to_lowercase(session.host.as_str());
    let host_c = chars_of(host.as_str());
    contains_chars(host_c.as_slice(), q.as_slice())
}

/// Whether `session` matches a search query as the user typed it: the
/// query is trimmed and compared without regard to case.
pub fn session_matches_query(session: &Session, query: &str) -> (r: bool)
    ensures
        r == session_matches(session@, normalized_query_of(query@)),
        trim(query@).len() == 0 ==> r,
        crate::text::is_ascii_seq(trim(query@)) ==> r == session_matches(
            session@,
            trim(query@).map_values(|c: char| crate::text::ascii_lower(c)),
        ),
{
    let q = normalized_query(query);
    session_matches_normalized_query(session, q.as_str())
}


// ---------------------------------------------------------------------------
// Rows
// ---------------------------------------------------------------------------

/// One line of the session list: a session, or the placeholder of an empty
/// folder (empty `id`). The first row of every group carries the group name
/// in `group_header`; every row carries its index in the group and the size
/// of the group.
pub struct SessionRow {
    pub id: String,
    pub name: String,
    pub kind: String,
    pub host: String,
    pub port: i32,
    pub user: String,
    pub group: String,
    pub group_header: String,
    pub collapsed: bool,
    pub builtin: bool,
    pub conn_state: i32,
    pub note: String,
    pub group_index: i32,
    pub group_size: i32,
    pub group_color: Color,
    pub group_color_hex: String,
}

pub struct RowView {
    pub id: Seq<char>,
    pub name: Seq<char>,
    pub kind: Seq<char>,
    pub host: Seq<char>,
    pub port: i32,
    pub user: Seq<char>,
    pub group: Seq<char>,
    pub group_header: Seq<char>,
    pub collapsed: bool,
    pub builtin: bool,
    pub conn_state: i32,
    pub note: Seq<char>,
    pub group_index: i32,
    pub group_size: i32,
    pub group_color: Color,
    pub group_color_hex: Seq<char>,
}

impl View for SessionRow {
    type V = RowView;

    open spec fn view(&self) -> RowView {
        RowView {
            id: self.id@,
            name: self.name@,
            kind: self.kind@,
            host: self.host@,
            port: self.port,
            user: self.user@,
            group: self.group@,
            group_header: self.group_header@,
            collapsed: self.collapsed,
            builtin: self.builtin,
            conn_state: self.conn_state,
            note: self.note@,
            group_index: self.group_index,
            group_size: self.group_size,
            group_color: self.group_color,
            group_color_hex: self.group_color_hex@,
        }
    }
}

pub open spec fn row_views(v: Seq<SessionRow>) -> Seq<RowView> {
    v.map_values(|r: SessionRow| r@)
}

/// Sessions outside the `system` group.
pub open spec fn outside_system(s: Seq<SessionView>) -> Seq<SessionView>
    decreases s.len(),
{
    if s.len() == 0 {
        s
    } else if s.last().group != system_group_name() {
        outside_system(s.drop_last()).push(s.last())
    } else {
        outside_system(s.drop_last())
    }
}

/// Group names other than `system`.
pub open spec fn names_outside_system(g: Seq<Seq<char>>) -> Seq<Seq<char>>
    decreases g.len(),
{
    if g.len() == 0 {
        g
    } else if g.last() != system_group_name() {
        names_outside_system(g.drop_last()).push(g.last())
    } else {
        names_outside_system(g.drop_last())
    }
}

/// The sessions that match `q`.
pub open spec fn matching(s: Seq<SessionView>, q: Seq<char>) -> Seq<SessionView>
    decreases s.len(),
{
    if s.len() == 0 {
        s
    } else if session_matches(s.last(), q) {
        matching(s.drop_last(), q).push(s.last())
    } else {
        matching(s.drop_last(), q)
    }
}

/// The members of group `g` that match `q`; the members of "default" are
/// the sessions without a named group.
pub open spec fn members_of(s: Seq<SessionView>, g: Seq<char>, q: Seq<char>) -> Seq<SessionView>
    decreases s.len(),
{
    if s.len() == 0 {
        s
    } else if session_matches(s.last(), q) && (if g == default_group_name() {
        in_default_group(s.last().group)
    } else {
        s.last().group == g
    }) {
        members_of(s.drop_last(), g, q).push(s.last())
    } else {
        members_of(s.drop_last(), g, q)
    }
}

/// The named groups of the sessions that match `q`, in session order.
pub open spec fn matched_named_groups(s: Seq<SessionView>, q: Seq<char>) -> Seq<Seq<char>>
    decreases s.len(),
{
    if s.len() == 0 {
        seq![]
    } else if session_matches(s.last(), q) && !in_default_group(s.last().group) {
        matched_named_groups(s.drop_last(), q).push(s.last().group)
    } else {
        matched_named_groups(s.drop_last(), q)
    }
}

/// Everything the session list is computed from.
pub struct RowsInput {
    pub sessions: Seq<SessionView>,
    pub groups: Seq<Seq<char>>,
    pub collapsed: Option<Seq<Seq<char>>>,
    pub colors: Seq<(Seq<char>, Seq<char>)>,
    pub builtins: Seq<SessionView>,
    pub query: Seq<char>,
    pub hide_system: bool,
}

impl RowsInput {
    pub open spec fn q(self) -> Seq<char> {
        normalized_query_of(self.query)
    }

    pub open spec fn searching(self) -> bool {
        self.q().len() > 0
    }

    /// Saved sessions on the list: all of them, or, with the system group
    /// hidden, those outside it.
    pub open spec fn visible_sessions(self) -> Seq<SessionView> {
        if self.hide_system {
            outside_system(self.sessions)
        } else {
            self.sessions
        }
    }

    pub open spec fn visible_groups(self) -> Seq<Seq<char>> {
        if self.hide_system {
            names_outside_system(self.groups)
        } else {
            self.groups
        }
    }

    pub open spec fn visible_builtins(self) -> Seq<SessionView> {
        if self.hide_system {
            seq![]
        } else {
            self.builtins
        }
    }

    /// A group's rows are collapsed when not searching and the group is in
    /// the collapsed list (all groups when there is no list).
    pub open spec fn is_collapsed(self, g: Seq<char>) -> bool {
        !self.searching() && match self.collapsed {
            Some(c) => c.contains(g),
            None => true,
        }
    }

    pub open spec fn matched_builtins(self) -> Seq<SessionView> {
        matching(self.visible_builtins(), self.q())
    }

    pub open spec fn members(self, g: Seq<char>) -> Seq<SessionView> {
        members_of(self.visible_sessions(), g, self.q())
    }

    /// "default" is listed when some ungrouped session matches.
    pub open spec fn has_default(self) -> bool {
        self.members(default_group_name()).len() > 0
    }

    /// Named groups in stored order; while searching, only those with a
    /// matching session.
    pub open spec fn named(self) -> Seq<Seq<char>> {
        dedup(
            if self.searching() {
                matched_named_groups(self.visible_sessions(), self.q())
            } else {
                named_groups(self.visible_groups(), self.visible_sessions())
            },
        )
    }

    pub open spec fn display_groups(self) -> Seq<Seq<char>> {
        (if self.has_default() {
            seq![default_group_name()]
        } else {
            seq![]
        }) + self.named()
    }

    pub open spec fn color(self, g: Seq<char>) -> (Color, Seq<char>) {
        row_group_color(self.colors, g)
    }
}

pub open spec fn builtin_row(inp: RowsInput, s: SessionView, i: int, n: int) -> RowView {
    RowView {
        id: s.id,
        name: s.name,
        kind: kind_name(s.kind),
        host: s.host,
        port: 0,
        user: s.user,
        group: system_group_name(),
        group_header: if i == 0 { system_group_name() } else { seq![] },
        collapsed: inp.is_collapsed(system_group_name()),
        builtin: true,
        conn_state: 0,
        note: seq![],
        group_index: i as i32,
        group_size: n as i32,
        group_color: inp.color(system_group_name()).0,
        group_color_hex: inp.color(system_group_name()).1,
    }
}

pub open spec fn member_row(inp: RowsInput, s: SessionView, g: Seq<char>, i: int, n: int) -> RowView {
    RowView {
        id: s.id,
        name: s.name,
        kind: kind_name(s.kind),
        host: s.host,
        port: s.port as i32,
        user: s.user,
        group: g,
        group_header: if i == 0 { g } else { seq![] },
        collapsed: inp.is_collapsed(g),
        builtin: false,
        conn_state: 0,
        note: s.note,
        group_index: i as i32,
        group_size: n as i32,
        group_color: inp.color(g).0,
        group_color_hex: inp.color(g).1,
    }
}

/// The placeholder row of an empty folder.
pub open spec fn blank_row(inp: RowsInput, g: Seq<char>) -> RowView {
    RowView {
        id: seq![],
        name: seq![],
        kind: seq![],
        host: seq![],
        port: 0,
        user: seq![],
        group: g,
        group_header: g,
        collapsed: inp.is_collapsed(g),
        builtin: false,
        conn_state: 0,
        note: seq![],
        group_index: 0,
        group_size: 0,
        group_color: inp.color(g).0,
        group_color_hex: inp.color(g).1,
    }
}

/// The rows of one group: its matching members, or the placeholder of an
/// empty named folder when not searching.
pub open spec fn group_rows(inp: RowsInput, g: Seq<char>) -> Seq<RowView> {
    let gs = inp.members(g);
    if gs.len() == 0 && !inp.searching() && g != default_group_name() {
        seq![blank_row(inp, g)]
    } else {
        Seq::new(gs.len(), |i: int| member_row(inp, gs[i], g, i, gs.len() as int))
    }
}

pub open spec fn rows_of_groups(inp: RowsInput, ds: Seq<Seq<char>>) -> Seq<RowView>
    decreases ds.len(),
{
    if ds.len() == 0 {
        seq![]
    } else {
        rows_of_groups(inp, ds.drop_last()) + group_rows(inp, ds.last())
    }
}

pub open spec fn builtin_rows(inp: RowsInput) -> Seq<RowView> {
    let bm = inp.matched_builtins();
    Seq::new(bm.len(), |i: int| builtin_row(inp, bm[i], i, bm.len() as int))
}

/// The whole list: the matching built-in terminals under `system`, then the
/// rows of every display group in order.
pub open spec fn session_rows(inp: RowsInput) -> Seq<RowView> {
    builtin_rows(inp) + rows_of_groups(inp, inp.display_groups())
}

pub open spec fn rows_input(
    sessions: Seq<Session>,
    groups: Seq<String>,
    collapsed: Option<Seq<String>>,
    colors: Seq<(Seq<char>, Seq<char>)>,
    builtins: Seq<Session>,
    query: Seq<char>,
    hide_system: bool,
) -> RowsInput {
    RowsInput {
        sessions: session_views(sessions),
        groups: str_views(groups),
        collapsed: match collapsed {
            Some(c) => Some(str_views(c)),
            None => None,
        },
        colors,
        builtins: session_views(builtins),
        query,
        hide_system,
    }
}


pub proof fn lemma_session_views_push(v: Seq<Session>, x: Session)
    ensures
        session_views(v.push(x)) == session_views(v).push(x@),
{
    assert(session_views(v.push(x)) =~= session_views(v).push(x@));
}

pub proof fn lemma_row_views_push(v: Seq<SessionRow>, x: SessionRow)
    ensures
        row_views(v.push(x)) == row_views(v).push(x@),
{
    assert(row_views(v.push(x)) =~= row_views(v).push(x@));
}

/// Field-by-field copies of all sessions.
pub fn copy_sessions(s: &[Session]) -> (r: Vec<Session>)
    ensures
        session_views(r@) == session_views(s@),
{
    let n = s.len();
    let mut r: Vec<Session> = Vec::new();
    let mut i: usize = 0;
    while i < n
        invariant
            n == s@.len(),
            i <= n,
            session_views(r@) == session_views(s@).take(i as int),
        decreases n - i,
    {
        let d = s[i].duplicate();
        proof {
            lemma_session_views_push(r@, d);
        }
        r.push(d);
        assert(session_views(s@).take(i + 1) =~= session_views(s@).take(i as int).push(s@[i as int]@));
        i += 1;
    }
    assert(session_views(s@).take(n as int) =~= session_views(s@));
    r
}

fn is_system_group(g: &str) -> (r: bool)
    ensures
        r == (g@ == system_group_name()),
{
    let c = chars_of(g);
    let s = crate::groups::system_group_chars();
    crate::text::chars_eq(c.as_slice(), s.as_slice())
}

fn keep_outside_system(s: &[Session]) -> (r: Vec<Session>)
    ensures
        session_views(r@) == outside_system(session_views(s@)),
{
    let n = s.len();
    let mut r: Vec<Session> = Vec::new();
    let mut i: usize = 0;
    assert(session_views(s@).take(0) =~= Seq::<SessionView>::empty());
    while i < n
        invariant
            n == s@.len(),
            i <= n,
            session_views(r@) == outside_system(session_views(s@).take(i as int)),
        decreases n - i,
    {
        let ghost t = session_views(s@).take(i + 1);
        assert(t.drop_last() =~= session_views(s@).take(i as int));
        assert(t.last() == s@[i as int]@);
        if !is_system_group(s[i].group.as_str()) {
            let d = s[i].duplicate();
            proof {
                lemma_session_views_push(r@, d);
            }
            r.push(d);
        }
        i += 1;
    }
    assert(session_views(s@).take(n as int) =~= session_views(s@));
    r
}

fn keep_names_outside_system(g: &[String]) -> (r: Vec<String>)
    ensures
        str_views(r@) == names_outside_system(str_views(g@)),
{
    let n = g.len();
    let mut r: Vec<String> = Vec::new();
    let mut i: usize = 0;
    assert(str_views(g@).take(0) =~= Seq::<Seq<char>>::empty());
    while i < n
        invariant
            n == g@.len(),
            i <= n,
            str_views(r@) == names_outside_system(str_views(g@).take(i as int)),
        decreases n - i,
    {
        let ghost t = str_views(g@).take(i + 1);
        assert(t.drop_last() =~= str_views(g@).take(i as int));
        assert(t.last() == g@[i as int]@);
        if !is_system_group(g[i].as_str()) {
            let c = g[i].clone();
            proof {
                crate::groups::lemma_str_views_push(r@, c);
            }
            r.push(c);
        }
        i += 1;
    }
    assert(str_views(g@).take(n as int) =~= str_views(g@));
    r
}

fn copy_strings(g: &[String]) -> (r: Vec<String>)
    ensures
        str_views(r@) == str_views(g@),
{
    let n = g.len();
    let mut r: Vec<String> = Vec::new();
    let mut i: usize = 0;
    while i < n
        invariant
            n == g@.len(),
            i <= n,
            str_views(r@) == str_views(g@).take(i as int),
        decreases n - i,
    {
        let c = g[i].clone();
        proof {
            crate::groups::lemma_str_views_push(r@, c);
        }
        r.push(c);
        assert(str_views(g@).take(i + 1) =~= str_views(g@).take(i as int).push(g@[i as int]@));
        i += 1;
    }
    assert(str_views(g@).take(n as int) =~= str_views(g@));
    r
}

fn matching_sessions(s: &[Session], q: &str) -> (r: Vec<Session>)
    ensures
        session_views(r@) == matching(session_views(s@), q@),
{
    let n = s.len();
    let mut r: Vec<Session> = Vec::new();
    let mut i: usize = 0;
    assert(session_views(s@).take(0) =~= Seq::<SessionView>::empty());
    while i < n
        invariant
            n == s@.len(),
            i <= n,
            session_views(r@) == matching(session_views(s@).take(i as int), q@),
        decreases n - i,
    {
        let ghost t = session_views(s@).take(i + 1);
        assert(t.drop_last() =~= session_views(s@).take(i as int));
        assert(t.last() == s@[i as int]@);
        if session_matches_normalized_query(&s[i], q) {
            let d = s[i].duplicate();
            proof {
                lemma_session_views_push(r@, d);
            }
            r.push(d);
        }
        i += 1;
    }
    assert(session_views(s@).take(n as int) =~= session_views(s@));
    r
}

fn group_members(s: &[Session], g: &str, q: &str) -> (r: Vec<Session>)
    ensures
        session_views(r@) == members_of(session_views(s@), g@, q@),
{
    let gc = chars_of(g);
    let dc = crate::groups::default_group_chars();
    let is_default = crate::text::chars_eq(gc.as_slice(), dc.as_slice());
    let n = s.len();
    let mut r: Vec<Session> = Vec::new();
    let mut i: usize = 0;
    assert(session_views(s@).take(0) =~= Seq::<SessionView>::empty());
    while i < n
        invariant
            n == s@.len(),
            i <= n,
            gc@ == g@,
            is_default == (g@ == default_group_name()),
            session_views(r@) == members_of(session_views(s@).take(i as int), g@, q@),
        decreases n - i,
    {
        let ghost t = session_views(s@).take(i + 1);
        assert(t.drop_last() =~= session_views(s@).take(i as int));
        assert(t.last() == s@[i as int]@);
        let in_group = if is_default {
            crate::groups::is_in_default_group(s[i].group.as_str())
        } else {
            let sg = chars_of(s[i].group.as_str());
            crate::text::chars_eq(sg.as_slice(), gc.as_slice())
        };
        if in_group && session_matches_normalized_query(&s[i], q) {
            let d = s[i].duplicate();
            proof {
                lemma_session_views_push(r@, d);
            }
            r.push(d);
        }
        i += 1;
    }
    assert(session_views(s@).take(n as int) =~= session_views(s@));
    r
}

fn matched_group_names(s: &[Session], q: &str) -> (r: Vec<String>)
    ensures
        str_views(r@) == matched_named_groups(session_views(s@), q@),
{
    let n = s.len();
    let mut r: Vec<String> = Vec::new();
    let mut i: usize = 0;
    assert(session_views(s@).take(0) =~= Seq::<SessionView>::empty());
    assert(str_views(r@) =~= Seq::<Seq<char>>::empty());
    while i < n
        invariant
            n == s@.len(),
            i <= n,
            str_views(r@) == matched_named_groups(session_views(s@).take(i as int), q@),
        decreases n - i,
    {
        let ghost t = session_views(s@).take(i + 1);
        assert(t.drop_last() =~= session_views(s@).take(i as int));
        assert(t.last() == s@[i as int]@);
        if !crate::groups::is_in_default_group(s[i].group.as_str())
            && session_matches_normalized_query(&s[i], q) {
            let c = s[i].group.clone();
            proof {
                crate::groups::lemma_str_views_push(r@, c);
            }
            r.push(c);
        }
        i += 1;
    }
    assert(session_views(s@).take(n as int) =~= session_views(s@));
    r
}

fn is_collapsed_exec(collapsed: Option<&[String]>, searching: bool, g: &[char]) -> (r: bool)
    ensures
        r == (!searching && match collapsed {
            Some(c) => str_views(c@).contains(g@),
            None => true,
        }),
{
    if searching {
        return false;
    }
    match collapsed {
        Some(c) => crate::groups::contains_string(c, g),
        None => true,
    }
}


fn make_builtin_row(s: &Session, i: usize, n: usize, collapsed: bool, color: Color, hex: &String) -> (r: SessionRow)
    ensures
        r@ == (RowView {
            id: s.id@,
            name: s.name@,
            kind: kind_name(s.kind),
            host: s.host@,
            port: 0,
            user: s.user@,
            group: system_group_name(),
            group_header: if i == 0 { system_group_name() } else { seq![] },
            collapsed: collapsed,
            builtin: true,
            conn_state: 0,
            note: seq![],
            group_index: i as i32,
            group_size: n as i32,
            group_color: color,
            group_color_hex: hex@,
        }),
{
    let sys = crate::groups::system_group_chars();
    SessionRow {
        id: s.id.clone(),
        name: s.name.clone(),
        kind: s.kind.as_str(),
        host: s.host.clone(),
        port: 0,
        user: s.user.clone(),
        group: string_of(sys.as_slice()),
        group_header: if i == 0 {
            string_of(sys.as_slice())
        } else {
            String::new()
        },
        collapsed,
        builtin: true,
        conn_state: 0,
        note: String::new(),
        group_index: i as i32,
        group_size: n as i32,
        group_color: color,
        group_color_hex: hex.clone(),
    }
}

fn make_member_row(
    s: &Session,
    g: &String,
    i: usize,
    n: usize,
    collapsed: bool,
    color: Color,
    hex: &String,
) -> (r: SessionRow)
    ensures
        r@ == (RowView {
            id: s.id@,
            name: s.name@,
            kind: kind_name(s.kind),
            host: s.host@,
            port: s.port as i32,
            user: s.user@,
            group: g@,
            group_header: if i == 0 { g@ } else { seq![] },
            collapsed: collapsed,
            builtin: false,
            conn_state: 0,
            note: s.note@,
            group_index: i as i32,
            group_size: n as i32,
            group_color: color,
            group_color_hex: hex@,
        }),
{
    SessionRow {
        id: s.id.clone(),
        name: s.name.clone(),
        kind: s.kind.as_str(),
        host: s.host.clone(),
        port: s.port as i32,
        user: s.user.clone(),
        group: g.clone(),
        group_header: if i == 0 {
            g.clone()
        } else {
            String::new()
        },
        collapsed,
        builtin: false,
        conn_state: 0,
        note: s.note.clone(),
        group_index: i as i32,
        group_size: n as i32,
        group_color: color,
        group_color_hex: hex.clone(),
    }
}

fn make_blank_row(g: &String, collapsed: bool, color: Color, hex: &String) -> (r: SessionRow)
    ensures
        r@ == (RowView {
            id: seq![],
            name: seq![],
            kind: seq![],
            host: seq![],
            port: 0,
            user: seq![],
            group: g@,
            group_header: g@,
            collapsed: collapsed,
            builtin: false,
            conn_state: 0,
            note: seq![],
            group_index: 0,
            group_size: 0,
            group_color: color,
            group_color_hex: hex@,
        }),
{
    SessionRow {
        id: String::new(),
        name: String::new(),
        kind: String::new(),
        host: String::new(),
        port: 0,
        user: String::new(),
        group: g.clone(),
        group_header: g.clone(),
        collapsed,
        builtin: false,
        conn_state: 0,
        note: String::new(),
        group_index: 0,
        group_size: 0,
        group_color: color,
        group_color_hex: hex.clone(),
    }
}

pub open spec fn opt_strings(c: Option<&[String]>) -> Option<Seq<String>> {
    match c {
        Some(v) => Some(v@),
        None => None,
    }
}

/// What the list is laid out from: the normalized query, the saved
/// sessions on the list, the display groups in order and the matching
/// built-in terminals.
fn list_layout(
    sessions: &[Session],
    explicit_groups: &[String],
    collapsed_groups: Option<&[String]>,
    group_colors: &GroupColors,
    builtin_sessions: &[Session],
    query: &str,
    hide_system: bool,
) -> (r: (String, Vec<Session>, Vec<String>, Vec<Session>))
    ensures
        ({
            let inp = rows_input(
                sessions@,
                explicit_groups@,
                opt_strings(collapsed_groups),
                group_colors@,
                builtin_sessions@,
                query@,
                hide_system,
            );
            &&& r.0@ == inp.q()
            &&& session_views(r.1@) == inp.visible_sessions()
            &&& str_views(r.2@) == inp.display_groups()
            &&& session_views(r.3@) == inp.matched_builtins()
        }),
{
    let ghost inp = rows_input(
        sessions@,
        explicit_groups@,
        opt_strings(collapsed_groups),
        group_colors@,
        builtin_sessions@,
        query@,
        hide_system,
    );
    let q = normalized_query(query);
    let searching = !q.as_str().is_empty();
    let vs: Vec<Session> = if hide_system {
        keep_outside_system(sessions)
    } else {
        copy_sessions(sessions)
    };
    let vg: Vec<String> = if hide_system {
        keep_names_outside_system(explicit_groups)
    } else {
        copy_strings(explicit_groups)
    };
    let vb: Vec<Session> = if hide_system {
        Vec::new()
    } else {
        copy_sessions(builtin_sessions)
    };
    assert(session_views(vs@) == inp.visible_sessions());
    assert(str_views(vg@) == inp.visible_groups());
    assert(session_views(vb@) =~= inp.visible_builtins());
    let default_name = string_of(crate::groups::default_group_chars().as_slice());
    let dm = group_members(vs.as_slice(), default_name.as_str(), q.as_str());
    let has_default = dm.len() > 0;
    assert(has_default == inp.has_default());
    let named0 = if searching {
        matched_group_names(vs.as_slice(), q.as_str())
    } else {
        crate::groups::named_display_groups(vg.as_slice(), vs.as_slice())
    };
    let named = crate::groups::dedup_strings(named0.as_slice());
    assert(str_views(named@) == inp.named());
    let mut display: Vec<String> = Vec::new();
    if has_default {
        let d = default_name.clone();
        proof {
            crate::groups::lemma_str_views_push(display@, d);
        }
        display.push(d);
    }
    let nn = named.len();
    let mut k: usize = 0;
    let ghost head = str_views(display@);
    while k < nn
        invariant
            nn == named@.len(),
            k <= nn,
            str_views(display@) == head + str_views(named@).take(k as int),
        decreases nn - k,
    {
        let c = named[k].clone();
        proof {
            crate::groups::lemma_str_views_push(display@, c);
        }
        display.push(c);
        assert(str_views(named@).take(k + 1) =~= str_views(named@).take(k as int).push(named@[k as int]@));
        assert(head + str_views(named@).take(k + 1) =~= (head + str_views(named@).take(k as int)).push(named@[k as int]@));
        k += 1;
    }
    assert(str_views(named@).take(nn as int) =~= str_views(named@));
    assert(str_views(display@) =~= inp.display_groups());

    let bm = matching_sessions(vb.as_slice(), q.as_str());
    (q, vs, display, bm)
}

/// Builds the session list (see [`session_rows`]): the built-in terminals,
/// then every display group in stored order with its members in stored
/// order, filtered by `query`, with folder headers, group sizes, collapse
/// state and group colours.
pub fn build_session_rows(
    sessions: &[Session],
    explicit_groups: &[String],
    collapsed_groups: Option<&[String]>,
    group_colors: &GroupColors,
    builtin_sessions: &[Session],
    query: &str,
    hide_system: bool,
) -> (rows: Vec<SessionRow>)
    ensures
        row_views(rows@) == session_rows(
            rows_input(
                sessions@,
                explicit_groups@,
                opt_strings(collapsed_groups),
                group_colors@,
                builtin_sessions@,
                query@,
                hide_system,
            ),
        ),
{
    let ghost inp = rows_input(
        sessions@,
        explicit_groups@,
        opt_strings(collapsed_groups),
        group_colors@,
        builtin_sessions@,
        query@,
        hide_system,
    );
    let (q, vs, display, bm) = list_layout(
        sessions,
        explicit_groups,
        collapsed_groups,
        group_colors,
        builtin_sessions,
        query,
        hide_system,
    );
    let searching = !q.as_str().is_empty();

    // Built-in terminals.
    let nb = bm.len();
    let mut rows: Vec<SessionRow> = Vec::new();
    let sys = crate::groups::system_group_chars();
    let mut i: usize = 0;
    while i < nb
        invariant
            nb == bm@.len(),
            i <= nb,
            session_views(bm@) == inp.matched_builtins(),
            sys@ == system_group_name(),
            inp.colors == group_colors@,
            inp.q() == q@,
            inp.collapsed == match collapsed_groups {
                Some(c) => Some(str_views(c@)),
                None => None,
            },
            searching == inp.searching(),
            row_views(rows@) == builtin_rows(inp).take(i as int),
        decreases nb - i,
    {
        let (color, hex) = crate::groups::group_color(group_colors, sys.as_slice());
        let collapsed = is_collapsed_exec(collapsed_groups, searching, sys.as_slice());
        let row = make_builtin_row(&bm[i], i, nb, collapsed, color, &hex);
        assert(session_views(bm@)[i as int] == bm@[i as int]@);
        assert(row@ == builtin_row(inp, inp.matched_builtins()[i as int], i as int, nb as int));
        proof {
            lemma_row_views_push(rows@, row);
        }
        rows.push(row);
        assert(builtin_rows(inp).take(i + 1) =~= builtin_rows(inp).take(i as int).push(row@));
        i += 1;
    }
    assert(builtin_rows(inp).take(nb as int) =~= builtin_rows(inp));

    // Groups.
    let nd = display.len();
    let mut j: usize = 0;
    assert(str_views(display@).take(0) =~= Seq::<Seq<char>>::empty());
    assert(row_views(rows@) =~= builtin_rows(inp) + rows_of_groups(inp, str_views(display@).take(0)));
    while j < nd
        invariant
            nd == display@.len(),
            j <= nd,
            str_views(display@) == inp.display_groups(),
            session_views(vs@) == inp.visible_sessions(),
            inp.colors == group_colors@,
            inp.q() == q@,
            inp.collapsed == match collapsed_groups {
                Some(c) => Some(str_views(c@)),
                None => None,
            },
            searching == inp.searching(),
            row_views(rows@) == builtin_rows(inp) + rows_of_groups(inp, str_views(display@).take(j as int)),
        decreases nd - j,
    {
        let g = &display[j];
        let gc = chars_of(g.as_str());
        assert(str_views(display@)[j as int] == g@);
        let (color, hex) = crate::groups::group_color(group_colors, gc.as_slice());
        let collapsed = is_collapsed_exec(collapsed_groups, searching, gc.as_slice());
        let gs = group_members(vs.as_slice(), g.as_str(), q.as_str());
        assert(session_views(gs@) == inp.members(g@));
        let dc = crate::groups::default_group_chars();
        let is_default = crate::text::chars_eq(gc.as_slice(), dc.as_slice());
        let ghost before = row_views(rows@);
        let ng = gs.len();
        if ng == 0 && !searching && !is_default {
            let row = make_blank_row(g, collapsed, color, &hex);
            proof {
                lemma_row_views_push(rows@, row);
            }
            rows.push(row);
            assert(group_rows(inp, g@) =~= seq![row@]);
        } else {
            let mut m: usize = 0;
            while m < ng
                invariant
                    ng == gs@.len(),
                    m <= ng,
                    session_views(gs@) == inp.members(g@),
                    collapsed == inp.is_collapsed(g@),
                    (color, hex@) == inp.color(g@),
                    row_views(rows@) == before + Seq::new(
                        m as nat,
                        |i: int| member_row(inp, inp.members(g@)[i], g@, i, ng as int),
                    ),
                decreases ng - m,
            {
                let row = make_member_row(&gs[m], g, m, ng, collapsed, color, &hex);
                assert(session_views(gs@)[m as int] == gs@[m as int]@);
                proof {
                    lemma_row_views_push(rows@, row);
                }
                rows.push(row);
                assert(before + Seq::new(
                    (m + 1) as nat,
                    |i: int| member_row(inp, inp.members(g@)[i], g@, i, ng as int),
                ) =~= (before + Seq::new(
                    m as nat,
                    |i: int| member_row(inp, inp.members(g@)[i], g@, i, ng as int),
                )).push(row@));
                m += 1;
            }
            assert(Seq::new(ng as nat, |i: int| member_row(inp, inp.members(g@)[i], g@, i, ng as int))
                =~= group_rows(inp, g@));
        }
        assert(str_views(display@).take(j + 1).drop_last() =~= str_views(display@).take(j as int));
        assert(str_views(display@).take(j + 1).last() == g@);
        assert(row_views(rows@) =~= builtin_rows(inp) + rows_of_groups(inp, str_views(display@).take(j + 1)));
        j += 1;
    }
    assert(str_views(display@).take(nd as int) =~= inp.display_groups());
    rows
}

// ---------------------------------------------------------------------------
// Laws of the session list
// ---------------------------------------------------------------------------

proof fn lemma_members_contain(s: Seq<SessionView>, g: Seq<char>, q: Seq<char>, k: int)
    requires
        0 <= k < s.len(),
        session_matches(s[k], q),
        if g == default_group_name() {
            in_default_group(s[k].group)
        } else {
            s[k].group == g
        },
    ensures
        members_of(s, g, q).contains(s[k]),
    decreases s.len(),
{
    if k == s.len() - 1 {
        let m = members_of(s, g, q);
        assert(m.last() == s[k]);
        assert(m[m.len() - 1] == s[k]);
    } else {
        let t = s.drop_last();
        assert(t[k] == s[k]);
        lemma_members_contain(t, g, q, k);
        let mt = members_of(t, g, q);
        let j = choose|j: int| 0 <= j < mt.len() && mt[j] == s[k];
        let m = members_of(s, g, q);
        assert(m[j] == s[k]);
    }
}

proof fn lemma_members_match(s: Seq<SessionView>, g: Seq<char>, q: Seq<char>, k: int)
    requires
        0 <= k < members_of(s, g, q).len(),
    ensures
        session_matches(members_of(s, g, q)[k], q),
        s.contains(members_of(s, g, q)[k]),
    decreases s.len(),
{
    let t = s.drop_last();
    let mt = members_of(t, g, q);
    if k < mt.len() {
        lemma_members_match(t, g, q, k);
        let j = choose|j: int| 0 <= j < t.len() && t[j] == mt[k];
        assert(s[j] == t[j]);
    } else {
        assert(s[s.len() - 1] == s.last());
    }
}

proof fn lemma_matching_match(s: Seq<SessionView>, q: Seq<char>, k: int)
    requires
        0 <= k < matching(s, q).len(),
    ensures
        session_matches(matching(s, q)[k], q),
    decreases s.len(),
{
    let t = s.drop_last();
    if k < matching(t, q).len() {
        lemma_matching_match(t, q, k);
    }
}

proof fn lemma_dedup_contains(s: Seq<Seq<char>>, x: Seq<char>)
    requires
        s.contains(x),
    ensures
        dedup(s).contains(x),
    decreases s.len(),
{
    let d = dedup(s.drop_last());
    if s.last() == x {
        if !d.contains(x) {
            assert(dedup(s)[dedup(s).len() - 1] == x);
        }
    } else {
        let k = choose|k: int| 0 <= k < s.len() && s[k] == x;
        assert(s.drop_last()[k] == x);
        lemma_dedup_contains(s.drop_last(), x);
        let j = choose|j: int| 0 <= j < d.len() && d[j] == x;
        assert(dedup(s)[j] == x);
    }
}

proof fn lemma_outside_system(s: Seq<SessionView>, k: int)
    requires
        0 <= k < outside_system(s).len(),
    ensures
        outside_system(s)[k].group != system_group_name(),
    decreases s.len(),
{
    let t = s.drop_last();
    if k < outside_system(t).len() {
        lemma_outside_system(t, k);
    }
}

/// With an empty query every saved session on the list is shown: its
/// display group (`default` for ungrouped ones) is among the listed groups,
/// and the session among that group's members.
pub proof fn law_every_session_is_listed(inp: RowsInput, k: int)
    requires
        !inp.searching(),
        0 <= k < inp.visible_sessions().len(),
    ensures
        inp.display_groups().contains(display_group(inp.visible_sessions()[k].group)),
        inp.members(display_group(inp.visible_sessions()[k].group)).contains(inp.visible_sessions()[k]),
{
    let vs = inp.visible_sessions();
    let s = vs[k];
    let g = display_group(s.group);
    assert(session_matches(s, inp.q()));
    assert(trim(default_group_name()) == default_group_name()) by {
        assert(!crate::text::is_ws('d'));
        assert(!crate::text::is_ws('t'));
    }
    assert(in_default_group(default_group_name()));
    if in_default_group(s.group) {
        lemma_members_contain(vs, default_group_name(), inp.q(), k);
        assert(inp.has_default());
        assert(inp.display_groups()[0] == default_group_name());
    } else {
        assert(g == s.group);
        assert(g != default_group_name());
        lemma_members_contain(vs, g, inp.q(), k);
        let gv = inp.visible_groups();
        let all = gv + group_fields(vs);
        let p = |x: Seq<char>| !in_default_group(x);
        assert(all[gv.len() + k] == g);
        all.lemma_filter_contains(p, gv.len() + k);
        lemma_dedup_contains(all.filter(p), g);
        assert(named_groups(gv, vs) == dedup(all.filter(p)));
        lemma_dedup_contains(named_groups(gv, vs), g);
        let named = inp.named();
        let j = choose|j: int| 0 <= j < named.len() && named[j] == g;
        let pre = if inp.has_default() {
            seq![default_group_name()]
        } else {
            Seq::<Seq<char>>::empty()
        };
        assert(inp.display_groups() == pre + named);
        assert(inp.display_groups()[pre.len() + j] == g);
    }
}

/// While searching, every session and built-in terminal on the list
/// matches the query.
pub proof fn law_listed_sessions_match_query(inp: RowsInput, g: Seq<char>, k: int, b: int)
    requires
        0 <= k < inp.members(g).len(),
        0 <= b < inp.matched_builtins().len(),
    ensures
        session_matches(inp.members(g)[k], inp.q()),
        inp.visible_sessions().contains(inp.members(g)[k]),
        session_matches(inp.matched_builtins()[b], inp.q()),
{
    lemma_members_match(inp.visible_sessions(), g, inp.q(), k);
    lemma_matching_match(inp.visible_builtins(), inp.q(), b);
}

/// With the system group hidden, no built-in terminal is listed and no
/// listed session is in the `system` group.
pub proof fn law_hidden_system_group(inp: RowsInput, k: int)
    requires
        inp.hide_system,
        0 <= k < inp.visible_sessions().len(),
    ensures
        builtin_rows(inp).len() == 0,
        inp.visible_sessions()[k].group != system_group_name(),
{
    assert(inp.visible_builtins() == Seq::<SessionView>::empty());
    assert(matching(Seq::<SessionView>::empty(), inp.q()).len() == 0);
    lemma_outside_system(inp.sessions, k);
}

/// Blanks around a query change nothing: the normalized query, and so
/// which sessions match, is the same with or without them.
pub proof fn law_query_padding_ignored(w1: Seq<char>, q: Seq<char>, w2: Seq<char>)
    requires
        forall|i: int| 0 <= i < w1.len() ==> crate::text::is_ws(#[trigger] w1[i]),
        forall|i: int| 0 <= i < w2.len() ==> crate::text::is_ws(#[trigger] w2[i]),
    ensures
        normalized_query_of(w1 + q + w2) == normalized_query_of(q),
{
    crate::text::lemma_trim_padding(w1, q, w2);
}

/// An ASCII query is matched without regard to case: two ASCII queries that
/// differ only in the case of their letters are matched as the same text
/// (the one [`session_matches_query`] uses for ASCII queries).
pub proof fn law_query_case_ignored(q1: Seq<char>, q2: Seq<char>)
    requires
        crate::text::is_ascii_seq(q1),
        crate::text::is_ascii_seq(q2),
        q1.map_values(|c: char| crate::text::ascii_lower(c)) == q2.map_values(
            |c: char| crate::text::ascii_lower(c),
        ),
    ensures
        crate::text::is_ascii_seq(trim(q1)),
        crate::text::is_ascii_seq(trim(q2)),
        trim(q1).map_values(|c: char| crate::text::ascii_lower(c)) == trim(q2).map_values(
            |c: char| crate::text::ascii_lower(c),
        ),
{
    crate::text::lemma_trim_ascii(q1);
    crate::text::lemma_trim_ascii(q2);
    crate::text::lemma_trim_ascii_lower(q1);
    crate::text::lemma_trim_ascii_lower(q2);
}

/// A blank query matches every session.
pub proof fn law_blank_query_matches_all(s: SessionView, q: Seq<char>)
    requires
        q.len() == 0,
    ensures
        session_matches(s, q),
{
}

// ---------------------------------------------------------------------------
// The block structure of the list
// ---------------------------------------------------------------------------

/// The list is the block of built-in terminals followed by one block per
/// display group, in order.
pub proof fn law_rows_are_group_blocks(inp: RowsInput, ds: Seq<Seq<char>>, g: Seq<char>)
    ensures
        session_rows(inp) == builtin_rows(inp) + rows_of_groups(inp, inp.display_groups()),
        rows_of_groups(inp, ds.push(g)) == rows_of_groups(inp, ds) + group_rows(inp, g),
{
    assert(ds.push(g).drop_last() =~= ds);
}

/// Within a group's block: every row carries the group, its collapse state
/// and its colour. An empty named folder (not while searching) is one
/// placeholder row with an empty id, size 0 and the header; otherwise row
/// `i` is the `i`-th matching member, with index `i`, the block's size, and
/// the header on the first row only.
pub proof fn law_group_block(inp: RowsInput, g: Seq<char>, i: int)
    requires
        0 <= i < group_rows(inp, g).len(),
        group_rows(inp, g).len() <= i32::MAX,
    ensures
        ({
            let b = group_rows(inp, g);
            let r = b[i];
            &&& r.group == g
            &&& r.collapsed == inp.is_collapsed(g)
            &&& r.group_color == inp.color(g).0
            &&& r.group_color_hex == inp.color(g).1
            &&& !r.builtin
            &&& if inp.members(g).len() == 0 && !inp.searching() && g != default_group_name() {
                &&& b.len() == 1
                &&& r.id.len() == 0
                &&& r.group_size == 0
                &&& r.group_index == 0
                &&& r.group_header == g
            } else {
                &&& b.len() == inp.members(g).len()
                &&& r.id == inp.members(g)[i].id
                &&& r.group_index == i
                &&& r.group_size == b.len()
                &&& r.group_header == (if i == 0 {
                    g
                } else {
                    Seq::<char>::empty()
                })
            }
        }),
{
}

/// The block of built-in terminals: every row is a built-in one in the
/// `system` group with its index, the block's size, and the header on the
/// first row only.
pub proof fn law_builtin_block(inp: RowsInput, i: int)
    requires
        0 <= i < builtin_rows(inp).len(),
        builtin_rows(inp).len() <= i32::MAX,
    ensures
        ({
            let r = builtin_rows(inp)[i];
            &&& r.builtin
            &&& r.group == system_group_name()
            &&& r.id == inp.matched_builtins()[i].id
            &&& r.group_index == i
            &&& r.group_size == builtin_rows(inp).len()
            &&& r.group_header == (if i == 0 {
                system_group_name()
            } else {
                Seq::<char>::empty()
            })
            &&& r.collapsed == inp.is_collapsed(system_group_name())
        }),
{
}

/// A row shows its group's collapse state and colour.
pub open spec fn row_shows_group_state(inp: RowsInput, r: RowView) -> bool {
    &&& r.collapsed == inp.is_collapsed(r.group)
    &&& r.group_color == inp.color(r.group).0
    &&& r.group_color_hex == inp.color(r.group).1
}

proof fn lemma_group_rows_state(inp: RowsInput, ds: Seq<Seq<char>>)
    ensures
        forall|k: int|
            0 <= k < rows_of_groups(inp, ds).len() ==> row_shows_group_state(
                inp,
                #[trigger] rows_of_groups(inp, ds)[k],
            ),
    decreases ds.len(),
{
    if ds.len() > 0 {
        let a = rows_of_groups(inp, ds.drop_last());
        let b = group_rows(inp, ds.last());
        lemma_group_rows_state(inp, ds.drop_last());
        assert(rows_of_groups(inp, ds) == a + b);
        assert forall|k: int| 0 <= k < rows_of_groups(inp, ds).len() implies row_shows_group_state(
            inp,
            #[trigger] rows_of_groups(inp, ds)[k],
        ) by {
            if k < a.len() {
                assert(rows_of_groups(inp, ds)[k] == a[k]);
            } else {
                assert(rows_of_groups(inp, ds)[k] == b[k - a.len()]);
            }
        }
    }
}

/// Every row of the list, whatever its block, shows the state of its own
/// group: it is collapsed exactly when no search is under way and the group
/// is in the collapsed list (every group when there is no list), and it
/// carries the colour that the colour table gives its group. The built-in
/// terminals are the rows of the `system` group, so they carry the colour
/// set for `system`.
pub proof fn law_rows_show_group_state(inp: RowsInput, k: int)
    requires
        0 <= k < session_rows(inp).len(),
    ensures
        ({
            let r = session_rows(inp)[k];
            &&& r.collapsed == (normalized_query_of(inp.query).len() == 0 && match inp.collapsed {
                Some(c) => c.contains(r.group),
                None => true,
            })
            &&& (r.group_color, r.group_color_hex) == row_group_color(inp.colors, r.group)
            &&& r.builtin ==> r.group == system_group_name()
            &&& r.builtin ==> (r.group_color, r.group_color_hex) == row_group_color(
                inp.colors,
                system_group_name(),
            )
        }),
{
    let bl = builtin_rows(inp);
    let gr = rows_of_groups(inp, inp.display_groups());
    lemma_group_rows_state(inp, inp.display_groups());
    assert(session_rows(inp) == bl + gr);
    let r = session_rows(inp)[k];
    if k < bl.len() {
        assert(r == bl[k]);
    } else {
        assert(r == gr[k - bl.len()]);
        assert(row_shows_group_state(inp, gr[k - bl.len()]));
        let g = inp.display_groups();
        assert(!r.builtin) by {
            lemma_rows_of_groups_not_builtin(inp, g);
        }
    }
}

proof fn lemma_rows_of_groups_not_builtin(inp: RowsInput, ds: Seq<Seq<char>>)
    ensures
        forall|k: int|
            0 <= k < rows_of_groups(inp, ds).len() ==> !(#[trigger] rows_of_groups(inp, ds)[k]).builtin,
    decreases ds.len(),
{
    if ds.len() > 0 {
        let a = rows_of_groups(inp, ds.drop_last());
        let b = group_rows(inp, ds.last());
        lemma_rows_of_groups_not_builtin(inp, ds.drop_last());
        assert(rows_of_groups(inp, ds) == a + b);
        assert forall|k: int| 0 <= k < rows_of_groups(inp, ds).len() implies !(
        #[trigger] rows_of_groups(inp, ds)[k]).builtin by {
            if k < a.len() {
                assert(rows_of_groups(inp, ds)[k] == a[k]);
            } else {
                assert(rows_of_groups(inp, ds)[k] == b[k - a.len()]);
            }
        }
    }
}

proof fn lemma_matched_named_not_default(s: Seq<SessionView>, q: Seq<char>, k: int)
    requires
        0 <= k < matched_named_groups(s, q).len(),
    ensures
        !in_default_group(matched_named_groups(s, q)[k]),
    decreases s.len(),
{
    let t = s.drop_last();
    if k < matched_named_groups(t, q).len() {
        lemma_matched_named_not_default(t, q, k);
    }
}

/// Each display group appears once, so each has one block.
pub proof fn law_display_groups_distinct(inp: RowsInput)
    ensures
        forall|i: int, j: int|
            0 <= i < j < inp.display_groups().len() ==> inp.display_groups()[i]
                != inp.display_groups()[j],
{
    let src = if inp.searching() {
        matched_named_groups(inp.visible_sessions(), inp.q())
    } else {
        named_groups(inp.visible_groups(), inp.visible_sessions())
    };
    let named = inp.named();
    assert(named == dedup(src));
    crate::groups::lemma_dedup_unique(src);
    assert(trim(default_group_name()) == default_group_name()) by {
        assert(!crate::text::is_ws('d'));
        assert(!crate::text::is_ws('t'));
    }
    assert forall|k: int| 0 <= k < named.len() implies #[trigger] named[k] != default_group_name() by {
        assert(src.contains(named[k]));
        let j = choose|j: int| 0 <= j < src.len() && src[j] == named[k];
        if inp.searching() {
            lemma_matched_named_not_default(inp.visible_sessions(), inp.q(), j);
        } else {
            crate::groups::law_named_groups_unique(inp.visible_groups(), inp.visible_sessions());
        }
    }
    let pre = if inp.has_default() {
        seq![default_group_name()]
    } else {
        Seq::<Seq<char>>::empty()
    };
    let dg = inp.display_groups();
    assert(dg == pre + named);
    assert forall|i: int, j: int| 0 <= i < j < dg.len() implies dg[i] != dg[j] by {
        if i < pre.len() {
            assert(dg[j] == named[j - pre.len()]);
        } else {
            assert(dg[i] == named[i - pre.len()]);
            assert(dg[j] == named[j - pre.len()]);
        }
    }
}

// ---------------------------------------------------------------------------
// Hiding the system group
// ---------------------------------------------------------------------------

proof fn lemma_rows_of_groups_same(a: RowsInput, b: RowsInput, ds: Seq<Seq<char>>)
    requires
        forall|g: Seq<char>| #[trigger] group_rows(a, g) == group_rows(b, g),
    ensures
        rows_of_groups(a, ds) == rows_of_groups(b, ds),
    decreases ds.len(),
{
    if ds.len() > 0 {
        lemma_rows_of_groups_same(a, b, ds.drop_last());
        assert(group_rows(a, ds.last()) == group_rows(b, ds.last()));
    }
}

/// The list depends on the inputs only through what is visible on it.
pub proof fn lemma_rows_depend_on_visible(a: RowsInput, b: RowsInput)
    requires
        a.visible_sessions() == b.visible_sessions(),
        a.visible_groups() == b.visible_groups(),
        a.visible_builtins() == b.visible_builtins(),
        a.query == b.query,
        a.collapsed == b.collapsed,
        a.colors == b.colors,
    ensures
        session_rows(a) == session_rows(b),
{
    assert(a.display_groups() == b.display_groups());
    assert(builtin_rows(a) =~= builtin_rows(b));
    assert forall|g: Seq<char>| #[trigger] group_rows(a, g) == group_rows(b, g) by {
        assert(a.members(g) == b.members(g));
        assert(group_rows(a, g) =~= group_rows(b, g));
    }
    lemma_rows_of_groups_same(a, b, a.display_groups());
}

/// Hiding the system group is listing without it: the list equals the one
/// built from the sessions outside `system`, the group names other than
/// `system`, and no built-in terminals, with nothing hidden.
pub proof fn law_hidden_system_group_is_filtering(inp: RowsInput)
    requires
        inp.hide_system,
    ensures
        session_rows(inp) == session_rows(
            RowsInput {
                sessions: outside_system(inp.sessions),
                groups: names_outside_system(inp.groups),
                builtins: Seq::<SessionView>::empty(),
                hide_system: false,
                ..inp
            },
        ),
{
    let b = RowsInput {
        sessions: outside_system(inp.sessions),
        groups: names_outside_system(inp.groups),
        builtins: Seq::<SessionView>::empty(),
        hide_system: false,
        ..inp
    };
    lemma_rows_depend_on_visible(inp, b);
}

} // verus!
