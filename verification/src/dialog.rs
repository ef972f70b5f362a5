//! The lists the session dialog and the session context menu offer: the WSL
//! profiles, the named groups with their colours and sizes, the targets of
//! "move to group", and the jump hosts.

use vstd::prelude::*;
use crate::color::{Color, hex_color, no_color, parse_hex_color};
use crate::groups::{
    default_group_name, lookup_color, named_display_groups, named_groups, str_views, GroupColors,
};
use crate::session::{Session, SessionKind, SessionView, session_views};
use crate::store::{ConfigStore, WslProfile, profile_views};
use crate::text::{chars_eq, chars_of, concat_chars, string_of, trim, trim_chars};

verus! {

/// Copies of the configured WSL profiles, in order.
pub fn wsl_profile_model(store: &ConfigStore) -> (r: Vec<WslProfile>)
    ensures
        profile_views(r@) == profile_views(store.wsl_profiles@),
{
    let n = store.wsl_profiles.len();
    let mut r: Vec<WslProfile> = Vec::new();
    let mut i: usize = 0;
    while i < n
        invariant
            n == store.wsl_profiles@.len(),
            i <= n,
            profile_views(r@) == profile_views(store.wsl_profiles@).take(i as int),
        decreases n - i,
    {
        let p = store.wsl_profiles[i].duplicate();
        let ghost prev = r@;
        r.push(p);
        assert(profile_views(r@) =~= profile_views(prev).push(p@));
        assert(profile_views(r@) =~= profile_views(store.wsl_profiles@).take(i + 1));
        i += 1;
    }
    assert(profile_views(store.wsl_profiles@).take(n as int) =~= profile_views(store.wsl_profiles@));
    r
}

// ---------------------------------------------------------------------------
// Named groups with colour and size
// ---------------------------------------------------------------------------

/// A named group as the group picker shows it.
pub struct GroupEntry {
    pub name: String,
    /// The stored colour text, trimmed; `""` when the group has none.
    pub hex: String,
    pub color: Color,
    /// The number of saved sessions whose group field is exactly `name`.
    pub count: i32,
}

pub struct GroupEntryView {
    pub name: Seq<char>,
    pub hex: Seq<char>,
    pub color: Color,
    pub count: i32,
}

impl View for GroupEntry {
    type V = GroupEntryView;

    open spec fn view(&self) -> GroupEntryView {
        GroupEntryView { name: self.name@, hex: self.hex@, color: self.color, count: self.count }
    }
}

pub open spec fn entry_views(v: Seq<GroupEntry>) -> Seq<GroupEntryView> {
    v.map_values(|e: GroupEntry| e@)
}

/// The colour text the picker shows for a group: the stored one, trimmed.
pub open spec fn entry_hex(colors: Seq<(Seq<char>, Seq<char>)>, name: Seq<char>) -> Seq<char> {
    match lookup_color(colors, name) {
        Some(h) => trim(h),
        None => seq![],
    }
}

/// The number of sessions whose group field is `g`.
pub open spec fn group_count(sessions: Seq<SessionView>, g: Seq<char>) -> nat {
    sessions.filter(|s: SessionView| s.group == g).len()
}

pub open spec fn group_entry(
    colors: Seq<(Seq<char>, Seq<char>)>,
    sessions: Seq<SessionView>,
    name: Seq<char>,
) -> GroupEntryView {
    let hex = entry_hex(colors, name);
    GroupEntryView {
        name,
        hex,
        color: match hex_color(hex) {
            Some(c) => c,
            None => no_color(),
        },
        count: group_count(sessions, name) as i32,
    }
}

/// The named groups of a configuration in stored order.
pub open spec fn store_named_groups(store: &ConfigStore) -> Seq<Seq<char>> {
    named_groups(str_views(store.groups@), session_views(store.sessions@))
}

fn entry_hex_exec(colors: &GroupColors, name: &[char]) -> (r: Vec<char>)
    ensures
        r@ == entry_hex(colors@, name@),
{
    match colors.get(name) {
        Some(h) => {
            let hc = chars_of(h.as_str());
            trim_chars(hc.as_slice())
        },
        None => Vec::new(),
    }
}

fn group_count_exec(sessions: &[Session], g: &[char]) -> (r: usize)
    ensures
        r == group_count(session_views(sessions@), g@),
{
    let ghost all = session_views(sessions@);
    let ghost p = |s: SessionView| s.group == g@;
    let n = sessions.len();
    let mut c: usize = 0;
    let mut i: usize = 0;
    assert(all.take(0).filter(p) =~= Seq::<SessionView>::empty()) by {
        reveal(Seq::filter);
    }
    while i < n
        invariant
            n == sessions@.len(),
            i <= n,
            all == session_views(sessions@),
            p == (|s: SessionView| s.group == g@),
            c == all.take(i as int).filter(p).len(),
            c <= i,
        decreases n - i,
    {
        assert(all.take(i + 1).drop_last() =~= all.take(i as int));
        assert(all.take(i + 1).last() == sessions@[i as int]@);
        assert(all.take(i + 1).filter(p) == if p(sessions@[i as int]@) {
            all.take(i as int).filter(p).push(sessions@[i as int]@)
        } else {
            all.take(i as int).filter(p)
        }) by {
            reveal(Seq::filter);
        }
        let sg = chars_of(sessions[i].group.as_str());
        if chars_eq(sg.as_slice(), g) {
            c += 1;
        }
        i += 1;
    }
    assert(all.take(n as int) =~= all);
    c
}

/// The named groups in stored order, each with its colour text, colour and
/// number of sessions (see [`group_entry`]).
pub fn session_groups_model(store: &ConfigStore) -> (r: Vec<GroupEntry>)
    ensures
        entry_views(r@) == store_named_groups(store).map_values(
            |g: Seq<char>| group_entry(store.group_colors@, session_views(store.sessions@), g),
        ),
{
    let named = named_display_groups(store.groups.as_slice(), store.sessions.as_slice());
    let ghost want = store_named_groups(store).map_values(
        |g: Seq<char>| group_entry(store.group_colors@, session_views(store.sessions@), g),
    );
    let n = named.len();
    let mut r: Vec<GroupEntry> = Vec::new();
    let mut i: usize = 0;
    while i < n
        invariant
            n == named@.len(),
            i <= n,
            str_views(named@) == store_named_groups(store),
            want == store_named_groups(store).map_values(
                |g: Seq<char>| group_entry(store.group_colors@, session_views(store.sessions@), g),
            ),
            entry_views(r@) == want.take(i as int),
        decreases n - i,
    {
        let nc = chars_of(named[i].as_str());
        assert(str_views(named@)[i as int] == named@[i as int]@);
        let hex = entry_hex_exec(&store.group_colors, nc.as_slice());
        let hs = string_of(hex.as_slice());
        let color = match parse_hex_color(hs.as_str()) {
            Some(c) => c,
            None => Color::default(),
        };
        let count = group_count_exec(store.sessions.as_slice(), nc.as_slice());
        let e = GroupEntry { name: named[i].clone(), hex: hs, color, count: count as i32 };
        assert(e@ == group_entry(store.group_colors@, session_views(store.sessions@), named@[i as int]@));
        let ghost prev = r@;
        r.push(e);
        assert(entry_views(r@) =~= entry_views(prev).push(e@));
        assert(entry_views(r@) =~= want.take(i + 1));
        i += 1;
    }
    assert(want.take(n as int) =~= want);
    r
}

/// The targets of "move to group": `default` first, then the named groups
/// in stored order.
pub fn move_target_groups_model(store: &ConfigStore) -> (r: Vec<String>)
    ensures
        str_views(r@) == seq![default_group_name()] + store_named_groups(store),
{
    let named = named_display_groups(store.groups.as_slice(), store.sessions.as_slice());
    let mut r: Vec<String> = Vec::new();
    r.push(string_of(crate::groups::default_group_chars().as_slice()));
    let n = named.len();
    let mut i: usize = 0;
    while i < n
        invariant
            n == named@.len(),
            i <= n,
            str_views(named@) == store_named_groups(store),
            str_views(r@) == seq![default_group_name()] + str_views(named@).take(i as int),
        decreases n - i,
    {
        let c = named[i].clone();
        proof {
            crate::groups::lemma_str_views_push(r@, c);
        }
        r.push(c);
        assert(str_views(r@) =~= seq![default_group_name()] + str_views(named@).take(i + 1));
        i += 1;
    }
    assert(str_views(named@).take(n as int) =~= str_views(named@));
    r
}

// ---------------------------------------------------------------------------
// Jump hosts
// ---------------------------------------------------------------------------

/// A session can be a jump host for the one being edited when it is an SSH
/// session with another id.
pub open spec fn is_jump_candidate(s: SessionView, exclude_id: Seq<char>) -> bool {
    s.kind == SessionKind::Ssh && s.id != exclude_id
}

pub open spec fn jump_pool(sessions: Seq<SessionView>, exclude_id: Seq<char>) -> Seq<SessionView> {
    sessions.filter(|s: SessionView| is_jump_candidate(s, exclude_id))
}

/// The picker's label of a jump host: `name (user@host)`; without a name
/// `user@host`, or just `host` when the user is blank too.
pub open spec fn jump_label(s: SessionView) -> Seq<char> {
    if trim(s.name).len() == 0 {
        if trim(s.user).len() == 0 {
            s.host
        } else {
            s.user + seq!['@'] + s.host
        }
    } else {
        s.name + seq![' ', '('] + s.user + seq!['@'] + s.host + seq![')']
    }
}

/// The position in `pool` of the last session with id `id`, or -1.
pub open spec fn last_with_id(pool: Seq<SessionView>, id: Seq<char>) -> int
    decreases pool.len(),
{
    if pool.len() == 0 {
        -1
    } else if pool.last().id == id {
        pool.len() - 1
    } else {
        last_with_id(pool.drop_last(), id)
    }
}

fn jump_label_exec(s: &Session) -> (r: Vec<char>)
    ensures
        r@ == jump_label(s@),
{
    let name = chars_of(s.name.as_str());
    let user = chars_of(s.user.as_str());
    let host = chars_of(s.host.as_str());
    let tn = trim_chars(name.as_slice());
    let at = vec!['@'];
    assert(at@ =~= seq!['@']);
    if tn.len() == 0 {
        let tu = trim_chars(user.as_slice());
        if tu.len() == 0 {
            host
        } else {
            let a = concat_chars(user.as_slice(), at.as_slice());
            concat_chars(a.as_slice(), host.as_slice())
        }
    } else {
        let open = vec![' ', '('];
        let close = vec![')'];
        assert(open@ =~= seq![' ', '(']);
        assert(close@ =~= seq![')']);
        let a = concat_chars(name.as_slice(), open.as_slice());
        let b = concat_chars(a.as_slice(), user.as_slice());
        let c = concat_chars(b.as_slice(), at.as_slice());
        let d = concat_chars(c.as_slice(), host.as_slice());
        concat_chars(d.as_slice(), close.as_slice())
    }
}

/// The jump-host picker of the session dialog: parallel label and id lists
/// whose first entry is "no jump host" (`none_label`, empty id), followed by
/// the SSH sessions other than `exclude_id` in stored order; and the position
/// of the last of them whose id is `current_jump_id` (0 when none is).
pub fn jump_candidates(
    store: &ConfigStore,
    exclude_id: &str,
    current_jump_id: &str,
    none_label: &str,
) -> (r: (Vec<String>, Vec<String>, i32))
    ensures
        ({
            let pool = jump_pool(session_views(store.sessions@), exclude_id@);
            &&& str_views(r.0@) == seq![none_label@] + pool.map_values(|s: SessionView| jump_label(s))
            &&& str_views(r.1@) == seq![Seq::<char>::empty()] + pool.map_values(|s: SessionView| s.id)
            &&& r.2 == (last_with_id(pool, current_jump_id@) + 1) as i32
        }),
{
    let ghost all = session_views(store.sessions@);
    let ghost p = |s: SessionView| is_jump_candidate(s, exclude_id@);
    let ex = chars_of(exclude_id);
    let cur = chars_of(current_jump_id);
    let mut labels: Vec<String> = Vec::new();
    let mut ids: Vec<String> = Vec::new();
    labels.push(string_of(chars_of(none_label).as_slice()));
    ids.push(String::new());
    let mut selected: i32 = 0;
    let n = store.sessions.len();
    let mut i: usize = 0;
    assert(all.take(0).filter(p) =~= Seq::<SessionView>::empty()) by {
        reveal(Seq::filter);
    }
    assert(str_views(labels@) =~= seq![none_label@] + all.take(0).filter(p).map_values(|s: SessionView| jump_label(s)));
    assert(str_views(ids@) =~= seq![Seq::<char>::empty()] + all.take(0).filter(p).map_values(|s: SessionView| s.id));
    while i < n
        invariant
            n == store.sessions@.len(),
            i <= n,
            all == session_views(store.sessions@),
            p == (|s: SessionView| is_jump_candidate(s, exclude_id@)),
            ex@ == exclude_id@,
            cur@ == current_jump_id@,
            str_views(labels@) == seq![none_label@] + all.take(i as int).filter(p).map_values(
                |s: SessionView| jump_label(s),
            ),
            str_views(ids@) == seq![Seq::<char>::empty()] + all.take(i as int).filter(p).map_values(
                |s: SessionView| s.id,
            ),
            all.take(i as int).filter(p).len() <= i,
            selected == (last_with_id(all.take(i as int).filter(p), current_jump_id@) + 1) as i32,
        decreases n - i,
    {
        let ghost before = all.take(i as int).filter(p);
        let s = &store.sessions[i];
        assert(all.take(i + 1).drop_last() =~= all.take(i as int));
        assert(all.take(i + 1).last() == s@);
        assert(all.take(i + 1).filter(p) == if p(s@) {
            before.push(s@)
        } else {
            before
        }) by {
            reveal(Seq::filter);
        }
        let sid = chars_of(s.id.as_str());
        let is_ssh = match s.kind {
            SessionKind::Ssh => true,
            _ => false,
        };
        if is_ssh && !chars_eq(sid.as_slice(), ex.as_slice()) {
            let label = jump_label_exec(s);
            assert(before.push(s@).drop_last() =~= before);
            assert(str_views(ids@).len() == ids@.len());
            assert(ids@.len() == before.len() + 1);
            if chars_eq(sid.as_slice(), cur.as_slice()) {
                selected = ids.len() as i32;
                assert(last_with_id(before.push(s@), current_jump_id@) == before.len());
            }
            let ls = string_of(label.as_slice());
            let is = s.id.clone();
            proof {
                crate::groups::lemma_str_views_push(labels@, ls);
                crate::groups::lemma_str_views_push(ids@, is);
            }
            labels.push(ls);
            ids.push(is);
            assert(before.push(s@).map_values(|s: SessionView| jump_label(s)) =~= before.map_values(
                |s: SessionView| jump_label(s),
            ).push(jump_label(s@)));
            assert(before.push(s@).map_values(|s: SessionView| s.id) =~= before.map_values(
                |s: SessionView| s.id,
            ).push(s@.id));
            assert(str_views(labels@) =~= seq![none_label@] + before.push(s@).map_values(
                |s: SessionView| jump_label(s),
            ));
            assert(str_views(ids@) =~= seq![Seq::<char>::empty()] + before.push(s@).map_values(
                |s: SessionView| s.id,
            ));
        }
        i += 1;
    }
    assert(all.take(n as int) =~= all);
    (labels, ids, selected)
}

/// No session is offered as its own jump host, and only SSH sessions are
/// offered.
pub proof fn law_jump_hosts_exclude_self(sessions: Seq<SessionView>, exclude_id: Seq<char>, k: int)
    requires
        0 <= k < jump_pool(sessions, exclude_id).len(),
    ensures
        jump_pool(sessions, exclude_id)[k].id != exclude_id,
        jump_pool(sessions, exclude_id)[k].kind == SessionKind::Ssh,
{
    sessions.lemma_filter_pred(|s: SessionView| is_jump_candidate(s, exclude_id), k);
}

/// The selected jump host is the current one: a non-zero selection points
/// at a host whose id is `current_jump_id`, and the selection is 0 only when
/// no offered host has that id.
pub proof fn law_selected_jump_host_is_current(pool: Seq<SessionView>, current_jump_id: Seq<char>)
    ensures
        -1 <= last_with_id(pool, current_jump_id) < pool.len(),
        last_with_id(pool, current_jump_id) >= 0 ==> pool[last_with_id(pool, current_jump_id)].id
            == current_jump_id,
        last_with_id(pool, current_jump_id) == -1 ==> forall|i: int|
            0 <= i < pool.len() ==> #[trigger] pool[i].id != current_jump_id,
    decreases pool.len(),
{
    if pool.len() > 0 && pool.last().id != current_jump_id {
        let t = pool.drop_last();
        law_selected_jump_host_is_current(t, current_jump_id);
        assert forall|i: int| 0 <= i < pool.len() && last_with_id(pool, current_jump_id) == -1 implies
            #[trigger] pool[i].id != current_jump_id by {
            if i < t.len() {
                assert(pool[i] == t[i]);
            }
        }
        if last_with_id(t, current_jump_id) >= 0 {
            assert(pool[last_with_id(t, current_jump_id)] == t[last_with_id(t, current_jump_id)]);
        }
    }
}

} // verus!
