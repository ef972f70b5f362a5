//! Session groups: the reserved group names, the "default" display group,
//! the stored order of named groups, and the per-group colour table.

use vstd::prelude::*;
use crate::color::{Color, hex_color, no_color, parse_hex_color};
use crate::session::{Session, SessionView, session_views};
use crate::text::{chars_eq, chars_of, string_of, trim, trim_chars};

verus! {

pub open spec fn default_group_name() -> Seq<char> {
    seq!['d', 'e', 'f', 'a', 'u', 'l', 't']
}

/// The group of the built-in local terminals.
pub open spec fn system_group_name() -> Seq<char> {
    seq!['s', 'y', 's', 't', 'e', 'm']
}

/// Names that no saved session can use as its own group.
pub open spec fn is_reserved_group(g: Seq<char>) -> bool {
    g == default_group_name() || g == system_group_name()
}

/// A session with this group field is listed under "default": it has no
/// group, or a reserved name (surrounding whitespace ignored).
pub open spec fn in_default_group(group: Seq<char>) -> bool {
    group.len() == 0 || is_reserved_group(trim(group))
}

/// The group a session is shown under.
pub open spec fn display_group(group: Seq<char>) -> Seq<char> {
    if in_default_group(group) {
        default_group_name()
    } else {
        group
    }
}

/// First occurrences only, in order.
pub open spec fn dedup(s: Seq<Seq<char>>) -> Seq<Seq<char>>
    decreases s.len(),
{
    if s.len() == 0 {
        s
    } else {
        let d = dedup(s.drop_last());
        if d.contains(s.last()) {
            d
        } else {
            d.push(s.last())
        }
    }
}

/// The views of a sequence of strings.
pub open spec fn str_views(v: Seq<String>) -> Seq<Seq<char>> {
    v.map_values(|s: String| s@)
}

/// The group fields of a sequence of sessions.
pub open spec fn group_fields(s: Seq<SessionView>) -> Seq<Seq<char>> {
    s.map_values(|x: SessionView| x.group)
}

/// The named (non-default) groups in stored order: the explicit folders,
/// then the groups of sessions that are not folders yet, each once.
pub open spec fn named_groups(groups: Seq<Seq<char>>, sessions: Seq<SessionView>) -> Seq<Seq<char>> {
    dedup((groups + group_fields(sessions)).filter(|g: Seq<char>| !in_default_group(g)))
}

pub fn default_group_chars() -> (r: Vec<char>)
    ensures
        r@ == default_group_name(),
{
    let r = vec!['d', 'e', 'f', 'a', 'u', 'l', 't'];
    assert(r@ =~= default_group_name());
    r
}

pub fn system_group_chars() -> (r: Vec<char>)
    ensures
        r@ == system_group_name(),
{
    let r = vec!['s', 'y', 's', 't', 'e', 'm'];
    assert(r@ =~= system_group_name());
    r
}

pub fn is_reserved_session_group(g: &[char]) -> (r: bool)
    ensures
        r == is_reserved_group(g@),
{
    let d = default_group_chars();
    let s = system_group_chars();
    chars_eq(g, d.as_slice()) || chars_eq(g, s.as_slice())
}

pub fn is_in_default_group(group: &str) -> (r: bool)
    ensures
        r == in_default_group(group@),
{
    let g = chars_of(group);
    if g.len() == 0 {
        return true;
    }
    let t = trim_chars(g.as_slice());
    is_reserved_session_group(t.as_slice())
}

/// The group a session is shown under (`"default"` for ungrouped ones).
pub fn display_group_of(session: &Session) -> (r: String)
    ensures
        r@ == display_group(session.group@),
{
    if is_in_default_group(session.group.as_str()) {
        let d = default_group_chars();
        string_of(d.as_slice())
    } else {
        session.group.clone()
    }
}

/// Whether `x` is among `v`.
pub fn contains_string(v: &[String], x: &[char]) -> (r: bool)
    ensures
        r == str_views(v@).contains(x@),
{
    let n = v.len();
    let mut i: usize = 0;
    while i < n
        invariant
            n == v@.len(),
            i <= n,
            forall|k: int| 0 <= k < i ==> v@[k]@ != x@,
        decreases n - i,
    {
        let c = chars_of(v[i].as_str());
        if chars_eq(c.as_slice(), x) {
            assert(str_views(v@)[i as int] == x@);
            return true;
        }
        i += 1;
    }
    assert forall|k: int| 0 <= k < str_views(v@).len() implies str_views(v@)[k] != x@ by {
        assert(str_views(v@)[k] == v@[k]@);
    }
    false
}

pub proof fn lemma_str_views_push(v: Seq<String>, s: String)
    ensures
        str_views(v.push(s)) == str_views(v).push(s@),
{
    assert(str_views(v.push(s)) =~= str_views(v).push(s@));
}

/// Adds `g` to `out` unless it is already there.
pub fn push_unique(out: &mut Vec<String>, g: &String)
    ensures
        str_views(final(out)@) == if str_views(old(out)@).contains(g@) {
            str_views(old(out)@)
        } else {
            str_views(old(out)@).push(g@)
        },
{
    let gc = chars_of(g.as_str());
    if !contains_string(out.as_slice(), gc.as_slice()) {
        let c = g.clone();
        proof {
            lemma_str_views_push(out@, c);
        }
        out.push(c);
    }
}

/// Keeps the first occurrence of every name, in order.
pub fn dedup_strings(v: &[String]) -> (r: Vec<String>)
    ensures
        str_views(r@) == dedup(str_views(v@)),
{
    let n = v.len();
    let mut out: Vec<String> = Vec::new();
    let mut i: usize = 0;
    assert(str_views(v@).take(0) =~= Seq::<Seq<char>>::empty());
    while i < n
        invariant
            n == v@.len(),
            i <= n,
            str_views(out@) == dedup(str_views(v@).take(i as int)),
        decreases n - i,
    {
        assert(str_views(v@).take(i + 1).drop_last() =~= str_views(v@).take(i as int));
        assert(str_views(v@).take(i + 1).last() == v@[i as int]@);
        push_unique(&mut out, &v[i]);
        i += 1;
    }
    assert(str_views(v@).take(n as int) =~= str_views(v@));
    out
}

/// The named groups in stored order (see [`named_groups`]).
pub fn named_display_groups(groups: &[String], sessions: &[Session]) -> (r: Vec<String>)
    ensures
        str_views(r@) == named_groups(str_views(groups@), session_views(sessions@)),
{
    let ghost all = str_views(groups@) + group_fields(session_views(sessions@));
    let ghost p = |g: Seq<char>| !in_default_group(g);
    let mut out: Vec<String> = Vec::new();
    let ng = groups.len();
    let mut i: usize = 0;
    assert(all.take(0).filter(p) =~= Seq::<Seq<char>>::empty()) by {
        reveal(Seq::filter);
    }
    while i < ng
        invariant
            ng == groups@.len(),
            i <= ng,
            all == str_views(groups@) + group_fields(session_views(sessions@)),
            p == (|g: Seq<char>| !in_default_group(g)),
            str_views(out@) == dedup(all.take(i as int).filter(p)),
        decreases ng - i,
    {
        assert(all.take(i + 1).drop_last() =~= all.take(i as int));
        assert(all.take(i + 1).last() == groups@[i as int]@);
        assert(all.take(i + 1).filter(p) == if p(groups@[i as int]@) {
            all.take(i as int).filter(p).push(groups@[i as int]@)
        } else {
            all.take(i as int).filter(p)
        }) by {
            reveal(Seq::filter);
        }
        proof {
            let f = all.take(i as int).filter(p);
            assert(f.push(groups@[i as int]@).drop_last() =~= f);
        }
        if !is_in_default_group(groups[i].as_str()) {
            push_unique(&mut out, &groups[i]);
        }
        i += 1;
    }
    let ns = sessions.len();
    let mut j: usize = 0;
    while j < ns
        invariant
            ng == groups@.len(),
            ns == sessions@.len(),
            j <= ns,
            all == str_views(groups@) + group_fields(session_views(sessions@)),
            all.len() == ng + ns,
            p == (|g: Seq<char>| !in_default_group(g)),
            str_views(out@) == dedup(all.take(ng + j).filter(p)),
        decreases ns - j,
    {
        let ghost k = ng + j;
        assert(all.take(k + 1).drop_last() =~= all.take(k));
        assert(all.take(k + 1).last() == sessions@[j as int].group@);
        assert(all.take(k + 1).filter(p) == if p(sessions@[j as int].group@) {
            all.take(k).filter(p).push(sessions@[j as int].group@)
        } else {
            all.take(k).filter(p)
        }) by {
            reveal(Seq::filter);
        }
        proof {
            let f = all.take(k).filter(p);
            assert(f.push(sessions@[j as int].group@).drop_last() =~= f);
        }
        if !is_in_default_group(sessions[j].group.as_str()) {
            push_unique(&mut out, &sessions[j].group);
        }
        j += 1;
    }
    assert(all.take(ng + ns) =~= all);
    out
}

/// The colour table of the groups: group name to hex text, each name at
/// most once.
pub struct GroupColors {
    entries: Vec<(String, String)>,
}

pub open spec fn color_entries(v: Seq<(String, String)>) -> Seq<(Seq<char>, Seq<char>)> {
    v.map_values(|e: (String, String)| (e.0@, e.1@))
}

/// No group name occurs twice.
pub open spec fn names_unique(e: Seq<(Seq<char>, Seq<char>)>) -> bool {
    forall|i: int, j: int| 0 <= i < j < e.len() ==> e[i].0 != e[j].0
}

/// The hex text stored for `name`, if any.
pub open spec fn lookup_color(entries: Seq<(Seq<char>, Seq<char>)>, name: Seq<char>) -> Option<Seq<char>>
    decreases entries.len(),
{
    if entries.len() == 0 {
        None
    } else if entries[0].0 == name {
        Some(entries[0].1)
    } else {
        lookup_color(entries.drop_first(), name)
    }
}

proof fn lemma_lookup_at(e: Seq<(Seq<char>, Seq<char>)>, name: Seq<char>, i: int)
    requires
        names_unique(e),
        0 <= i < e.len(),
        e[i].0 == name,
    ensures
        lookup_color(e, name) == Some(e[i].1),
    decreases e.len(),
{
    if i > 0 {
        assert(e[0].0 != name);
        let t = e.drop_first();
        assert(t[i - 1] == e[i]);
        lemma_lookup_at(t, name, i - 1);
    }
}

proof fn lemma_lookup_absent(e: Seq<(Seq<char>, Seq<char>)>, name: Seq<char>)
    requires
        forall|i: int| 0 <= i < e.len() ==> #[trigger] e[i].0 != name,
    ensures
        lookup_color(e, name) is None,
    decreases e.len(),
{
    if e.len() > 0 {
        let t = e.drop_first();
        assert forall|i: int| 0 <= i < t.len() implies #[trigger] t[i].0 != name by {
            assert(t[i] == e[i + 1]);
        }
        lemma_lookup_absent(t, name);
    }
}

/// What a table of unique names gives for every name: the text of the
/// entry with that name, `None` when there is none.
proof fn lemma_lookup(e: Seq<(Seq<char>, Seq<char>)>, name: Seq<char>)
    requires
        names_unique(e),
    ensures
        (exists|i: int| 0 <= i < e.len() && e[i].0 == name) ==> lookup_color(e, name) == Some(
            e[choose|i: int| 0 <= i < e.len() && e[i].0 == name].1,
        ),
        (forall|i: int| 0 <= i < e.len() ==> #[trigger] e[i].0 != name) ==> lookup_color(e, name) is None,
{
    if exists|i: int| 0 <= i < e.len() && e[i].0 == name {
        let i = choose|i: int| 0 <= i < e.len() && e[i].0 == name;
        lemma_lookup_at(e, name, i);
    } else {
        lemma_lookup_absent(e, name);
    }
}

impl View for GroupColors {
    type V = Seq<(Seq<char>, Seq<char>)>;

    closed spec fn view(&self) -> Seq<(Seq<char>, Seq<char>)> {
        color_entries(self.entries@)
    }
}

impl GroupColors {
    #[verifier::type_invariant]
    spec fn names_once(self) -> bool {
        names_unique(color_entries(self.entries@))
    }

    /// An empty table.
    pub fn new() -> (r: GroupColors)
        ensures
            r@ == Seq::<(Seq<char>, Seq<char>)>::empty(),
    {
        let r = GroupColors { entries: Vec::new() };
        assert(color_entries(r.entries@) =~= Seq::<(Seq<char>, Seq<char>)>::empty());
        r
    }

    /// Sets the hex text of `name`, replacing the old one; every other name
    /// keeps its text.
    pub fn insert(&mut self, name: String, hex: String)
        ensures
            names_unique(final(self)@),
            forall|n: Seq<char>|
                #[trigger] lookup_color(final(self)@, n) == if n == name@ {
                    Some(hex@)
                } else {
                    lookup_color(old(self)@, n)
                },
    {
        proof {
            use_type_invariant(&*self);
        }
        let ghost before = self@;
        let key = chars_of(name.as_str());
        let n = self.entries.len();
        let mut i: usize = 0;
        while i < n
            invariant
                n == self.entries@.len(),
                i <= n,
                key@ == name@,
                before == color_entries(self.entries@),
                forall|k: int| 0 <= k < i ==> #[trigger] before[k].0 != name@,
            ensures
                i <= n,
                before == color_entries(self.entries@),
                i < n ==> before[i as int].0 == name@,
                forall|k: int| 0 <= k < i ==> #[trigger] before[k].0 != name@,
            decreases n - i,
        {
            assert(before[i as int] == (self.entries@[i as int].0@, self.entries@[i as int].1@));
            let k = chars_of(self.entries[i].0.as_str());
            if chars_eq(k.as_slice(), key.as_slice()) {
                break;
            }
            i += 1;
        }
        let ghost pos = i;
        let mut entries: Vec<(String, String)> = Vec::new();
        std::mem::swap(&mut entries, &mut self.entries);
        assert(color_entries(entries@) == before);
        if i < n {
            entries.set(i, (name, hex));
        } else {
            entries.push((name, hex));
        }
        let ghost after = color_entries(entries@);
        proof {
            if pos < n {
                assert(before[pos as int].0 == name@);
                assert(after =~= before.update(pos as int, (name@, hex@)));
            } else {
                assert(after =~= before.push((name@, hex@)));
            }
            assert(names_unique(after)) by {
                assert forall|a: int, b: int| 0 <= a < b < after.len() implies after[a].0 != after[b].0 by {
                    if pos < n {
                        if a != pos && b != pos {
                            assert(after[a] == before[a] && after[b] == before[b]);
                        } else if a == pos {
                            assert(before[a].0 == name@);
                            assert(after[b] == before[b]);
                        } else {
                            assert(before[b].0 == name@);
                            assert(after[a] == before[a]);
                        }
                    } else if b == before.len() {
                        assert(after[a] == before[a]);
                    } else {
                        assert(after[a] == before[a] && after[b] == before[b]);
                    }
                }
            }
            assert forall|m: Seq<char>| #[trigger] lookup_color(after, m) == if m == name@ {
                Some(hex@)
            } else {
                lookup_color(before, m)
            } by {
                lemma_lookup(after, m);
                lemma_lookup(before, m);
                if m == name@ {
                    let at: int = if pos < n { pos as int } else { before.len() as int };
                    assert(after[at].0 == name@);
                    lemma_lookup_at(after, m, at);
                } else {
                    if exists|j: int| 0 <= j < before.len() && before[j].0 == m {
                        let j = choose|j: int| 0 <= j < before.len() && before[j].0 == m;
                        assert(after[j] == before[j]);
                        lemma_lookup_at(after, m, j);
                        lemma_lookup_at(before, m, j);
                    } else {
                        assert forall|j: int| 0 <= j < after.len() implies #[trigger] after[j].0 != m by {
                            if j < before.len() && j != pos {
                                assert(after[j] == before[j]);
                            }
                        }
                        lemma_lookup_absent(after, m);
                        assert forall|j: int| 0 <= j < before.len() implies #[trigger] before[j].0 != m by {}
                        lemma_lookup_absent(before, m);
                    }
                }
            }
        }
        self.entries = entries;
    }

    /// The hex text stored for `name`.
    pub fn get(&self, name: &[char]) -> (r: Option<String>)
        ensures
            match lookup_color(self@, name@) {
                Some(h) => r is Some && r.unwrap()@ == h,
                None => r is None,
            },
    {
        let n = self.entries.len();
        let mut i: usize = 0;
        assert(self@.skip(0) =~= self@);
        while i < n
            invariant
                n == self.entries@.len(),
                i <= n,
                self@ == color_entries(self.entries@),
                lookup_color(self@, name@) == lookup_color(self@.skip(i as int), name@),
            decreases n - i,
        {
            let ghost rest = self@.skip(i as int);
            assert(rest[0] == (self.entries@[i as int].0@, self.entries@[i as int].1@));
            assert(rest.drop_first() =~= self@.skip(i + 1));
            let k = chars_of(self.entries[i].0.as_str());
            if chars_eq(k.as_slice(), name) {
                return Some(self.entries[i].1.clone());
            }
            i += 1;
        }
        None
    }
}


/// The colour of a group on the session list and the hex text it came
/// from; `(no colour, "")` for the empty name, an unset or empty entry, or
/// text that is not a colour.
pub open spec fn row_group_color(entries: Seq<(Seq<char>, Seq<char>)>, g: Seq<char>) -> (Color, Seq<char>) {
    if g.len() == 0 {
        (no_color(), seq![])
    } else {
        match lookup_color(entries, g) {
            Some(h) => if h.len() > 0 {
                match hex_color(h) {
                    Some(c) => (c, h),
                    None => (no_color(), seq![]),
                }
            } else {
                (no_color(), seq![])
            },
            None => (no_color(), seq![]),
        }
    }
}

/// The colour of a group on the session list (see [`row_group_color`]).
pub fn group_color(colors: &GroupColors, g: &[char]) -> (r: (Color, String))
    ensures
        (r.0, r.1@) == row_group_color(colors@, g@),
{
    if g.len() == 0 {
        return (Color::default(), String::new());
    }
    match colors.get(g) {
        Some(h) => {
            if h.as_str().is_empty() {
                (Color::default(), String::new())
            } else {
                match parse_hex_color(h.as_str()) {
                    Some(c) => (c, h),
                    None => (Color::default(), String::new()),
                }
            }
        },
        None => (Color::default(), String::new()),
    }
}

// ---------------------------------------------------------------------------
// Laws
// ---------------------------------------------------------------------------

/// First occurrences are unique and come from the sequence.
pub proof fn lemma_dedup_unique(s: Seq<Seq<char>>)
    ensures
        forall|i: int, j: int| 0 <= i < j < dedup(s).len() ==> dedup(s)[i] != dedup(s)[j],
        forall|i: int| 0 <= i < dedup(s).len() ==> s.contains(#[trigger] dedup(s)[i]),
    decreases s.len(),
{
    if s.len() > 0 {
        let t = s.drop_last();
        lemma_dedup_unique(t);
        let d = dedup(t);
        assert forall|i: int| 0 <= i < dedup(s).len() implies s.contains(#[trigger] dedup(s)[i]) by {
            if i < d.len() {
                let k = choose|k: int| 0 <= k < t.len() && t[k] == d[i];
                assert(s[k] == t[k]);
            } else {
                assert(s[s.len() - 1] == s.last());
            }
        }
    }
}

/// The named groups are listed once each, and none of them is empty or a
/// reserved name: those sessions are shown under "default".
pub proof fn law_named_groups_unique(groups: Seq<Seq<char>>, sessions: Seq<SessionView>)
    ensures
        forall|i: int, j: int|
            0 <= i < j < named_groups(groups, sessions).len() ==> named_groups(groups, sessions)[i]
                != named_groups(groups, sessions)[j],
        forall|i: int|
            0 <= i < named_groups(groups, sessions).len() ==> !in_default_group(
                #[trigger] named_groups(groups, sessions)[i],
            ),
{
    let p = |g: Seq<char>| !in_default_group(g);
    let f = (groups + group_fields(sessions)).filter(p);
    lemma_dedup_unique(f);
    assert forall|i: int| 0 <= i < named_groups(groups, sessions).len() implies !in_default_group(
        #[trigger] named_groups(groups, sessions)[i],
    ) by {
        let x = named_groups(groups, sessions)[i];
        assert(f.contains(x));
        let k = choose|k: int| 0 <= k < f.len() && f[k] == x;
        (groups + group_fields(sessions)).lemma_filter_pred(p, k);
    }
}

} // verus!
