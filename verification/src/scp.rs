//! The computations of the SCP fallback file transfer: quoting of remote
//! names for `/bin/sh`, reading `ls -l` listings, the command lines and
//! record headers of the SCP wire protocol, and the decisions taken on what
//! the remote side sends.

use vstd::prelude::*;
use crate::text::{
    all_digits, before_first, before_first_chars, chars_lt, chars_lt_exec, chars_of, concat_chars,
    join, join_chars, lines, lines_of, lowercase, parse_decimal, parse_decimal_chars, split_ws,
    split_whitespace_of, starts_with, starts_with_chars, string_of, strip_trailing,
    strip_trailing_chars, to_lowercase, views,
};

verus! {

// ---------------------------------------------------------------------------
// Shell quoting
// ---------------------------------------------------------------------------

/// What one character becomes inside single quotes: a quote closes the
/// quoting, is written escaped, and reopens it.
pub open spec fn quote_piece(c: char) -> Seq<char> {
    if c == '\'' {
        seq!['\'', '\\', '\'', '\'']
    } else {
        seq![c]
    }
}

pub open spec fn quote_body(s: Seq<char>) -> Seq<char>
    decreases s.len(),
{
    if s.len() == 0 {
        seq![]
    } else {
        quote_piece(s[0]) + quote_body(s.drop_first())
    }
}

/// `'` + `s` with every `'` replaced by `'\''` + `'`.
pub open spec fn sh_quoted(s: Seq<char>) -> Seq<char> {
    seq!['\''] + quote_body(s) + seq!['\'']
}

/// The value `/bin/sh` gives a word made only of single-quoted runs and
/// backslash-escaped characters; `None` for any other word (an unquoted
/// character, an unterminated quote, a trailing backslash or a
/// backslash-newline). `quoted` tells whether a single quote is open.
pub open spec fn sh_word_value(w: Seq<char>, quoted: bool) -> Option<Seq<char>>
    decreases w.len(),
{
    if w.len() == 0 {
        if quoted {
            None
        } else {
            Some(seq![])
        }
    } else if quoted {
        if w[0] == '\'' {
            sh_word_value(w.drop_first(), false)
        } else {
            match sh_word_value(w.drop_first(), true) {
                Some(r) => Some(seq![w[0]] + r),
                None => None,
            }
        }
    } else if w[0] == '\'' {
        sh_word_value(w.drop_first(), true)
    } else if w[0] == '\\' && w.len() >= 2 && w[1] != '\n' {
        match sh_word_value(w.skip(2), false) {
            Some(r) => Some(seq![w[1]] + r),
            None => None,
        }
    } else {
        None
    }
}

pub proof fn lemma_quote_body_concat(a: Seq<char>, b: Seq<char>)
    ensures
        quote_body(a + b) == quote_body(a) + quote_body(b),
    decreases a.len(),
{
    if a.len() == 0 {
        assert(a + b =~= b);
    } else {
        lemma_quote_body_concat(a.drop_first(), b);
        assert((a + b).drop_first() =~= a.drop_first() + b);
        assert((a + b)[0] == a[0]);
    }
}

proof fn lemma_unquote_body(s: Seq<char>, t: Seq<char>)
    ensures
        sh_word_value(quote_body(s) + seq!['\''] + t, true) == match sh_word_value(t, false) {
            Some(r) => Some(s + r),
            None => None,
        },
    decreases s.len(),
{
    let w = quote_body(s) + seq!['\''] + t;
    if s.len() == 0 {
        assert(w =~= seq!['\''] + t);
        assert(w.drop_first() =~= t);
        match sh_word_value(t, false) {
            Some(r) => {
                assert(s + r =~= r);
            },
            None => {},
        }
    } else {
        let rest = s.drop_first();
        lemma_unquote_body(rest, t);
        let w2 = quote_body(rest) + seq!['\''] + t;
        if s[0] == '\'' {
            assert(w =~= seq!['\'', '\\', '\'', '\''] + w2);
            assert(w.drop_first() =~= seq!['\\', '\'', '\''] + w2);
            let w3 = w.drop_first();
            assert(w3.skip(2) =~= seq!['\''] + w2);
            assert((seq!['\''] + w2).drop_first() =~= w2);
            assert(sh_word_value(seq!['\''] + w2, false) == sh_word_value(w2, true));
            assert(w3[0] == '\\' && w3[1] == '\'');
            assert(sh_word_value(w3, false) == match sh_word_value(w2, true) {
                Some(r) => Some(seq!['\''] + r),
                None => None,
            });
            assert(sh_word_value(w, true) == sh_word_value(w3, false));
        } else {
            assert(w =~= seq![s[0]] + w2);
            assert(w.drop_first() =~= w2);
            assert(sh_word_value(w, true) == match sh_word_value(w2, true) {
                Some(r) => Some(seq![s[0]] + r),
                None => None,
            });
        }
        match sh_word_value(t, false) {
            Some(r) => {
                assert(seq![s[0]] + (rest + r) =~= s + r);
            },
            None => {},
        }
    }
}

/// Quoting is exact: the shell reads the quoted word back as the original
/// text, whatever characters it holds, so no remote name can inject syntax.
pub proof fn law_sh_quote_round_trip(s: Seq<char>)
    ensures
        sh_word_value(sh_quoted(s), false) == Some(s),
{
    let w = sh_quoted(s);
    lemma_unquote_body(s, seq![]);
    assert(w.drop_first() =~= quote_body(s) + seq!['\''] + Seq::<char>::empty());
    assert(s + Seq::<char>::empty() =~= s);
}

/// Single-quotes `s` for safe interpolation into a remote `/bin/sh` command.
pub fn sh_quote(s: &str) -> (r: String)
    ensures
        r@ == sh_quoted(s@),
{
    let c = chars_of(s);
    let n = c.len();
    let mut out: Vec<char> = Vec::new();
    out.push('\'');
    let mut i: usize = 0;
    assert(c@.take(0) =~= Seq::<char>::empty());
    while i < n
        invariant
            n == c@.len(),
            i <= n,
            out@ == seq!['\''] + quote_body(c@.take(i as int)),
        decreases n - i,
    {
        let ch = c[i];
        if ch == '\'' {
            out.push('\'');
            out.push('\\');
            out.push('\'');
            out.push('\'');
        } else {
            out.push(ch);
        }
        proof {
            lemma_quote_body_concat(c@.take(i as int), seq![ch]);
            assert(c@.take(i + 1) =~= c@.take(i as int) + seq![ch]);
            assert(quote_body(seq![ch]) =~= quote_piece(ch)) by {
                assert(seq![ch].drop_first() =~= Seq::<char>::empty());
                assert(quote_body(Seq::<char>::empty()) == Seq::<char>::empty());
                assert(quote_piece(ch) + Seq::<char>::empty() =~= quote_piece(ch));
            }
        }
        assert(out@ =~= seq!['\''] + quote_body(c@.take(i + 1)));
        i += 1;
    }
    out.push('\'');
    assert(c@.take(n as int) =~= c@);
    assert(out@ =~= sh_quoted(c@));
    string_of(out.as_slice())
}


// ---------------------------------------------------------------------------
// Directory listings
// ---------------------------------------------------------------------------

/// One entry of a remote directory.
pub struct RemoteEntry {
    pub name: String,
    pub full_path: String,
    pub is_dir: bool,
    pub size: u64,
    pub modified: u64,
    pub mode: u32,
}

pub struct EntryView {
    pub name: Seq<char>,
    pub full_path: Seq<char>,
    pub is_dir: bool,
    pub size: u64,
    pub modified: u64,
    pub mode: u32,
}

impl View for RemoteEntry {
    type V = EntryView;

    open spec fn view(&self) -> EntryView {
        EntryView {
            name: self.name@,
            full_path: self.full_path@,
            is_dir: self.is_dir,
            size: self.size,
            modified: self.modified,
            mode: self.mode,
        }
    }
}

pub open spec fn entry_views(v: Seq<RemoteEntry>) -> Seq<EntryView> {
    v.map_values(|e: RemoteEntry| e@)
}

pub open spec fn total_prefix() -> Seq<char> {
    seq!['t', 'o', 't', 'a', 'l', ' ']
}

pub open spec fn link_arrow() -> Seq<char> {
    seq![' ', '-', '>', ' ']
}

/// The `total <blocks>` summary line of `ls -l`.
pub open spec fn is_total_line(line: Seq<char>) -> bool {
    starts_with(line, total_prefix()) && all_digits(line.skip(6))
}

/// The entry an `ls -l` line describes, under directory `base`:
/// `<mode> <links> <owner> <group> <size> <month> <day> <time|year> <name>`.
/// The name is everything after the first eight fields (joined by single
/// spaces), cut at ` -> ` for a symbolic link; `.` and `..` are skipped.
/// Links count as directories for navigation; directories have size 0.
pub open spec fn ls_entry(line: Seq<char>, base: Seq<char>) -> Option<EntryView> {
    if line.len() == 0 || is_total_line(line) {
        None
    } else {
        let f = split_ws(line);
        if f.len() < 8 {
            None
        } else {
            let name0 = join(f.skip(8), seq![' ']);
            if name0.len() == 0 || name0 == seq!['.'] || name0 == seq!['.', '.'] {
                None
            } else {
                let name = before_first(name0, link_arrow());
                let is_dir = f[0].len() > 0 && f[0][0] == 'd';
                let is_link = f[0].len() > 0 && f[0][0] == 'l';
                let size: u64 = if is_dir {
                    0
                } else {
                    match parse_decimal(f[4], u64::MAX as nat) {
                        Some(v) => v as u64,
                        None => 0,
                    }
                };
                let full_path = if base.len() == 0 {
                    seq!['/'] + name
                } else {
                    base + seq!['/'] + name
                };
                Some(
                    EntryView {
                        name,
                        full_path,
                        is_dir: is_dir || is_link,
                        size,
                        modified: 0,
                        mode: 0,
                    },
                )
            }
        }
    }
}

/// The entries of the listing lines, in listing order.
pub open spec fn ls_entries(ls: Seq<Seq<char>>, base: Seq<char>) -> Seq<EntryView>
    decreases ls.len(),
{
    if ls.len() == 0 {
        seq![]
    } else {
        match ls_entry(ls.last(), base) {
            Some(e) => ls_entries(ls.drop_last(), base).push(e),
            None => ls_entries(ls.drop_last(), base),
        }
    }
}

/// Directories before files; within each, by lowercase name.
pub open spec fn entry_before(a: EntryView, b: EntryView) -> bool {
    (a.is_dir && !b.is_dir) || (a.is_dir == b.is_dir && chars_lt(lowercase(a.name), lowercase(b.name)))
}

/// Inserts `x` after every element it does not come before.
pub open spec fn insert_sorted(s: Seq<EntryView>, x: EntryView) -> Seq<EntryView>
    decreases s.len(),
{
    if s.len() == 0 {
        seq![x]
    } else if entry_before(x, s.last()) {
        insert_sorted(s.drop_last(), x).push(s.last())
    } else {
        s.push(x)
    }
}

/// Stable sort by [`entry_before`]: entries that compare equal keep their
/// listing order.
pub open spec fn sort_entries(s: Seq<EntryView>) -> Seq<EntryView>
    decreases s.len(),
{
    if s.len() == 0 {
        s
    } else {
        insert_sorted(sort_entries(s.drop_last()), s.last())
    }
}

/// The parsed listing of `dir`: its entries, directories first.
pub open spec fn parsed_listing(text: Seq<char>, dir: Seq<char>) -> Seq<EntryView> {
    sort_entries(ls_entries(lines(text), strip_trailing(dir, '/')))
}

proof fn lemma_insert_sorted_at(s: Seq<EntryView>, x: EntryView, j: int)
    requires
        0 <= j <= s.len(),
        forall|k: int| j <= k < s.len() ==> entry_before(x, #[trigger] s[k]),
        j == 0 || !entry_before(x, s[j - 1]),
    ensures
        insert_sorted(s, x) == s.take(j) + seq![x] + s.skip(j),
    decreases s.len(),
{
    if j == s.len() {
        assert(s.take(j) + seq![x] + s.skip(j) =~= s.push(x));
    } else {
        let t = s.drop_last();
        assert forall|k: int| j <= k < t.len() implies entry_before(x, #[trigger] t[k]) by {
            assert(t[k] == s[k]);
        }
        lemma_insert_sorted_at(t, x, j);
        assert(entry_before(x, s[s.len() - 1]));
        assert(t.take(j) + seq![x] + t.skip(j) + seq![s.last()] =~= s.take(j) + seq![x] + s.skip(j));
    }
}

proof fn lemma_entry_before_order(x: EntryView, y: EntryView, z: EntryView)
    ensures
        entry_before(x, y) ==> !entry_before(y, x),
        entry_before(x, z) ==> entry_before(x, y) || entry_before(y, z),
{
    let (lx, ly, lz) = (lowercase(x.name), lowercase(y.name), lowercase(z.name));
    crate::text::lemma_chars_lt_asymmetric(lx, ly);
    crate::text::lemma_chars_lt_total(lx, ly);
    crate::text::lemma_chars_lt_transitive(ly, lx, lz);
    crate::text::lemma_chars_lt_transitive(lx, lz, ly);
}

/// No entry comes before an earlier one.
pub open spec fn entries_in_order(s: Seq<EntryView>) -> bool {
    forall|i: int, j: int| 0 <= i < j < s.len() ==> !entry_before(#[trigger] s[j], #[trigger] s[i])
}

proof fn lemma_insert_sorted_in_order(s: Seq<EntryView>, x: EntryView)
    requires
        entries_in_order(s),
    ensures
        entries_in_order(insert_sorted(s, x)),
        forall|k: int|
            0 <= k < insert_sorted(s, x).len() ==> #[trigger] insert_sorted(s, x)[k] == x
                || s.contains(insert_sorted(s, x)[k]),
    decreases s.len(),
{
    if s.len() > 0 {
        let last = s.last();
        let t = s.drop_last();
        if entry_before(x, last) {
            lemma_insert_sorted_in_order(t, x);
            let u = insert_sorted(t, x);
            let r = u.push(last);
            assert forall|k: int| 0 <= k < u.len() implies !entry_before(last, #[trigger] u[k]) by {
                if u[k] == x {
                    lemma_entry_before_order(x, last, x);
                } else {
                    assert(t.contains(u[k]));
                    let m = choose|m: int| 0 <= m < t.len() && t[m] == u[k];
                    assert(s[m] == u[k]);
                    assert(s[s.len() - 1] == last);
                }
            }
            assert forall|i: int, j: int| 0 <= i < j < r.len() implies !entry_before(
                #[trigger] r[j],
                #[trigger] r[i],
            ) by {
                if j == r.len() - 1 {
                    assert(r[j] == last);
                    assert(r[i] == u[i]);
                } else {
                    assert(r[j] == u[j]);
                    assert(r[i] == u[i]);
                }
            }
            assert forall|k: int| 0 <= k < r.len() implies #[trigger] r[k] == x || s.contains(r[k]) by {
                if k == r.len() - 1 {
                    assert(s[s.len() - 1] == r[k]);
                } else {
                    assert(r[k] == u[k]);
                    if u[k] != x {
                        assert(t.contains(u[k]));
                        let m = choose|m: int| 0 <= m < t.len() && t[m] == u[k];
                        assert(s[m] == r[k]);
                    }
                }
            }
        } else {
            let r = s.push(x);
            assert forall|i: int, j: int| 0 <= i < j < r.len() implies !entry_before(
                #[trigger] r[j],
                #[trigger] r[i],
            ) by {
                if j == r.len() - 1 {
                    assert(r[j] == x);
                    assert(r[i] == s[i]);
                    if i < s.len() - 1 {
                        lemma_entry_before_order(x, last, s[i]);
                        assert(!entry_before(s[s.len() - 1], s[i]));
                    }
                } else {
                    assert(r[j] == s[j]);
                    assert(r[i] == s[i]);
                }
            }
            assert forall|k: int| 0 <= k < r.len() implies #[trigger] r[k] == x || s.contains(r[k]) by {
                if k < s.len() {
                    assert(r[k] == s[k]);
                }
            }
        }
    }
}

proof fn lemma_sort_entries_in_order(s: Seq<EntryView>)
    ensures
        entries_in_order(sort_entries(s)),
    decreases s.len(),
{
    if s.len() > 0 {
        lemma_sort_entries_in_order(s.drop_last());
        lemma_insert_sorted_in_order(sort_entries(s.drop_last()), s.last());
    }
}

proof fn lemma_insert_sorted_multiset(s: Seq<EntryView>, x: EntryView)
    ensures
        insert_sorted(s, x).to_multiset() == s.to_multiset().insert(x),
    decreases s.len(),
{
    broadcast use vstd::seq_lib::group_to_multiset_ensures;

    if s.len() == 0 {
        assert(seq![x] =~= Seq::<EntryView>::empty().push(x));
        assert(s =~= Seq::<EntryView>::empty());
    } else {
        let t = s.drop_last();
        assert(s =~= t.push(s.last()));
        if entry_before(x, s.last()) {
            lemma_insert_sorted_multiset(t, x);
            assert(insert_sorted(s, x).to_multiset() =~= s.to_multiset().insert(x));
        }
    }
}

proof fn lemma_sort_entries_multiset(s: Seq<EntryView>)
    ensures
        sort_entries(s).to_multiset() == s.to_multiset(),
    decreases s.len(),
{
    broadcast use vstd::seq_lib::group_to_multiset_ensures;

    if s.len() > 0 {
        let t = s.drop_last();
        lemma_sort_entries_multiset(t);
        lemma_insert_sorted_multiset(sort_entries(t), s.last());
        assert(s =~= t.push(s.last()));
    }
}

/// Sorting neither drops nor adds an entry: the parsed listing holds
/// exactly the entries of the listing's lines, each as often as it occurs.
pub proof fn law_listing_keeps_entries(text: Seq<char>, dir: Seq<char>)
    ensures
        parsed_listing(text, dir).to_multiset() == ls_entries(lines(text), strip_trailing(dir, '/')).to_multiset(),
        parsed_listing(text, dir).len() == ls_entries(lines(text), strip_trailing(dir, '/')).len(),
{
    broadcast use vstd::seq_lib::group_to_multiset_ensures;

    let e = ls_entries(lines(text), strip_trailing(dir, '/'));
    lemma_sort_entries_multiset(e);
    vstd::seq_lib::to_multiset_len(e);
    vstd::seq_lib::to_multiset_len(parsed_listing(text, dir));
}

/// Entries of one kind whose names are equal up to case.
pub open spec fn same_sort_key(is_dir: bool, lower: Seq<char>) -> spec_fn(EntryView) -> bool {
    |e: EntryView| e.is_dir == is_dir && lowercase(e.name) == lower
}

proof fn lemma_insert_sorted_filter(s: Seq<EntryView>, x: EntryView, d: bool, n: Seq<char>)
    ensures
        insert_sorted(s, x).filter(same_sort_key(d, n)) == (if same_sort_key(d, n)(x) {
            s.filter(same_sort_key(d, n)).push(x)
        } else {
            s.filter(same_sort_key(d, n))
        }),
    decreases s.len(),
{
    reveal(Seq::filter);
    let p = same_sort_key(d, n);
    if s.len() == 0 {
        assert(seq![x].drop_last() =~= s);
    } else {
        let t = s.drop_last();
        let last = s.last();
        if entry_before(x, last) {
            lemma_insert_sorted_filter(t, x, d, n);
            let u = insert_sorted(t, x);
            assert(u.push(last).drop_last() =~= u);
            crate::text::lemma_chars_lt_asymmetric(lowercase(x.name), lowercase(last.name));
            assert(!(p(x) && p(last)));
            if p(x) {
                assert(s.filter(p) == t.filter(p));
            } else if p(last) {
                assert(s.filter(p) == t.filter(p).push(last));
            }
        } else {
            assert(s.push(x).drop_last() =~= s);
        }
    }
}

proof fn lemma_sort_entries_filter(s: Seq<EntryView>, d: bool, n: Seq<char>)
    ensures
        sort_entries(s).filter(same_sort_key(d, n)) == s.filter(same_sort_key(d, n)),
    decreases s.len(),
{
    reveal(Seq::filter);
    if s.len() > 0 {
        let t = s.drop_last();
        lemma_sort_entries_filter(t, d, n);
        lemma_insert_sorted_filter(sort_entries(t), s.last(), d, n);
    }
}

/// The sort is stable: entries of one kind whose names are equal up to
/// case come in the order the listing gives them.
pub proof fn law_listing_keeps_order_of_equals(text: Seq<char>, dir: Seq<char>, is_dir: bool, lower: Seq<char>)
    ensures
        parsed_listing(text, dir).filter(same_sort_key(is_dir, lower)) == ls_entries(
            lines(text),
            strip_trailing(dir, '/'),
        ).filter(same_sort_key(is_dir, lower)),
{
    lemma_sort_entries_filter(ls_entries(lines(text), strip_trailing(dir, '/')), is_dir, lower);
}

/// The parsed listing is in display order: no file comes before a
/// directory, and among entries of the same kind the lowercase names never
/// go down, so an entry whose lowercase name is smaller comes first,
/// whatever the case of its letters.
pub proof fn law_listing_order(text: Seq<char>, dir: Seq<char>, i: int, j: int)
    requires
        0 <= i < j < parsed_listing(text, dir).len(),
    ensures
        ({
            let a = parsed_listing(text, dir)[i];
            let b = parsed_listing(text, dir)[j];
            &&& a.is_dir || !b.is_dir
            &&& a.is_dir == b.is_dir ==> !chars_lt(lowercase(b.name), lowercase(a.name))
        }),
{
    lemma_sort_entries_in_order(ls_entries(lines(text), strip_trailing(dir, '/')));
    let l = parsed_listing(text, dir);
    assert(!entry_before(l[j], l[i]));
}

fn entry_before_exec(a: &RemoteEntry, ak: &[char], b: &RemoteEntry, bk: &[char]) -> (r: bool)
    requires
        ak@ == lowercase(a.name@),
        bk@ == lowercase(b.name@),
    ensures
        r == entry_before(a@, b@),
{
    (a.is_dir && !b.is_dir) || (a.is_dir == b.is_dir && chars_lt_exec(ak, bk))
}

fn dot_name(n: &[char]) -> (r: bool)
    ensures
        r == (n@.len() == 0 || n@ == seq!['.'] || n@ == seq!['.', '.']),
{
    if n.len() == 0 {
        return true;
    }
    if n.len() == 1 {
        let r = n[0] == '.';
        assert(r ==> n@ =~= seq!['.']);
        return r;
    }
    if n.len() == 2 {
        let r = n[0] == '.' && n[1] == '.';
        assert(r ==> n@ =~= seq!['.', '.']);
        return r;
    }
    false
}

fn all_digits_from(s: &[char], from: usize) -> (r: bool)
    requires
        from <= s@.len(),
    ensures
        r == all_digits(s@.skip(from as int)),
{
    let n = s.len();
    let mut i = from;
    while i < n
        invariant
            from <= i <= n,
            n == s@.len(),
            forall|k: int| from <= k < i ==> crate::text::is_digit(#[trigger] s@[k]),
        decreases n - i,
    {
        if !('0' <= s[i] && s[i] <= '9') {
            assert(s@.skip(from as int)[i - from] == s@[i as int]);
            return false;
        }
        i += 1;
    }
    assert forall|k: int| 0 <= k < s@.skip(from as int).len() implies crate::text::is_digit(
        #[trigger] s@.skip(from as int)[k],
    ) by {
        assert(s@.skip(from as int)[k] == s@[k + from]);
    }
    true
}

/// Reads one `ls -l` line (see [`ls_entry`]).
fn parse_ls_line(line: &[char], base: &[char]) -> (r: Option<RemoteEntry>)
    ensures
        match ls_entry(line@, base@) {
            Some(e) => r is Some && r.unwrap()@ == e,
            None => r is None,
        },
{
    if line.len() == 0 {
        return None;
    }
    let total = vec!['t', 'o', 't', 'a', 'l', ' '];
    assert(total@ =~= total_prefix());
    if starts_with_chars(line, total.as_slice()) && all_digits_from(line, 6) {
        return None;
    }
    let f = split_whitespace_of(line);
    if f.len() < 8 {
        return None;
    }
    let mut rest: Vec<Vec<char>> = Vec::new();
    let nf = f.len();
    let mut k: usize = 8;
    while k < nf
        invariant
            8 <= k <= nf,
            nf == f@.len(),
            views(rest@) == views(f@).subrange(8, k as int),
        decreases nf - k,
    {
        let piece = slice_of_vec(&f[k]);
        proof {
            crate::text::lemma_views_push(rest@, piece);
        }
        rest.push(piece);
        assert(views(f@).subrange(8, k + 1) =~= views(f@).subrange(8, k as int).push(f@[k as int]@));
        k += 1;
    }
    assert(views(f@).subrange(8, nf as int) =~= views(f@).skip(8));
    let space = vec![' '];
    assert(space@ =~= seq![' ']);
    let name0 = join_chars(rest.as_slice(), space.as_slice());
    if dot_name(name0.as_slice()) {
        return None;
    }
    let arrow = vec![' ', '-', '>', ' '];
    assert(arrow@ =~= link_arrow());
    let name = before_first_chars(name0.as_slice(), arrow.as_slice());
    assert(views(f@)[0] == f@[0]@);
    assert(views(f@)[4] == f@[4]@);
    let mode = &f[0];
    let is_dir = mode.len() > 0 && mode[0] == 'd';
    let is_link = mode.len() > 0 && mode[0] == 'l';
    let size: u64 = if is_dir {
        0
    } else {
        match parse_decimal_chars(f[4].as_slice(), u64::MAX) {
            Some(v) => v,
            None => 0,
        }
    };
    let full_path = if base.len() == 0 {
        let slash = vec!['/'];
        concat_chars(slash.as_slice(), name.as_slice())
    } else {
        let slash = vec!['/'];
        let b1 = concat_chars(base, slash.as_slice());
        concat_chars(b1.as_slice(), name.as_slice())
    };
    assert(full_path@ =~= (if base@.len() == 0 {
        seq!['/'] + name@
    } else {
        base@ + seq!['/'] + name@
    }));
    Some(
        RemoteEntry {
            name: string_of(name.as_slice()),
            full_path: string_of(full_path.as_slice()),
            is_dir: is_dir || is_link,
            size,
            modified: 0,
            mode: 0,
        },
    )
}

fn slice_of_vec(v: &Vec<char>) -> (r: Vec<char>)
    ensures
        r@ == v@,
{
    let r = crate::text::slice_of(v.as_slice(), 0, v.len());
    assert(v@.subrange(0, v@.len() as int) =~= v@);
    r
}

proof fn lemma_entry_views_insert(v: Seq<RemoteEntry>, j: int, e: RemoteEntry)
    requires
        0 <= j <= v.len(),
    ensures
        entry_views(v.insert(j, e)) == entry_views(v).take(j) + seq![e@] + entry_views(v).skip(j),
{
    assert(entry_views(v.insert(j, e)) =~= entry_views(v).take(j) + seq![e@] + entry_views(v).skip(j));
}

/// Parses `ls -l` output of directory `dir` (see [`parsed_listing`]).
pub fn parse_ls(text: &str, dir: &str) -> (r: Vec<RemoteEntry>)
    ensures
        entry_views(r@) == parsed_listing(text@, dir@),
{
    let tc = chars_of(text);
    let dc = chars_of(dir);
    let base = strip_trailing_chars(dc.as_slice(), '/');
    let ls = lines_of(tc.as_slice());
    let mut sorted: Vec<RemoteEntry> = Vec::new();
    let mut keys: Vec<Vec<char>> = Vec::new();
    let n = ls.len();
    let mut i: usize = 0;
    assert(views(ls@).take(0) =~= Seq::<Seq<char>>::empty());
    assert(entry_views(sorted@) =~= Seq::<EntryView>::empty());
    while i < n
        invariant
            n == ls@.len(),
            i <= n,
            views(ls@) == lines(text@),
            base@ == strip_trailing(dir@, '/'),
            entry_views(sorted@) == sort_entries(ls_entries(views(ls@).take(i as int), base@)),
            keys@.len() == sorted@.len(),
            forall|k: int| 0 <= k < keys@.len() ==> (#[trigger] keys@[k])@ == lowercase(sorted@[k].name@),
        decreases n - i,
    {
        let ghost prev = ls_entries(views(ls@).take(i as int), base@);
        let ghost t = views(ls@).take(i + 1);
        assert(t.drop_last() =~= views(ls@).take(i as int));
        assert(t.last() == ls@[i as int]@);
        match parse_ls_line(ls[i].as_slice(), base.as_slice()) {
            Some(e) => {
                let lowered = to_lowercase(e.name.as_str());
                let key = chars_of(lowered.as_str());
                let mut j = sorted.len();
                while j > 0 && entry_before_exec(&e, key.as_slice(), &sorted[j - 1], keys[j - 1].as_slice())
                    invariant
                        j <= sorted@.len(),
                        keys@.len() == sorted@.len(),
                        key@ == lowercase(e.name@),
                        forall|k: int| 0 <= k < keys@.len() ==> (#[trigger] keys@[k])@ == lowercase(sorted@[k].name@),
                        forall|k: int| j <= k < sorted@.len() ==> entry_before(e@, #[trigger] entry_views(sorted@)[k]),
                    decreases j,
                {
                    assert(entry_views(sorted@)[j - 1] == sorted@[j - 1]@);
                    j -= 1;
                }
                proof {
                    if j > 0 {
                        assert(entry_views(sorted@)[j - 1] == sorted@[j - 1]@);
                    }
                    lemma_insert_sorted_at(entry_views(sorted@), e@, j as int);
                    lemma_entry_views_insert(sorted@, j as int, e);
                    assert(prev.push(e@).drop_last() =~= prev);
                }
                let ghost old_keys = keys@;
                let ghost old_sorted = sorted@;
                sorted.insert(j, e);
                keys.insert(j, key);
                assert forall|k: int| 0 <= k < keys@.len() implies (#[trigger] keys@[k])@ == lowercase(sorted@[k].name@) by {
                    if k < j {
                        assert(keys@[k] == old_keys[k]);
                        assert(sorted@[k] == old_sorted[k]);
                    } else if k > j {
                        assert(keys@[k] == old_keys[k - 1]);
                        assert(sorted@[k] == old_sorted[k - 1]);
                    }
                }
            },
            None => {},
        }
        i += 1;
    }
    assert(views(ls@).take(n as int) =~= views(ls@));
    sorted
}

// ---------------------------------------------------------------------------
// Remote command lines
// ---------------------------------------------------------------------------

/// Octal digits of `n`, most significant first, without leading zeros.
pub open spec fn octal(n: nat) -> Seq<char>
    decreases n,
{
    if n < 8 {
        seq![(n + 48) as char]
    } else {
        octal(n / 8).push(((n % 8) + 48) as char)
    }
}

fn octal_chars(n: u32) -> (r: Vec<char>)
    ensures
        r@ == octal(n as nat),
    decreases n,
{
    if n < 8 {
        let mut r = Vec::new();
        r.push(crate::text::char_from_ascii((n + 48) as u8));
        assert(r@ =~= octal(n as nat));
        r
    } else {
        let mut r = octal_chars(n / 8);
        r.push(crate::text::char_from_ascii(((n % 8) + 48) as u8));
        r
    }
}

/// `prefix` followed by the quoted `path`.
fn quoted_command(prefix: Vec<char>, path: &str) -> (r: String)
    ensures
        r@ == prefix@ + sh_quoted(path@),
{
    let q = sh_quote(path);
    let qc = chars_of(q.as_str());
    let all = concat_chars(prefix.as_slice(), qc.as_slice());
    string_of(all.as_slice())
}

pub open spec fn ls_l() -> Seq<char> {
    seq!['l', 's', ' ', '-', 'l', ' ']
}

pub open spec fn test_d() -> Seq<char> {
    seq!['t', 'e', 's', 't', ' ', '-', 'd', ' ']
}

pub open spec fn test_e() -> Seq<char> {
    seq!['t', 'e', 's', 't', ' ', '-', 'e', ' ']
}

pub open spec fn scp_source() -> Seq<char> {
    seq!['s', 'c', 'p', ' ', '-', 'f', ' ', '-', '-', ' ']
}

pub open spec fn scp_source_recursive() -> Seq<char> {
    seq!['s', 'c', 'p', ' ', '-', 'r', ' ', '-', 'f', ' ', '-', '-', ' ']
}

pub open spec fn scp_sink() -> Seq<char> {
    seq!['s', 'c', 'p', ' ', '-', 't', ' ', '-', '-', ' ']
}

pub open spec fn rm_rf() -> Seq<char> {
    seq!['r', 'm', ' ', '-', 'r', 'f', ' ', '-', '-', ' ']
}

pub open spec fn mkdir_p() -> Seq<char> {
    seq!['m', 'k', 'd', 'i', 'r', ' ', '-', 'p', ' ', '-', '-', ' ']
}

pub open spec fn touch_cmd() -> Seq<char> {
    seq!['t', 'o', 'u', 'c', 'h', ' ', '-', '-', ' ']
}

pub open spec fn mv_f() -> Seq<char> {
    seq!['m', 'v', ' ', '-', 'f', ' ', '-', '-', ' ']
}

/// `ls -l '<path>'`: the listing of a remote directory.
pub fn scp_list_dir_command(path: &str) -> (r: String)
    ensures
        r@ == ls_l() + sh_quoted(path@),
{
    let p = vec!['l', 's', ' ', '-', 'l', ' '];
    assert(p@ =~= ls_l());
    quoted_command(p, path)
}

/// `test -d '<path>'`: succeeds when the path is a directory.
pub fn scp_is_dir_command(path: &str) -> (r: String)
    ensures
        r@ == test_d() + sh_quoted(path@),
{
    let p = vec!['t', 'e', 's', 't', ' ', '-', 'd', ' '];
    assert(p@ =~= test_d());
    quoted_command(p, path)
}

/// `test -e '<path>'`: succeeds when the path exists.
pub fn scp_exists_command(path: &str) -> (r: String)
    ensures
        r@ == test_e() + sh_quoted(path@),
{
    let p = vec!['t', 'e', 's', 't', ' ', '-', 'e', ' '];
    assert(p@ =~= test_e());
    quoted_command(p, path)
}

/// `scp -f -- '<remote>'`: the remote side sends the file.
pub fn scp_download_command(remote: &str) -> (r: String)
    ensures
        r@ == scp_source() + sh_quoted(remote@),
{
    let p = vec!['s', 'c', 'p', ' ', '-', 'f', ' ', '-', '-', ' '];
    assert(p@ =~= scp_source());
    quoted_command(p, remote)
}

/// `scp -r -f -- '<remote>'`: the remote side sends the directory tree.
pub fn scp_download_dir_command(remote: &str) -> (r: String)
    ensures
        r@ == scp_source_recursive() + sh_quoted(remote@),
{
    let p = vec!['s', 'c', 'p', ' ', '-', 'r', ' ', '-', 'f', ' ', '-', '-', ' '];
    assert(p@ =~= scp_source_recursive());
    quoted_command(p, remote)
}

/// `scp -t -- '<remote>'`: the remote side receives a file.
pub fn scp_upload_command(remote: &str) -> (r: String)
    ensures
        r@ == scp_sink() + sh_quoted(remote@),
{
    let p = vec!['s', 'c', 'p', ' ', '-', 't', ' ', '-', '-', ' '];
    assert(p@ =~= scp_sink());
    quoted_command(p, remote)
}

/// `rm -rf -- '<path>'`.
pub fn scp_delete_command(path: &str) -> (r: String)
    ensures
        r@ == rm_rf() + sh_quoted(path@),
{
    let p = vec!['r', 'm', ' ', '-', 'r', 'f', ' ', '-', '-', ' '];
    assert(p@ =~= rm_rf());
    quoted_command(p, path)
}

/// `mkdir -p -- '<path>'`.
pub fn scp_mkdir_command(path: &str) -> (r: String)
    ensures
        r@ == mkdir_p() + sh_quoted(path@),
{
    let p = vec!['m', 'k', 'd', 'i', 'r', ' ', '-', 'p', ' ', '-', '-', ' '];
    assert(p@ =~= mkdir_p());
    quoted_command(p, path)
}

/// `touch -- '<path>'`.
pub fn scp_touch_command(path: &str) -> (r: String)
    ensures
        r@ == touch_cmd() + sh_quoted(path@),
{
    let p = vec!['t', 'o', 'u', 'c', 'h', ' ', '-', '-', ' '];
    assert(p@ =~= touch_cmd());
    quoted_command(p, path)
}

/// `mv -f -- '<from>' '<to>'`.
pub fn scp_rename_command(from: &str, to: &str) -> (r: String)
    ensures
        r@ == mv_f() + sh_quoted(from@) + seq![' '] + sh_quoted(to@),
{
    let p = vec!['m', 'v', ' ', '-', 'f', ' ', '-', '-', ' '];
    assert(p@ =~= mv_f());
    let first = quoted_command(p, from);
    let mut fc = chars_of(first.as_str());
    fc.push(' ');
    let t = sh_quote(to);
    let tc = chars_of(t.as_str());
    let all = concat_chars(fc.as_slice(), tc.as_slice());
    string_of(all.as_slice())
}

/// `chmod <mode in octal> -- '<path>'`.
pub fn scp_chmod_command(path: &str, mode: u32) -> (r: String)
    ensures
        r@ == seq!['c', 'h', 'm', 'o', 'd', ' '] + octal(mode as nat) + seq![' ', '-', '-', ' '] + sh_quoted(
            path@,
        ),
{
    let p = vec!['c', 'h', 'm', 'o', 'd', ' '];
    let o = octal_chars(mode);
    let mut p2 = concat_chars(p.as_slice(), o.as_slice());
    p2.push(' ');
    p2.push('-');
    p2.push('-');
    p2.push(' ');
    assert(p2@ =~= seq!['c', 'h', 'm', 'o', 'd', ' '] + octal(mode as nat) + seq![' ', '-', '-', ' ']);
    quoted_command(p2, path)
}

// ---------------------------------------------------------------------------
// Outcomes of remote commands
// ---------------------------------------------------------------------------

/// The error of a shell command that exited with `code`:
/// `remote command failed (exit <code>)`, followed by `: <output>` when
/// the trimmed output is not empty.
pub open spec fn shell_failure_message(out: Seq<char>, code: u32) -> Seq<char> {
    let head = seq!['r', 'e', 'm', 'o', 't', 'e', ' ', 'c', 'o', 'm', 'm', 'a', 'n', 'd', ' ', 'f', 'a', 'i', 'l', 'e', 'd', ' ', '(', 'e', 'x', 'i', 't', ' ']
        + crate::text::decimal(code as nat) + seq![')'];
    if crate::text::trim(out).len() == 0 {
        head
    } else {
        head + seq![':', ' '] + crate::text::trim(out)
    }
}

/// The result of a shell command: success on exit status 0, else the
/// error of [`shell_failure_message`].
pub fn run_shell_result(out: &str, code: u32) -> (r: Result<(), String>)
    ensures
        code == 0 ==> r is Ok,
        code != 0 ==> r is Err && r->Err_0@ == shell_failure_message(out@, code),
{
    if code == 0 {
        return Ok(());
    }
    let head = vec!['r', 'e', 'm', 'o', 't', 'e', ' ', 'c', 'o', 'm', 'm', 'a', 'n', 'd', ' ', 'f', 'a', 'i', 'l', 'e', 'd', ' ', '(', 'e', 'x', 'i', 't', ' '];
    let d = crate::text::decimal_chars(code as u64);
    let mut h2 = concat_chars(head.as_slice(), d.as_slice());
    h2.push(')');
    let oc = chars_of(out);
    let t = crate::text::trim_chars(oc.as_slice());
    if t.len() == 0 {
        assert(h2@ =~= shell_failure_message(out@, code));
        Err(string_of(h2.as_slice()))
    } else {
        h2.push(':');
        h2.push(' ');
        let all = concat_chars(h2.as_slice(), t.as_slice());
        assert(all@ =~= shell_failure_message(out@, code));
        Err(string_of(all.as_slice()))
    }
}

/// The listing of `path` from the output and exit status of `ls -l`: the
/// parsed entries on success, else the trimmed output as the error, or
/// `fallback` when it is blank.
pub fn scp_list_dir_result(out: &str, code: u32, path: &str, fallback: &str) -> (r: Result<
    Vec<RemoteEntry>,
    String,
>)
    ensures
        code == 0 ==> r is Ok && entry_views(r->Ok_0@) == parsed_listing(out@, path@),
        code != 0 ==> r is Err && r->Err_0@ == (if crate::text::trim(out@).len() == 0 {
            fallback@
        } else {
            crate::text::trim(out@)
        }),
{
    if code != 0 {
        let oc = chars_of(out);
        let t = crate::text::trim_chars(oc.as_slice());
        if t.len() == 0 {
            return Err(string_of(chars_of(fallback).as_slice()));
        } else {
            return Err(string_of(t.as_slice()));
        }
    }
    Ok(parse_ls(out, path))
}

/// The subdirectories among `entries`, as `(name, full path)` pairs.
pub fn scp_list_dirs_only(entries: &[RemoteEntry]) -> (r: Vec<(String, String)>)
    ensures
        r@.map_values(|p: (String, String)| (p.0@, p.1@)) == entry_views(entries@).filter(
            |e: EntryView| e.is_dir,
        ).map_values(|e: EntryView| (e.name, e.full_path)),
{
    let ghost all = entry_views(entries@);
    let ghost p = |e: EntryView| e.is_dir;
    let ghost f = |e: EntryView| (e.name, e.full_path);
    let ghost g = |q: (String, String)| (q.0@, q.1@);
    let n = entries.len();
    let mut r: Vec<(String, String)> = Vec::new();
    let mut i: usize = 0;
    assert(all.take(0).filter(p) =~= Seq::<EntryView>::empty()) by {
        reveal(Seq::filter);
    }
    assert(r@.map_values(g) =~= all.take(0).filter(p).map_values(f));
    while i < n
        invariant
            n == entries@.len(),
            i <= n,
            all == entry_views(entries@),
            p == (|e: EntryView| e.is_dir),
            f == (|e: EntryView| (e.name, e.full_path)),
            g == (|q: (String, String)| (q.0@, q.1@)),
            r@.map_values(g) == all.take(i as int).filter(p).map_values(f),
        decreases n - i,
    {
        let ghost before = all.take(i as int).filter(p);
        assert(all.take(i + 1).drop_last() =~= all.take(i as int));
        assert(all.take(i + 1).last() == entries@[i as int]@);
        assert(all.take(i + 1).filter(p) == if p(entries@[i as int]@) {
            before.push(entries@[i as int]@)
        } else {
            before
        }) by {
            reveal(Seq::filter);
        }
        if entries[i].is_dir {
            let pair = (entries[i].name.clone(), entries[i].full_path.clone());
            let ghost prev = r@;
            r.push(pair);
            assert(r@.map_values(g) =~= prev.map_values(g).push(g(pair)));
            assert(before.push(entries@[i as int]@).map_values(f) =~= before.map_values(f).push(
                f(entries@[i as int]@),
            ));
        }
        i += 1;
    }
    assert(all.take(n as int) =~= all);
    r
}

} // verus!
