//! Bulk import of SSH sessions from text, one `host|port|user|password|name`
//! line per session.

use vstd::prelude::*;
use crate::ids::is_uuid_v4_text;
use crate::session::{Session, SessionView, fresh_session, AuthMethod};
use crate::text::{
    chars_of, concat_chars, eq_ignore_ascii_case, eq_ignore_ascii_case_chars, lines, lines_of,
    parse_decimal, parse_decimal_chars, splitn, splitn_of, string_of, trim, trim_chars, views,
};

verus! {

/// What one import line yields.
pub struct ImportedView {
    pub name: Seq<char>,
    pub host: Seq<char>,
    pub port: u16,
    pub user: Seq<char>,
    pub password: Seq<char>,
}

pub open spec fn trim_all(parts: Seq<Seq<char>>) -> Seq<Seq<char>> {
    parts.map_values(|p: Seq<char>| trim(p))
}

pub open spec fn host_word() -> Seq<char> {
    seq!['h', 'o', 's', 't']
}

pub open spec fn root_user() -> Seq<char> {
    seq!['r', 'o', 'o', 't']
}

/// One line of the import text. Blank lines, `#` comments, lines without a
/// host and a `host|...` header line are skipped. Fields are trimmed; the
/// name field may itself hold `|`. A missing, zero or unreadable port is 22,
/// a missing user is `root`, a missing name is `user@host`.
pub open spec fn import_line(raw: Seq<char>) -> Option<ImportedView> {
    let line = trim(raw);
    if line.len() == 0 || line[0] == '#' {
        None
    } else {
        let parts = trim_all(splitn(line, 5, '|'));
        let host = parts[0];
        if host.len() == 0 || eq_ignore_ascii_case(host, host_word()) {
            None
        } else {
            let port: u16 = if parts.len() > 1 {
                match parse_decimal(parts[1], 65535) {
                    Some(p) => if p > 0 {
                        p as u16
                    } else {
                        22
                    },
                    None => 22,
                }
            } else {
                22
            };
            let user = if parts.len() > 2 && parts[2].len() > 0 {
                parts[2]
            } else {
                root_user()
            };
            let password = if parts.len() > 3 {
                parts[3]
            } else {
                seq![]
            };
            let name = if parts.len() > 4 && parts[4].len() > 0 {
                parts[4]
            } else {
                user + seq!['@'] + host
            };
            Some(ImportedView { name, host, port, user, password })
        }
    }
}

/// The imported entries of the given lines, in order.
pub open spec fn imported(ls: Seq<Seq<char>>) -> Seq<ImportedView>
    decreases ls.len(),
{
    if ls.len() == 0 {
        seq![]
    } else {
        match import_line(ls.last()) {
            Some(e) => imported(ls.drop_last()).push(e),
            None => imported(ls.drop_last()),
        }
    }
}

/// The session an imported entry becomes, under identifier `id`: a password
/// SSH session with every other field fresh.
pub open spec fn imported_session(e: ImportedView, id: Seq<char>) -> SessionView {
    SessionView {
        name: e.name,
        host: e.host,
        port: e.port,
        user: e.user,
        auth: AuthMethod::Password,
        password: e.password,
        ..fresh_session(id)
    }
}

/// The fields of an imported line: the host as given; the user as given,
/// or `root` when it gives none; an entry without a name field (or with an
/// empty one) is named after its own user and host, `user@host`; a port
/// that does not read as a positive number is 22; a missing password is
/// empty.
pub proof fn law_default_name_is_user_at_host(raw: Seq<char>)
    requires
        import_line(raw) is Some,
    ensures
        ({
            let parts = trim_all(splitn(trim(raw), 5, '|'));
            let e = import_line(raw).unwrap();
            &&& e.host == parts[0]
            &&& (parts.len() > 2 && parts[2].len() > 0 ==> e.user == parts[2])
            &&& (!(parts.len() > 2 && parts[2].len() > 0) ==> e.user == root_user())
            &&& (parts.len() <= 4 || parts[4].len() == 0 ==> e.name == e.user + seq!['@'] + e.host)
            &&& (parts.len() > 4 && parts[4].len() > 0 ==> e.name == parts[4])
            &&& (parts.len() > 1 && parse_decimal(parts[1], 65535) is Some
                && parse_decimal(parts[1], 65535).unwrap() > 0 ==> e.port == parse_decimal(
                parts[1],
                65535,
            ).unwrap())
            &&& (!(parts.len() > 1 && parse_decimal(parts[1], 65535) is Some
                && parse_decimal(parts[1], 65535).unwrap() > 0) ==> e.port == 22)
            &&& e.password == (if parts.len() > 3 {
                parts[3]
            } else {
                Seq::<char>::empty()
            })
        }),
{
}

pub proof fn lemma_splitn_nonempty(s: Seq<char>, n: nat, c: char)
    requires
        n > 0,
    ensures
        splitn(s, n, c).len() >= 1,
    decreases n,
{
    if n > 1 {
        let k = crate::text::index_of(s, c);
        if k < s.len() {
            lemma_splitn_nonempty(s.skip(k as int + 1), (n - 1) as nat, c);
        }
    }
}

fn trim_parts(parts: &[Vec<char>]) -> (r: Vec<Vec<char>>)
    ensures
        views(r@) == trim_all(views(parts@)),
{
    let n = parts.len();
    let mut r: Vec<Vec<char>> = Vec::new();
    let mut i: usize = 0;
    while i < n
        invariant
            n == parts@.len(),
            i <= n,
            views(r@) == trim_all(views(parts@)).take(i as int),
        decreases n - i,
    {
        let t = trim_chars(parts[i].as_slice());
        proof {
            crate::text::lemma_views_push(r@, t);
        }
        r.push(t);
        assert(trim_all(views(parts@)).take(i + 1) =~= trim_all(views(parts@)).take(i as int).push(
            trim(parts@[i as int]@),
        ));
        i += 1;
    }
    assert(trim_all(views(parts@)).take(n as int) =~= trim_all(views(parts@)));
    r
}

/// Reads one import line (see [`import_line`]).
fn import_one(raw: &[char]) -> (r: Option<Session>)
    ensures
        match import_line(raw@) {
            Some(e) => r is Some && r.unwrap()@ == imported_session(e, r.unwrap().id@)
                && is_uuid_v4_text(r.unwrap().id@),
            None => r is None,
        },
{
    let line = trim_chars(raw);
    if line.len() == 0 || line[0] == '#' {
        return None;
    }
    let raw_parts = splitn_of(line.as_slice(), 5, '|');
    let parts = trim_parts(raw_parts.as_slice());
    proof {
        lemma_splitn_nonempty(line@, 5, '|');
    }
    assert(views(parts@)[0] == parts@[0]@);
    let host = &parts[0];
    let hw = vec!['h', 'o', 's', 't'];
    assert(hw@ =~= host_word());
    if host.len() == 0 || eq_ignore_ascii_case_chars(host.as_slice(), hw.as_slice()) {
        return None;
    }
    let port: u16 = if parts.len() > 1 {
        assert(views(parts@)[1] == parts@[1]@);
        match parse_decimal_chars(parts[1].as_slice(), 65535) {
            Some(p) => if p > 0 {
                p as u16
            } else {
                22
            },
            None => 22,
        }
    } else {
        22
    };
    let root = vec!['r', 'o', 'o', 't'];
    assert(root@ =~= root_user());
    let user: Vec<char> = if parts.len() > 2 && parts[2].len() > 0 {
        assert(views(parts@)[2] == parts@[2]@);
        concat_chars(parts[2].as_slice(), Vec::<char>::new().as_slice())
    } else {
        root
    };
    let password: Vec<char> = if parts.len() > 3 {
        assert(views(parts@)[3] == parts@[3]@);
        concat_chars(parts[3].as_slice(), Vec::<char>::new().as_slice())
    } else {
        Vec::new()
    };
    let name: Vec<char> = if parts.len() > 4 && parts[4].len() > 0 {
        assert(views(parts@)[4] == parts@[4]@);
        concat_chars(parts[4].as_slice(), Vec::<char>::new().as_slice())
    } else {
        let at = vec!['@'];
        let u1 = concat_chars(user.as_slice(), at.as_slice());
        assert(at@ =~= seq!['@']);
        concat_chars(u1.as_slice(), host.as_slice())
    };
    assert(parts@.len() > 2 && parts@[2]@.len() > 0 ==> user@ =~= parts@[2]@);
    assert(parts@.len() > 3 ==> password@ =~= parts@[3]@);
    assert(parts@.len() > 4 && parts@[4]@.len() > 0 ==> name@ =~= parts@[4]@);
    assert(parts@.len() <= 3 ==> password@ =~= Seq::<char>::empty());
    let mut sess = Session::new_empty();
    sess.name = string_of(name.as_slice());
    sess.host = string_of(host.as_slice());
    sess.port = port;
    sess.user = string_of(user.as_slice());
    sess.auth = AuthMethod::Password;
    if password.len() > 0 {
        sess.password = string_of(password.as_slice());
    }
    assert(sess@ =~= imported_session(import_line(raw@).unwrap(), sess.id@));
    Some(sess)
}

/// Sessions from bulk-import text, one per accepted line (see
/// [`import_line`]), each under a fresh identifier.
pub fn parse_batch_import(text: &str) -> (out: Vec<Session>)
    ensures
        out@.len() == imported(lines(text@)).len(),
        forall|k: int|
            0 <= k < out@.len() ==> (#[trigger] out@[k])@ == imported_session(
                imported(lines(text@))[k],
                out@[k].id@,
            ) && is_uuid_v4_text(out@[k].id@),
{
    let tc = chars_of(text);
    let ls = lines_of(tc.as_slice());
    let mut out: Vec<Session> = Vec::new();
    let n = ls.len();
    let mut i: usize = 0;
    assert(views(ls@).take(0) =~= Seq::<Seq<char>>::empty());
    while i < n
        invariant
            n == ls@.len(),
            i <= n,
            views(ls@) == lines(text@),
            out@.len() == imported(views(ls@).take(i as int)).len(),
            forall|k: int|
                0 <= k < out@.len() ==> (#[trigger] out@[k])@ == imported_session(
                    imported(views(ls@).take(i as int))[k],
                    out@[k].id@,
                ) && is_uuid_v4_text(out@[k].id@),
        decreases n - i,
    {
        let ghost t = views(ls@).take(i + 1);
        let ghost prev = imported(views(ls@).take(i as int));
        assert(t.drop_last() =~= views(ls@).take(i as int));
        assert(t.last() == ls@[i as int]@);
        match import_one(ls[i].as_slice()) {
            Some(s) => {
                out.push(s);
                assert(imported(t) == prev.push(import_line(ls@[i as int]@).unwrap()));
            },
            None => {},
        }
        i += 1;
    }
    assert(views(ls@).take(n as int) =~= views(ls@));
    out
}

} // verus!
