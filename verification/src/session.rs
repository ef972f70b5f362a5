//! Saved sessions: kinds, authentication methods, the session record and its
//! mathematical view, and the group-naming rules shared by the session list.

use vstd::prelude::*;
use crate::text::{chars_eq, chars_of, string_of};
use crate::ids::{is_uuid_v4_text, new_uuid_text};

verus! {

/// Connection protocol of a session.
#[derive(Clone, Copy, Debug, PartialEq, Eq, Structural)]
pub enum SessionKind {
    Ssh,
    Serial,
    Telnet,
    Local,
}

/// The protocol name stored in configuration and shown on session rows.
pub open spec fn kind_name(k: SessionKind) -> Seq<char> {
    match k {
        SessionKind::Ssh => seq!['s', 's', 'h'],
        SessionKind::Serial => seq!['s', 'e', 'r', 'i', 'a', 'l'],
        SessionKind::Telnet => seq!['t', 'e', 'l', 'n', 'e', 't'],
        SessionKind::Local => seq!['l', 'o', 'c', 'a', 'l'],
    }
}

/// Parsing a stored protocol name; anything unknown is SSH.
pub open spec fn kind_from_name(s: Seq<char>) -> SessionKind {
    if s == kind_name(SessionKind::Serial) {
        SessionKind::Serial
    } else if s == kind_name(SessionKind::Telnet) {
        SessionKind::Telnet
    } else if s == kind_name(SessionKind::Local) {
        SessionKind::Local
    } else {
        SessionKind::Ssh
    }
}

impl SessionKind {
    pub fn name_chars(&self) -> (r: Vec<char>)
        ensures
            r@ == kind_name(*self),
    {
        let r = match self {
            SessionKind::Ssh => vec!['s', 's', 'h'],
            SessionKind::Serial => vec!['s', 'e', 'r', 'i', 'a', 'l'],
            SessionKind::Telnet => vec!['t', 'e', 'l', 'n', 'e', 't'],
            SessionKind::Local => vec!['l', 'o', 'c', 'a', 'l'],
        };
        assert(r@ =~= kind_name(*self));
        r
    }

    /// The protocol name, as text.
    pub fn as_str(&self) -> (r: String)
        ensures
            r@ == kind_name(*self),
    {
        let v = self.name_chars();
        string_of(v.as_slice())
    }

    /// Reads a stored protocol name.
    pub fn from_str(s: &str) -> (k: SessionKind)
        ensures
            k == kind_from_name(s@),
    {
        let c = chars_of(s);
        if chars_eq(c.as_slice(), SessionKind::Serial.name_chars().as_slice()) {
            SessionKind::Serial
        } else if chars_eq(c.as_slice(), SessionKind::Telnet.name_chars().as_slice()) {
            SessionKind::Telnet
        } else if chars_eq(c.as_slice(), SessionKind::Local.name_chars().as_slice()) {
            SessionKind::Local
        } else {
            SessionKind::Ssh
        }
    }
}

/// A kind's stored name reads back as that kind.
pub proof fn law_kind_name_round_trip(k: SessionKind)
    ensures
        kind_from_name(kind_name(k)) == k,
{
    assert(kind_name(SessionKind::Serial) != kind_name(SessionKind::Ssh));
    assert(kind_name(SessionKind::Telnet) != kind_name(SessionKind::Ssh));
    assert(kind_name(SessionKind::Local) != kind_name(SessionKind::Ssh));
    assert(kind_name(SessionKind::Telnet) != kind_name(SessionKind::Serial));
    assert(kind_name(SessionKind::Local) != kind_name(SessionKind::Serial));
    assert(kind_name(SessionKind::Local) != kind_name(SessionKind::Telnet));
}

/// How a session authenticates.
#[derive(Clone, Copy, Debug, PartialEq, Eq, Structural)]
pub enum AuthMethod {
    Password,
    Key,
    Agent,
}

pub open spec fn auth_name(a: AuthMethod) -> Seq<char> {
    match a {
        AuthMethod::Password => seq!['p', 'a', 's', 's', 'w', 'o', 'r', 'd'],
        AuthMethod::Key => seq!['k', 'e', 'y'],
        AuthMethod::Agent => seq!['a', 'g', 'e', 'n', 't'],
    }
}

/// Parsing a stored authentication name; anything unknown is a password.
pub open spec fn auth_from_name(s: Seq<char>) -> AuthMethod {
    if s == auth_name(AuthMethod::Key) {
        AuthMethod::Key
    } else if s == auth_name(AuthMethod::Agent) {
        AuthMethod::Agent
    } else {
        AuthMethod::Password
    }
}

impl AuthMethod {
    pub fn name_chars(&self) -> (r: Vec<char>)
        ensures
            r@ == auth_name(*self),
    {
        let r = match self {
            AuthMethod::Password => vec!['p', 'a', 's', 's', 'w', 'o', 'r', 'd'],
            AuthMethod::Key => vec!['k', 'e', 'y'],
            AuthMethod::Agent => vec!['a', 'g', 'e', 'n', 't'],
        };
        assert(r@ =~= auth_name(*self));
        r
    }

    pub fn as_str(&self) -> (r: String)
        ensures
            r@ == auth_name(*self),
    {
        let v = self.name_chars();
        string_of(v.as_slice())
    }

    pub fn from_str(s: &str) -> (a: AuthMethod)
        ensures
            a == auth_from_name(s@),
    {
        let c = chars_of(s);
        if chars_eq(c.as_slice(), AuthMethod::Key.name_chars().as_slice()) {
            AuthMethod::Key
        } else if chars_eq(c.as_slice(), AuthMethod::Agent.name_chars().as_slice()) {
            AuthMethod::Agent
        } else {
            AuthMethod::Password
        }
    }
}

/// An authentication method's stored name reads back as that method.
pub proof fn law_auth_name_round_trip(a: AuthMethod)
    ensures
        auth_from_name(auth_name(a)) == a,
{
    assert(auth_name(AuthMethod::Key) != auth_name(AuthMethod::Password));
    assert(auth_name(AuthMethod::Agent) != auth_name(AuthMethod::Password));
    assert(auth_name(AuthMethod::Agent) != auth_name(AuthMethod::Key));
}

/// A port forward of an SSH session: its kind (`local`, `remote` or
/// `dynamic`), the address it listens on and the address it forwards to.
pub struct PortForward {
    pub kind: String,
    pub bind_host: String,
    pub bind_port: u16,
    pub target_host: String,
    pub target_port: u16,
}

pub struct PortForwardView {
    pub kind: Seq<char>,
    pub bind_host: Seq<char>,
    pub bind_port: u16,
    pub target_host: Seq<char>,
    pub target_port: u16,
}

impl View for PortForward {
    type V = PortForwardView;

    open spec fn view(&self) -> PortForwardView {
        PortForwardView {
            kind: self.kind@,
            bind_host: self.bind_host@,
            bind_port: self.bind_port,
            target_host: self.target_host@,
            target_port: self.target_port,
        }
    }
}

/// A trigger of a session: text that, when it appears in the terminal,
/// is answered with `response`.
pub struct SessionTrigger {
    pub pattern: String,
    pub response: String,
}

pub struct SessionTriggerView {
    pub pattern: Seq<char>,
    pub response: Seq<char>,
}

impl View for SessionTrigger {
    type V = SessionTriggerView;

    open spec fn view(&self) -> SessionTriggerView {
        SessionTriggerView { pattern: self.pattern@, response: self.response@ }
    }
}

pub open spec fn forward_views(v: Seq<PortForward>) -> Seq<PortForwardView> {
    v.map_values(|f: PortForward| f@)
}

pub open spec fn trigger_views(v: Seq<SessionTrigger>) -> Seq<SessionTriggerView> {
    v.map_values(|t: SessionTrigger| t@)
}

/// Field-by-field copies of port forwards.
pub fn copy_forwards(v: &[PortForward]) -> (r: Vec<PortForward>)
    ensures
        forward_views(r@) == forward_views(v@),
{
    let n = v.len();
    let mut r: Vec<PortForward> = Vec::new();
    let mut i: usize = 0;
    while i < n
        invariant
            n == v@.len(),
            i <= n,
            forward_views(r@) == forward_views(v@).take(i as int),
        decreases n - i,
    {
        let f = PortForward {
            kind: v[i].kind.clone(),
            bind_host: v[i].bind_host.clone(),
            bind_port: v[i].bind_port,
            target_host: v[i].target_host.clone(),
            target_port: v[i].target_port,
        };
        let ghost prev = r@;
        r.push(f);
        assert(forward_views(r@) =~= forward_views(prev).push(f@));
        assert(forward_views(r@) =~= forward_views(v@).take(i + 1));
        i += 1;
    }
    assert(forward_views(v@).take(n as int) =~= forward_views(v@));
    r
}

/// Field-by-field copies of triggers.
pub fn copy_triggers(v: &[SessionTrigger]) -> (r: Vec<SessionTrigger>)
    ensures
        trigger_views(r@) == trigger_views(v@),
{
    let n = v.len();
    let mut r: Vec<SessionTrigger> = Vec::new();
    let mut i: usize = 0;
    while i < n
        invariant
            n == v@.len(),
            i <= n,
            trigger_views(r@) == trigger_views(v@).take(i as int),
        decreases n - i,
    {
        let t = SessionTrigger { pattern: v[i].pattern.clone(), response: v[i].response.clone() };
        let ghost prev = r@;
        r.push(t);
        assert(trigger_views(r@) =~= trigger_views(prev).push(t@));
        assert(trigger_views(r@) =~= trigger_views(v@).take(i + 1));
        i += 1;
    }
    assert(trigger_views(v@).take(n as int) =~= trigger_views(v@));
    r
}

/// A saved connection.
pub struct Session {
    pub id: String,
    pub name: String,
    pub host: String,
    pub port: u16,
    pub user: String,
    pub auth: AuthMethod,
    pub password: String,
    pub private_key_path: String,
    pub private_key_inline: String,
    pub proxy: String,
    /// Seconds since the Unix epoch of the last connection.
    pub last_used: Option<u64>,
    pub group: String,
    pub kind: SessionKind,
    pub local_distribution: String,
    pub local_working_dir: String,
    pub serial_port: String,
    pub baud_rate: u32,
    pub data_bits: u8,
    pub stop_bits: u8,
    pub parity: String,
    pub flow_control: String,
    pub encoding: String,
    pub vt100_drawing: bool,
    pub forwards: Vec<PortForward>,
    pub triggers: Vec<SessionTrigger>,
    pub disable_shell_integration: bool,
    pub note: String,
    pub jump_session_id: String,
}

/// The mathematical content of a [`Session`].
pub struct SessionView {
    pub id: Seq<char>,
    pub name: Seq<char>,
    pub host: Seq<char>,
    pub port: u16,
    pub user: Seq<char>,
    pub auth: AuthMethod,
    pub password: Seq<char>,
    pub private_key_path: Seq<char>,
    pub private_key_inline: Seq<char>,
    pub proxy: Seq<char>,
    pub last_used: Option<u64>,
    pub group: Seq<char>,
    pub kind: SessionKind,
    pub local_distribution: Seq<char>,
    pub local_working_dir: Seq<char>,
    pub serial_port: Seq<char>,
    pub baud_rate: u32,
    pub data_bits: u8,
    pub stop_bits: u8,
    pub parity: Seq<char>,
    pub flow_control: Seq<char>,
    pub encoding: Seq<char>,
    pub vt100_drawing: bool,
    pub forwards: Seq<PortForwardView>,
    pub triggers: Seq<SessionTriggerView>,
    pub disable_shell_integration: bool,
    pub note: Seq<char>,
    pub jump_session_id: Seq<char>,
}

impl View for Session {
    type V = SessionView;

    open spec fn view(&self) -> SessionView {
        SessionView {
            id: self.id@,
            name: self.name@,
            host: self.host@,
            port: self.port,
            user: self.user@,
            auth: self.auth,
            password: self.password@,
            private_key_path: self.private_key_path@,
            private_key_inline: self.private_key_inline@,
            proxy: self.proxy@,
            last_used: self.last_used,
            group: self.group@,
            kind: self.kind,
            local_distribution: self.local_distribution@,
            local_working_dir: self.local_working_dir@,
            serial_port: self.serial_port@,
            baud_rate: self.baud_rate,
            data_bits: self.data_bits,
            stop_bits: self.stop_bits,
            parity: self.parity@,
            flow_control: self.flow_control@,
            encoding: self.encoding@,
            vt100_drawing: self.vt100_drawing,
            forwards: forward_views(self.forwards@),
            triggers: trigger_views(self.triggers@),
            disable_shell_integration: self.disable_shell_integration,
            note: self.note@,
            jump_session_id: self.jump_session_id@,
        }
    }
}

/// The views of a sequence of sessions.
pub open spec fn session_views(s: Seq<Session>) -> Seq<SessionView> {
    s.map_values(|x: Session| x@)
}

/// A session that has only just been created under identifier `id`:
/// everything empty or at its protocol default.
pub open spec fn fresh_session(id: Seq<char>) -> SessionView {
    SessionView {
        id,
        name: seq![],
        host: seq![],
        port: 22,
        user: seq![],
        auth: AuthMethod::Password,
        password: seq![],
        private_key_path: seq![],
        private_key_inline: seq![],
        proxy: seq![],
        last_used: None,
        group: seq![],
        kind: SessionKind::Ssh,
        local_distribution: seq![],
        local_working_dir: seq![],
        serial_port: seq![],
        baud_rate: 115200,
        data_bits: 8,
        stop_bits: 1,
        parity: seq!['n', 'o', 'n', 'e'],
        flow_control: seq!['n', 'o', 'n', 'e'],
        encoding: seq!['u', 't', 'f', '-', '8'],
        vt100_drawing: false,
        forwards: seq![],
        triggers: seq![],
        disable_shell_integration: false,
        note: seq![],
        jump_session_id: seq![],
    }
}

impl Session {
    /// A blank SSH session under a fresh random identifier.
    pub fn new_empty() -> (s: Session)
        ensures
            s@ == fresh_session(s.id@),
            is_uuid_v4_text(s.id@),
    {
        let none = vec!['n', 'o', 'n', 'e'];
        let utf8 = vec!['u', 't', 'f', '-', '8'];
        assert(none@ =~= seq!['n', 'o', 'n', 'e']);
        assert(utf8@ =~= seq!['u', 't', 'f', '-', '8']);
        let parity = string_of(none.as_slice());
        let flow_control = string_of(none.as_slice());
        let encoding = string_of(utf8.as_slice());
        let s = Session {
            id: new_uuid_text(),
            name: String::new(),
            host: String::new(),
            port: 22,
            user: String::new(),
            auth: AuthMethod::Password,
            password: String::new(),
            private_key_path: String::new(),
            private_key_inline: String::new(),
            proxy: String::new(),
            last_used: None,
            group: String::new(),
            kind: SessionKind::Ssh,
            local_distribution: String::new(),
            local_working_dir: String::new(),
            serial_port: String::new(),
            baud_rate: 115200,
            data_bits: 8,
            stop_bits: 1,
            parity,
            flow_control,
            encoding,
            vt100_drawing: false,
            forwards: Vec::new(),
            triggers: Vec::new(),
            disable_shell_integration: false,
            note: String::new(),
            jump_session_id: String::new(),
        };
        assert(forward_views(s.forwards@) =~= Seq::<PortForwardView>::empty());
        assert(trigger_views(s.triggers@) =~= Seq::<SessionTriggerView>::empty());
        assert(s@ =~= fresh_session(s.id@));
        s
    }

    /// A field-by-field copy.
    pub fn duplicate(&self) -> (r: Session)
        ensures
            r@ == self@,
    {
        Session {
            id: self.id.clone(),
            name: self.name.clone(),
            host: self.host.clone(),
            port: self.port,
            user: self.user.clone(),
            auth: self.auth,
            password: self.password.clone(),
            private_key_path: self.private_key_path.clone(),
            private_key_inline: self.private_key_inline.clone(),
            proxy: self.proxy.clone(),
            last_used: self.last_used,
            group: self.group.clone(),
            kind: self.kind,
            local_distribution: self.local_distribution.clone(),
            local_working_dir: self.local_working_dir.clone(),
            serial_port: self.serial_port.clone(),
            baud_rate: self.baud_rate,
            data_bits: self.data_bits,
            stop_bits: self.stop_bits,
            parity: self.parity.clone(),
            flow_control: self.flow_control.clone(),
            encoding: self.encoding.clone(),
            vt100_drawing: self.vt100_drawing,
            forwards: copy_forwards(self.forwards.as_slice()),
            triggers: copy_triggers(self.triggers.as_slice()),
            disable_shell_integration: self.disable_shell_integration,
            note: self.note.clone(),
            jump_session_id: self.jump_session_id.clone(),
        }
    }
}

} // verus!
