//! The session dialog: turning what the user entered into a session record.

use vstd::prelude::*;
use crate::session::{
    Session, SessionView, SessionKind, AuthMethod, PortForward, PortForwardView, SessionTrigger,
    SessionTriggerView, kind_from_name, auth_from_name, forward_views, trigger_views,
};
use crate::text::{
    chars_of, concat_chars, decimal_int, decimal_int_chars, replace_char, replace_char_chars,
    string_of, trim, trim_chars,
};

verus! {

/// What the session dialog holds, as entered.
pub struct SessionDraft {
    pub id: String,
    pub name: String,
    pub host: String,
    pub port: i32,
    pub user: String,
    pub auth: String,
    pub password: String,
    pub private_key_inline_mode: bool,
    pub private_key_inline: String,
    pub private_key_path: String,
    pub proxy: String,
    pub group: String,
    pub kind: String,
    pub serial_port: String,
    pub baud_rate: i32,
    pub data_bits: i32,
    pub stop_bits: i32,
    pub parity: String,
    pub flow_control: String,
    pub encoding: String,
    pub vt100_drawing: bool,
    pub disable_shell_integration: bool,
    pub note: String,
    pub jump_session_id: String,
}

/// The name a session gets when the dialog leaves it empty: `port @baud`
/// for a serial line, else `user@host`, or just the host without a user.
pub open spec fn auto_name(d: SessionDraft) -> Seq<char> {
    if kind_from_name(d.kind@) == SessionKind::Serial {
        d.serial_port@ + seq![' ', '@'] + decimal_int(d.baud_rate as int)
    } else if trim(d.user@).len() == 0 {
        d.host@
    } else {
        d.user@ + seq!['@'] + d.host@
    }
}

/// The session the dialog stands for. Secrets left blank keep the values of
/// the session being edited (they are never shown back in the dialog); the
/// key path uses `/` separators; a non-positive port is the protocol
/// default (23 for telnet, else 22), a non-positive baud rate is 115200;
/// the port forwards and triggers are those edited alongside the dialog.
pub open spec fn draft_session(
    d: SessionDraft,
    existing: Option<SessionView>,
    forwards: Seq<PortForwardView>,
    triggers: Seq<SessionTriggerView>,
) -> SessionView {
    let kind = kind_from_name(d.kind@);
    let default_port: u16 = if kind == SessionKind::Telnet {
        23
    } else {
        22
    };
    SessionView {
        id: d.id@,
        name: if d.name@.len() == 0 {
            auto_name(d)
        } else {
            d.name@
        },
        host: d.host@,
        port: if d.port <= 0 {
            default_port
        } else {
            d.port as u16
        },
        user: d.user@,
        auth: auth_from_name(d.auth@),
        password: if d.password@.len() == 0 {
            match existing {
                Some(e) => e.password,
                None => seq![],
            }
        } else {
            d.password@
        },
        private_key_path: if d.private_key_inline_mode {
            seq![]
        } else {
            replace_char(d.private_key_path@, '\\', '/')
        },
        private_key_inline: if d.private_key_inline_mode {
            if d.private_key_inline@.len() == 0 {
                match existing {
                    Some(e) => e.private_key_inline,
                    None => seq![],
                }
            } else {
                d.private_key_inline@
            }
        } else {
            seq![]
        },
        proxy: d.proxy@,
        last_used: None,
        group: d.group@,
        kind,
        local_distribution: seq![],
        local_working_dir: seq![],
        serial_port: d.serial_port@,
        baud_rate: if d.baud_rate <= 0 {
            115200
        } else {
            d.baud_rate as u32
        },
        data_bits: d.data_bits as u8,
        stop_bits: d.stop_bits as u8,
        parity: d.parity@,
        flow_control: d.flow_control@,
        encoding: d.encoding@,
        vt100_drawing: d.vt100_drawing,
        forwards,
        triggers,
        disable_shell_integration: d.disable_shell_integration,
        note: d.note@,
        jump_session_id: d.jump_session_id@,
    }
}

pub open spec fn existing_view(e: Option<&Session>) -> Option<SessionView> {
    match e {
        Some(s) => Some(s@),
        None => None,
    }
}

/// The baud rate and port the dialog shows are kept as entered when they
/// are positive: only a non-positive baud rate becomes 115200 and only a
/// non-positive port the protocol default (a port above 65535 is cut to
/// 16 bits).
pub proof fn law_positive_numbers_kept(
    d: SessionDraft,
    existing: Option<SessionView>,
    forwards: Seq<PortForwardView>,
    triggers: Seq<SessionTriggerView>,
)
    ensures
        d.baud_rate > 0 ==> draft_session(d, existing, forwards, triggers).baud_rate == d.baud_rate,
        d.baud_rate <= 0 ==> draft_session(d, existing, forwards, triggers).baud_rate == 115200,
        0 < d.port <= 65535 ==> draft_session(d, existing, forwards, triggers).port == d.port,
{
}

/// Secrets left blank in the dialog keep those of the session being edited
/// (and are empty for a new one); a secret that is filled in replaces it.
/// An empty name is filled in: `port @baud` for a serial line, else
/// `user@host`, or the host alone when the user is blank.
pub proof fn law_blanks_filled(
    d: SessionDraft,
    existing: Option<SessionView>,
    forwards: Seq<PortForwardView>,
    triggers: Seq<SessionTriggerView>,
)
    ensures
        ({
            let v = draft_session(d, existing, forwards, triggers);
            let kept_password = match existing {
                Some(e) => e.password,
                None => Seq::<char>::empty(),
            };
            let kept_key = match existing {
                Some(e) => e.private_key_inline,
                None => Seq::<char>::empty(),
            };
            &&& d.password@.len() == 0 ==> v.password == kept_password
            &&& d.password@.len() > 0 ==> v.password == d.password@
            &&& d.private_key_inline_mode && d.private_key_inline@.len() == 0 ==> v.private_key_inline
                == kept_key
            &&& d.private_key_inline_mode && d.private_key_inline@.len() > 0 ==> v.private_key_inline
                == d.private_key_inline@
            &&& d.name@.len() > 0 ==> v.name == d.name@
            &&& d.name@.len() == 0 && kind_from_name(d.kind@) == SessionKind::Serial ==> v.name
                == d.serial_port@ + seq![' ', '@'] + decimal_int(d.baud_rate as int)
            &&& d.name@.len() == 0 && kind_from_name(d.kind@) != SessionKind::Serial && trim(
                d.user@,
            ).len() == 0 ==> v.name == d.host@
            &&& d.name@.len() == 0 && kind_from_name(d.kind@) != SessionKind::Serial && trim(
                d.user@,
            ).len() > 0 ==> v.name == d.user@ + seq!['@'] + d.host@
        }),
{
}

/// Builds the session the dialog stands for (see [`draft_session`]).
pub fn session_from_draft(
    draft: &SessionDraft,
    existing: Option<&Session>,
    forwards: Vec<PortForward>,
    triggers: Vec<SessionTrigger>,
) -> (s: Session)
    ensures
        s@ == draft_session(*draft, existing_view(existing), forward_views(forwards@), trigger_views(triggers@)),
        draft.baud_rate > 0 ==> s.baud_rate == draft.baud_rate,
        draft.baud_rate <= 0 ==> s.baud_rate == 115200,
        0 < draft.port <= 65535 ==> s.port == draft.port,
        draft.name@.len() > 0 ==> s.name@ == draft.name@,
{
    let password = if draft.password.as_str().is_empty() {
        match existing {
            Some(e) => e.password.clone(),
            None => String::new(),
        }
    } else {
        draft.password.clone()
    };
    let private_key_inline = if draft.private_key_inline_mode {
        if draft.private_key_inline.as_str().is_empty() {
            match existing {
                Some(e) => e.private_key_inline.clone(),
                None => String::new(),
            }
        } else {
            draft.private_key_inline.clone()
        }
    } else {
        String::new()
    };
    let private_key_path = if draft.private_key_inline_mode {
        String::new()
    } else {
        let p = chars_of(draft.private_key_path.as_str());
        let r = replace_char_chars(p.as_slice(), '\\', '/');
        string_of(r.as_slice())
    };
    let kind = SessionKind::from_str(draft.kind.as_str());
    let name = if draft.name.as_str().is_empty() {
        let auto: Vec<char> = if kind == SessionKind::Serial {
            let sp = chars_of(draft.serial_port.as_str());
            let sep = vec![' ', '@'];
            assert(sep@ =~= seq![' ', '@']);
            let a = concat_chars(sp.as_slice(), sep.as_slice());
            let b = decimal_int_chars(draft.baud_rate as i64);
            concat_chars(a.as_slice(), b.as_slice())
        } else {
            let u = chars_of(draft.user.as_str());
            let ut = trim_chars(u.as_slice());
            let h = chars_of(draft.host.as_str());
            if ut.len() == 0 {
                h
            } else {
                let at = vec!['@'];
                assert(at@ =~= seq!['@']);
                let a = concat_chars(u.as_slice(), at.as_slice());
                concat_chars(a.as_slice(), h.as_slice())
            }
        };
        string_of(auto.as_slice())
    } else {
        draft.name.clone()
    };
    let default_port: u16 = if kind == SessionKind::Telnet {
        23
    } else {
        22
    };
    let s = Session {
        id: draft.id.clone(),
        name,
        host: draft.host.clone(),
        port: if draft.port <= 0 {
            default_port
        } else {
            draft.port as u16
        },
        user: draft.user.clone(),
        auth: AuthMethod::from_str(draft.auth.as_str()),
        password,
        private_key_path,
        private_key_inline,
        proxy: draft.proxy.clone(),
        last_used: None,
        group: draft.group.clone(),
        kind,
        local_distribution: String::new(),
        local_working_dir: String::new(),
        serial_port: draft.serial_port.clone(),
        baud_rate: if draft.baud_rate <= 0 {
            115200
        } else {
            draft.baud_rate as u32
        },
        data_bits: draft.data_bits as u8,
        stop_bits: draft.stop_bits as u8,
        parity: draft.parity.clone(),
        flow_control: draft.flow_control.clone(),
        encoding: draft.encoding.clone(),
        vt100_drawing: draft.vt100_drawing,
        forwards,
        triggers,
        disable_shell_integration: draft.disable_shell_integration,
        note: draft.note.clone(),
        jump_session_id: draft.jump_session_id.clone(),
    };

    s
}

} // verus!
