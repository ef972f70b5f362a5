//! What the window's close button does: the configured close behaviour
//! (`ask`, `tray` or `exit`), and the choice the confirmation card hands back
//! (`tray` / `exit`, optionally followed by `,remember`).

use vstd::prelude::*;
use crate::text::{chars_eq, chars_of, ends_with, ends_with_chars, starts_with, starts_with_chars, string_of};

verus! {

pub open spec fn ask_word() -> Seq<char> {
    seq!['a', 's', 'k']
}

pub open spec fn tray_word() -> Seq<char> {
    seq!['t', 'r', 'a', 'y']
}

pub open spec fn exit_word() -> Seq<char> {
    seq!['e', 'x', 'i', 't']
}

/// The suffix the card appends when "remember my choice" is ticked.
pub open spec fn remember_suffix() -> Seq<char> {
    seq![',', 'r', 'e', 'm', 'e', 'm', 'b', 'e', 'r']
}

/// The choice on the card: `tray` when the answer begins with `tray`
/// (case-sensitive), `exit` for everything else.
pub open spec fn close_mode_of(s: Seq<char>) -> Seq<char> {
    if starts_with(s, tray_word()) {
        tray_word()
    } else {
        exit_word()
    }
}

/// The configured close behaviour, or `ask` when it is not one of the three
/// exact words.
pub open spec fn close_behavior_of(s: Seq<char>) -> Seq<char> {
    if s == tray_word() || s == exit_word() || s == ask_word() {
        s
    } else {
        ask_word()
    }
}

/// What the close button does.
#[derive(Clone, Copy, Debug, PartialEq, Eq, Structural)]
pub enum CloseDecision {
    /// Show the confirmation card.
    Ask,
    /// Hide to the tray.
    Tray,
    /// Quit.
    Exit,
}

pub open spec fn close_decision_of(s: Seq<char>) -> CloseDecision {
    let b = close_behavior_of(s);
    if b == tray_word() {
        CloseDecision::Tray
    } else if b == exit_word() {
        CloseDecision::Exit
    } else {
        CloseDecision::Ask
    }
}

fn tray_chars() -> (r: Vec<char>)
    ensures
        r@ == tray_word(),
{
    let r = vec!['t', 'r', 'a', 'y'];
    assert(r@ =~= tray_word());
    r
}

fn exit_chars() -> (r: Vec<char>)
    ensures
        r@ == exit_word(),
{
    let r = vec!['e', 'x', 'i', 't'];
    assert(r@ =~= exit_word());
    r
}

fn ask_chars() -> (r: Vec<char>)
    ensures
        r@ == ask_word(),
{
    let r = vec!['a', 's', 'k'];
    assert(r@ =~= ask_word());
    r
}

/// The choice the confirmation card handed back: `"tray"` or `"exit"`.
pub fn parse_close_mode(s: &str) -> (r: String)
    ensures
        r@ == close_mode_of(s@),
{
    let c = chars_of(s);
    let t = tray_chars();
    if starts_with_chars(c.as_slice(), t.as_slice()) {
        string_of(t.as_slice())
    } else {
        string_of(exit_chars().as_slice())
    }
}

/// Whether the user ticked "remember my choice" on the card.
pub fn close_mode_remembers(s: &str) -> (r: bool)
    ensures
        r == ends_with(s@, remember_suffix()),
{
    let c = chars_of(s);
    let suffix = vec![',', 'r', 'e', 'm', 'e', 'm', 'b', 'e', 'r'];
    assert(suffix@ =~= remember_suffix());
    ends_with_chars(c.as_slice(), suffix.as_slice())
}

/// The stored close behaviour, with anything but `ask`, `tray` and `exit`
/// (an old configuration's empty value among them) read as `ask`.
pub fn close_behavior_or_default(s: &str) -> (r: String)
    ensures
        r@ == close_behavior_of(s@),
{
    let c = chars_of(s);
    if chars_eq(c.as_slice(), tray_chars().as_slice()) || chars_eq(c.as_slice(), exit_chars().as_slice())
        || chars_eq(c.as_slice(), ask_chars().as_slice()) {
        string_of(c.as_slice())
    } else {
        string_of(ask_chars().as_slice())
    }
}

/// What the close button does under the stored close behaviour; the number
/// of open sessions plays no part.
pub fn decide_close(behavior: &str) -> (r: CloseDecision)
    ensures
        r == close_decision_of(behavior@),
{
    let b = close_behavior_or_default(behavior);
    let c = chars_of(b.as_str());
    if chars_eq(c.as_slice(), tray_chars().as_slice()) {
        CloseDecision::Tray
    } else if chars_eq(c.as_slice(), exit_chars().as_slice()) {
        CloseDecision::Exit
    } else {
        CloseDecision::Ask
    }
}

// ---------------------------------------------------------------------------
// Laws
// ---------------------------------------------------------------------------

/// The card's answer always comes out as one of the two choices.
pub proof fn law_close_mode_is_tray_or_exit(s: Seq<char>)
    ensures
        close_mode_of(s) == tray_word() || close_mode_of(s) == exit_word(),
{
}

/// Appending `,remember` to an answer does not change the choice, and is
/// seen as "remember".
pub proof fn law_remember_suffix_keeps_mode(m: Seq<char>)
    ensures
        close_mode_of(m + remember_suffix()) == close_mode_of(m),
        ends_with(m + remember_suffix(), remember_suffix()),
{
    let s = m + remember_suffix();
    assert(s.skip(s.len() - remember_suffix().len()) =~= remember_suffix());
    if starts_with(m, tray_word()) {
        assert(s.take(4) =~= m.take(4));
    } else if m.len() >= 4 {
        assert(s.take(4) =~= m.take(4));
    } else {
        // A shorter answer is followed by the comma, which `tray` does not have there.
        assert(s[m.len() as int] == ',');
        if starts_with(s, tray_word()) {
            assert(s.take(4)[m.len() as int] == tray_word()[m.len() as int]);
        }
    }
}

/// The stored behaviour always reads as one of the three words, and reading
/// it again changes nothing.
pub proof fn law_close_behavior_normalized(s: Seq<char>)
    ensures
        close_behavior_of(s) == ask_word() || close_behavior_of(s) == tray_word() || close_behavior_of(s)
            == exit_word(),
        close_behavior_of(close_behavior_of(s)) == close_behavior_of(s),
{
}

/// The close button follows the normalized behaviour: it asks exactly when
/// the behaviour reads as `ask`.
pub proof fn law_decide_close_follows_behavior(s: Seq<char>)
    ensures
        close_decision_of(s) == close_decision_of(close_behavior_of(s)),
        (close_decision_of(s) == CloseDecision::Ask) == (close_behavior_of(s) == ask_word()),
        (close_decision_of(s) == CloseDecision::Tray) == (close_behavior_of(s) == tray_word()),
        (close_decision_of(s) == CloseDecision::Exit) == (close_behavior_of(s) == exit_word()),
{
    assert(ask_word() != tray_word());
    assert(ask_word() != exit_word());
    assert(tray_word() != exit_word()) by {
        assert(tray_word()[0] != exit_word()[0]);
    }
}

} // verus!
