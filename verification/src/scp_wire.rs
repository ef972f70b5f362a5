//! The SCP wire protocol over an SSH exec channel: buffering of what the
//! channel delivers, acknowledgements, control records, file and directory
//! records, and the headers sent for uploads. The channel itself is driven by
//! the caller, which feeds each message and byte in and carries out what is
//! decided here.

use vstd::prelude::*;
use vstd::utf8::{decode_utf8, valid_utf8};
use crate::scp::sh_quoted;
use crate::text::{
    before_first, before_first_chars, chars_of, concat_chars, decimal, decimal_chars, join,
    join_chars, parse_decimal, parse_decimal_chars, split_whitespace_of, split_ws, string_of,
    strip_trailing, strip_trailing_chars, trim, trim_chars, views,
};

verus! {

// ---------------------------------------------------------------------------
// Text out of bytes
// ---------------------------------------------------------------------------

/// What `String::from_utf8_lossy` makes of `bytes`.
pub uninterp spec fn utf8_lossy(bytes: Seq<u8>) -> Seq<char>;

/// `String::from_utf8_lossy`: the text of `bytes`, with every invalid
/// sequence replaced by U+FFFD. Claimed: the result is the function
/// [`utf8_lossy`] of the bytes, and, as its documentation says, the plain
/// decoding when the bytes are valid UTF-8.
#[verifier::external_body]
fn from_utf8_lossy(bytes: &[u8]) -> (r: String)
    ensures
        r@ == utf8_lossy(bytes@),
        valid_utf8(bytes@) ==> r@ == decode_utf8(bytes@),
{
    String::from_utf8_lossy(bytes).into_owned()
}

/// `String::from_utf8`: the text of `bytes` when they are valid UTF-8.
/// Claimed, as its documentation says: `Some` exactly for valid UTF-8, with
/// the decoded characters.
#[verifier::external_body]
fn from_utf8(bytes: Vec<u8>) -> (r: Option<String>)
    ensures
        valid_utf8(bytes@) ==> r is Some && r.unwrap()@ == decode_utf8(bytes@),
        !valid_utf8(bytes@) ==> r is None,
{
    String::from_utf8(bytes).ok()
}

/// The captured output of a shell command and its exit status (0 when the
/// remote side reported none).
pub fn shell_capture_result(stdout: &[u8], exit_code: Option<u32>) -> (r: (String, u32))
    ensures
        r.0@ == utf8_lossy(stdout@),
        valid_utf8(stdout@) ==> r.0@ == decode_utf8(stdout@),
        r.1 == match exit_code {
            Some(c) => c,
            None => 0,
        },
{
    let code = match exit_code {
        Some(c) => c,
        None => 0,
    };
    (from_utf8_lossy(stdout), code)
}

// ---------------------------------------------------------------------------
// Buffered reading of the channel
// ---------------------------------------------------------------------------

/// A message of the exec channel.
pub enum ChannelEvent {
    /// The channel has no more messages.
    Ended,
    /// Standard output of the remote command.
    Data(Vec<u8>),
    /// Standard error of the remote command.
    ExtendedData(Vec<u8>),
    /// The remote command's exit status.
    ExitStatus(u32),
    /// The remote side closed the channel.
    Close,
    /// Anything else (window adjustments, EOF, ...).
    Other,
}

/// The reading side of an exec channel: bytes received but not read yet,
/// whether the end was seen, the exit status, and whether standard error is
/// read along with standard output.
pub struct ScpReader {
    pub pending: Vec<u8>,
    pub eof_seen: bool,
    pub exit_code: Option<u32>,
    pub include_stderr: bool,
}

pub open spec fn min_len(a: int, b: int) -> int {
    if a <= b {
        a
    } else {
        b
    }
}

impl ScpReader {
    /// A reader for the SCP protocol, which ignores standard error.
    pub fn new() -> (r: ScpReader)
        ensures
            r.pending@ == Seq::<u8>::empty(),
            !r.eof_seen,
            r.exit_code is None,
            !r.include_stderr,
    {
        ScpReader { pending: Vec::new(), eof_seen: false, exit_code: None, include_stderr: false }
    }

    /// The same reader, reading standard error along with standard output
    /// (for shell commands whose errors go there).
    pub fn capture(self) -> (r: ScpReader)
        ensures
            r.pending@ == self.pending@,
            r.eof_seen == self.eof_seen,
            r.exit_code == self.exit_code,
            r.include_stderr,
    {
        let mut s = self;
        s.include_stderr = true;
        s
    }

    /// A read of up to `want` bytes before waiting on the channel: the
    /// buffered bytes first; nothing once the end was seen (`Some` empty);
    /// `None` when the channel must be waited on.
    pub fn take_buffered(&mut self, want: usize) -> (r: Option<Vec<u8>>)
        ensures
            took_buffered(*old(self), *final(self), want as int, r),
    {
        if self.pending.len() > 0 {
            let n = if want < self.pending.len() {
                want
            } else {
                self.pending.len()
            };
            let head = split_bytes(&mut self.pending, n);
            return Some(head);
        }
        if self.eof_seen {
            return Some(Vec::new());
        }
        None
    }

    /// Takes in the next channel message while a read of up to `want` bytes
    /// waits: `Some` with what the read returns (empty at the end of the
    /// channel), or `None` to wait for another message. Bytes beyond `want`
    /// are kept for later reads.
    pub fn on_event(&mut self, ev: ChannelEvent, want: usize) -> (r: Option<Vec<u8>>)
        ensures
            match ev {
                ChannelEvent::Ended | ChannelEvent::Close => {
                    &&& r is Some && r.unwrap()@ == Seq::<u8>::empty()
                    &&& final(self).eof_seen
                    &&& final(self).pending@ == old(self).pending@
                    &&& final(self).exit_code == old(self).exit_code
                },
                ChannelEvent::Data(d) => delivered(*old(self), *final(self), d@, want as int, r, true),
                ChannelEvent::ExtendedData(d) => delivered(
                    *old(self),
                    *final(self),
                    d@,
                    want as int,
                    r,
                    old(self).include_stderr,
                ),
                ChannelEvent::ExitStatus(c) => {
                    &&& r is None
                    &&& final(self).exit_code == Some(c)
                    &&& final(self).pending@ == old(self).pending@
                    &&& final(self).eof_seen == old(self).eof_seen
                },
                ChannelEvent::Other => {
                    &&& r is None
                    &&& final(self).pending@ == old(self).pending@
                    &&& final(self).eof_seen == old(self).eof_seen
                    &&& final(self).exit_code == old(self).exit_code
                },
            },
            final(self).include_stderr == old(self).include_stderr,
    {
        match ev {
            ChannelEvent::Ended => {
                self.eof_seen = true;
                Some(Vec::new())
            },
            ChannelEvent::Close => {
                self.eof_seen = true;
                Some(Vec::new())
            },
            ChannelEvent::Data(d) => self.deliver(d, want),
            ChannelEvent::ExtendedData(d) => {
                if self.include_stderr {
                    self.deliver(d, want)
                } else {
                    None
                }
            },
            ChannelEvent::ExitStatus(c) => {
                self.exit_code = Some(c);
                None
            },
            ChannelEvent::Other => None,
        }
    }

    fn deliver(&mut self, d: Vec<u8>, want: usize) -> (r: Option<Vec<u8>>)
        ensures
            delivered(*old(self), *final(self), d@, want as int, r, true),
            final(self).include_stderr == old(self).include_stderr,
    {
        if d.len() == 0 {
            return None;
        }
        let mut d = d;
        let n = if want < d.len() {
            want
        } else {
            d.len()
        };
        let head = split_bytes(&mut d, n);
        append_bytes(&mut self.pending, &d);
        Some(head)
    }
}

/// How a read of up to `want` bytes is served before waiting: buffered
/// bytes first, the empty read once the end was seen and nothing is left,
/// else nothing yet (`None`: wait for the channel).
pub open spec fn took_buffered(before: ScpReader, after: ScpReader, want: int, r: Option<Vec<u8>>) -> bool {
    &&& after.eof_seen == before.eof_seen
    &&& after.exit_code == before.exit_code
    &&& after.include_stderr == before.include_stderr
    &&& if before.pending@.len() > 0 {
        let n = min_len(want, before.pending@.len() as int);
        &&& r is Some && r.unwrap()@ == before.pending@.take(n)
        &&& after.pending@ == before.pending@.skip(n)
    } else if before.eof_seen {
        r is Some && r.unwrap()@ == Seq::<u8>::empty() && after.pending@ == before.pending@
    } else {
        r is None && after.pending@ == before.pending@
    }
}

/// How a message of `d` bytes is taken in by a read of up to `want` bytes
/// when `taken` (nothing happens otherwise, nor for an empty message): the
/// first bytes are returned, the rest is buffered.
pub open spec fn delivered(
    before: ScpReader,
    after: ScpReader,
    d: Seq<u8>,
    want: int,
    r: Option<Vec<u8>>,
    taken: bool,
) -> bool {
    &&& after.eof_seen == before.eof_seen
    &&& after.exit_code == before.exit_code
    &&& if taken && d.len() > 0 {
        let n = min_len(want, d.len() as int);
        &&& r is Some && r.unwrap()@ == d.take(n)
        &&& after.pending@ == before.pending@ + d.skip(n)
    } else {
        &&& r is None
        &&& after.pending@ == before.pending@
    }
}

/// Splits off the first `n` bytes of `v`.
fn split_bytes(v: &mut Vec<u8>, n: usize) -> (head: Vec<u8>)
    requires
        n <= old(v)@.len(),
    ensures
        head@ == old(v)@.take(n as int),
        final(v)@ == old(v)@.skip(n as int),
{
    let mut head: Vec<u8> = Vec::new();
    let mut rest: Vec<u8> = Vec::new();
    let len = v.len();
    let mut i: usize = 0;
    while i < len
        invariant
            len == v@.len(),
            n <= len,
            i <= len,
            i <= n ==> head@ == v@.take(i as int) && rest@ == Seq::<u8>::empty(),
            i > n ==> head@ == v@.take(n as int) && rest@ == v@.subrange(n as int, i as int),
        decreases len - i,
    {
        if i < n {
            head.push(v[i]);
        } else {
            rest.push(v[i]);
        }
        proof {
            if i + 1 <= n {
                assert(head@ =~= v@.take(i + 1));
            } else {
                assert(rest@ =~= v@.subrange(n as int, i + 1));
            }
        }
        i += 1;
    }
    proof {
        if len <= n {
            assert(v@.take(n as int) =~= v@.take(len as int));
            assert(rest@ =~= v@.skip(n as int));
        } else {
            assert(v@.subrange(n as int, len as int) =~= v@.skip(n as int));
        }
    }
    *v = rest;
    head
}

/// Appends `b` to `v`.
fn append_bytes(v: &mut Vec<u8>, b: &[u8])
    ensures
        final(v)@ == old(v)@ + b@,
{
    let n = b.len();
    let mut i: usize = 0;
    let ghost start = v@;
    while i < n
        invariant
            n == b@.len(),
            i <= n,
            v@ == start + b@.take(i as int),
        decreases n - i,
    {
        v.push(b[i]);
        assert(v@ =~= start + b@.take(i + 1));
        i += 1;
    }
    assert(b@.take(n as int) =~= b@);
}

// ---------------------------------------------------------------------------
// Reading a known number of bytes
// ---------------------------------------------------------------------------

/// The largest chunk asked of the channel at once.
pub open spec fn chunk_limit() -> int {
    0x10000
}

/// How many bytes to ask for next when `have` of `total` arrived.
pub fn read_exact_want(have: usize, total: usize) -> (r: usize)
    requires
        have < total,
    ensures
        r == min_len(total - have, chunk_limit()),
        r > 0,
{
    let left = total - have;
    if left < 0x10000 {
        left
    } else {
        0x10000
    }
}

/// `SCP: file ended early (<have> of <total> bytes)`.
pub open spec fn early_end_message(have: nat, total: nat) -> Seq<char> {
    seq!['S', 'C', 'P', ':', ' ', 'f', 'i', 'l', 'e', ' ', 'e', 'n', 'd', 'e', 'd', ' ', 'e', 'a', 'r', 'l', 'y', ' ', '(']
        + decimal(have) + seq![' ', 'o', 'f', ' '] + decimal(total) + seq![' ', 'b', 'y', 't', 'e', 's', ')']
}

/// Takes in a chunk of a read of `total` bytes: an empty chunk (the channel
/// ended) is an error, any other is appended.
pub fn read_exact_step(out: &mut Vec<u8>, total: usize, chunk: &[u8]) -> (r: Result<(), String>)
    ensures
        chunk@.len() == 0 ==> r is Err && r->Err_0@ == early_end_message(
            old(out)@.len(),
            total as nat,
        ) && final(out)@ == old(out)@,
        chunk@.len() > 0 ==> r is Ok && final(out)@ == old(out)@ + chunk@,
{
    if chunk.len() == 0 {
        let mut m = vec!['S', 'C', 'P', ':', ' ', 'f', 'i', 'l', 'e', ' ', 'e', 'n', 'd', 'e', 'd', ' ', 'e', 'a', 'r', 'l', 'y', ' ', '('];
        let a = decimal_chars(out.len() as u64);
        let m = concat_chars(m.as_slice(), a.as_slice());
        let of = vec![' ', 'o', 'f', ' '];
        let m = concat_chars(m.as_slice(), of.as_slice());
        let b = decimal_chars(total as u64);
        let m = concat_chars(m.as_slice(), b.as_slice());
        let tail = vec![' ', 'b', 'y', 't', 'e', 's', ')'];
        let m = concat_chars(m.as_slice(), tail.as_slice());
        assert(m@ =~= early_end_message(out@.len(), total as nat));
        return Err(string_of(m.as_slice()));
    }
    append_bytes(out, chunk);
    Ok(())
}

// ---------------------------------------------------------------------------
// Acknowledgements
// ---------------------------------------------------------------------------

/// What the first byte of an acknowledgement says.
pub enum AckStart {
    /// `\0`: accepted.
    Accepted,
    /// `\1` or `\2`: an error message follows, up to a newline.
    Message,
    /// The channel ended, or an unknown byte came: the error.
    Failed(String),
}

/// `SCP: unexpected response byte 0x<b as two lowercase hex digits>`.
pub open spec fn unexpected_byte_message(b: u8) -> Seq<char> {
    seq!['S', 'C', 'P', ':', ' ', 'u', 'n', 'e', 'x', 'p', 'e', 'c', 't', 'e', 'd', ' ', 'r', 'e', 's', 'p', 'o', 'n', 's', 'e', ' ', 'b', 'y', 't', 'e', ' ', '0', 'x']
        + crate::color::hex2(b)
}

pub open spec fn peer_closed_message() -> Seq<char> {
    seq!['S', 'C', 'P', ':', ' ', 'p', 'e', 'e', 'r', ' ', 'c', 'l', 'o', 's', 'e', 'd', ' ', 'w', 'h', 'i', 'l', 'e', ' ', 'a', 'w', 'a', 'i', 't', 'i', 'n', 'g', ' ', 'A', 'C', 'K']
}

/// Reads the first byte of an acknowledgement (`None`: the channel ended).
pub fn ack_start(first: Option<u8>) -> (r: AckStart)
    ensures
        match first {
            None => r is Failed && r->Failed_0@ == peer_closed_message(),
            Some(b) => if b == 0 {
                r is Accepted
            } else if b == 1 || b == 2 {
                r is Message
            } else {
                r is Failed && r->Failed_0@ == unexpected_byte_message(b)
            },
        },
{
    match first {
        None => {
            let m = vec!['S', 'C', 'P', ':', ' ', 'p', 'e', 'e', 'r', ' ', 'c', 'l', 'o', 's', 'e', 'd', ' ', 'w', 'h', 'i', 'l', 'e', ' ', 'a', 'w', 'a', 'i', 't', 'i', 'n', 'g', ' ', 'A', 'C', 'K'];
            assert(m@ =~= peer_closed_message());
            AckStart::Failed(string_of(m.as_slice()))
        },
        Some(b) => {
            if b == 0 {
                AckStart::Accepted
            } else if b == 1 || b == 2 {
                AckStart::Message
            } else {
                let m = vec!['S', 'C', 'P', ':', ' ', 'u', 'n', 'e', 'x', 'p', 'e', 'c', 't', 'e', 'd', ' ', 'r', 'e', 's', 'p', 'o', 'n', 's', 'e', ' ', 'b', 'y', 't', 'e', ' ', '0', 'x'];
                let h = crate::color::hex2_chars(b);
                let all = concat_chars(m.as_slice(), h.as_slice());
                assert(all@ =~= unexpected_byte_message(b));
                AckStart::Failed(string_of(all.as_slice()))
            }
        },
    }
}

/// Takes in the next byte of an acknowledgement's error message (`None`:
/// the channel ended) and says whether to read on: the message ends at a
/// newline, at the end of the channel, or once it holds `max` bytes.
pub fn ack_message_step(msg: &mut Vec<u8>, max: usize, next: Option<u8>) -> (more: bool)
    requires
        old(msg)@.len() < max,
    ensures
        match next {
            Some(b) => if b == 10 {
                !more && final(msg)@ == old(msg)@
            } else {
                final(msg)@ == old(msg)@.push(b) && more == (final(msg)@.len() < max)
            },
            None => !more && final(msg)@ == old(msg)@,
        },
{
    match next {
        None => false,
        Some(b) => {
            if b == 10 {
                false
            } else {
                msg.push(b);
                msg.len() < max
            }
        },
    }
}

/// The error of a refused acknowledgement: the message trimmed, or
/// `fallback` when that leaves nothing.
pub fn ack_error_message(msg: &[u8], fallback: &str) -> (r: String)
    ensures
        r@ == (if trim(utf8_lossy(msg@)).len() == 0 {
            fallback@
        } else {
            trim(utf8_lossy(msg@))
        }),
{
    let text = from_utf8_lossy(msg);
    let t = trim_chars(chars_of(text.as_str()).as_slice());
    if t.len() == 0 {
        string_of(chars_of(fallback).as_slice())
    } else {
        string_of(t.as_slice())
    }
}

// ---------------------------------------------------------------------------
// Control lines
// ---------------------------------------------------------------------------

pub open spec fn line_too_long_message() -> Seq<char> {
    seq!['S', 'C', 'P', ' ', 'c', 'o', 'n', 't', 'r', 'o', 'l', ' ', 'l', 'i', 'n', 'e', ' ', 't', 'o', 'o', ' ', 'l', 'o', 'n', 'g']
}

pub open spec fn control_eof_message() -> Seq<char> {
    seq!['S', 'C', 'P', ':', ' ', 'u', 'n', 'e', 'x', 'p', 'e', 'c', 't', 'e', 'd', ' ', 'E', 'O', 'F', ' ', 'i', 'n', ' ', 'c', 'o', 'n', 't', 'r', 'o', 'l', ' ', 's', 't', 'r', 'e', 'a', 'm']
}

pub open spec fn non_utf8_message() -> Seq<char> {
    seq!['n', 'o', 'n', '-', 'U', 'T', 'F', '-', '8', ' ', 'S', 'C', 'P', ' ', 'c', 'o', 'n', 't', 'r', 'o', 'l', ' ', 'l', 'i', 'n', 'e']
}

/// Whether a control line of `len` bytes may take another byte; the error
/// once it holds `max`.
pub fn control_line_room(len: usize, max: usize) -> (r: Result<(), String>)
    ensures
        len < max ==> r is Ok,
        len >= max ==> r is Err && r->Err_0@ == line_too_long_message(),
{
    if len >= max {
        let m = vec!['S', 'C', 'P', ' ', 'c', 'o', 'n', 't', 'r', 'o', 'l', ' ', 'l', 'i', 'n', 'e', ' ', 't', 'o', 'o', ' ', 'l', 'o', 'n', 'g'];
        assert(m@ =~= line_too_long_message());
        return Err(string_of(m.as_slice()));
    }
    Ok(())
}

/// Takes in the next byte of a control line (`None`: the channel ended):
/// `Ok(true)` at the newline that ends it, `Ok(false)` to read on, the error
/// at the end of the channel.
pub fn control_line_step(buf: &mut Vec<u8>, next: Option<u8>) -> (r: Result<bool, String>)
    ensures
        match next {
            None => r is Err && r->Err_0@ == control_eof_message() && final(buf)@ == old(buf)@,
            Some(b) => if b == 10 {
                r == Ok::<bool, String>(true) && final(buf)@ == old(buf)@
            } else {
                r == Ok::<bool, String>(false) && final(buf)@ == old(buf)@.push(b)
            },
        },
{
    match next {
        None => {
            let m = vec!['S', 'C', 'P', ':', ' ', 'u', 'n', 'e', 'x', 'p', 'e', 'c', 't', 'e', 'd', ' ', 'E', 'O', 'F', ' ', 'i', 'n', ' ', 'c', 'o', 'n', 't', 'r', 'o', 'l', ' ', 's', 't', 'r', 'e', 'a', 'm'];
            assert(m@ =~= control_eof_message());
            Err(string_of(m.as_slice()))
        },
        Some(b) => {
            if b == 10 {
                Ok(true)
            } else {
                buf.push(b);
                Ok(false)
            }
        },
    }
}

/// The text of a complete control line; an error when it is not UTF-8.
pub fn control_line_text(buf: Vec<u8>) -> (r: Result<String, String>)
    ensures
        valid_utf8(buf@) ==> r is Ok && r->Ok_0@ == decode_utf8(buf@),
        !valid_utf8(buf@) ==> r is Err && r->Err_0@ == non_utf8_message(),
{
    match from_utf8(buf) {
        Some(s) => Ok(s),
        None => {
            let m = vec!['n', 'o', 'n', '-', 'U', 'T', 'F', '-', '8', ' ', 'S', 'C', 'P', ' ', 'c', 'o', 'n', 't', 'r', 'o', 'l', ' ', 'l', 'i', 'n', 'e'];
            assert(m@ =~= non_utf8_message());
            Err(string_of(m.as_slice()))
        },
    }
}

// ---------------------------------------------------------------------------
// File records
// ---------------------------------------------------------------------------

/// The size field of a record: its second whitespace-separated field as an
/// unsigned 64-bit number, 0 when it is missing or not a number.
pub open spec fn record_size(line: Seq<char>) -> u64 {
    let f = split_ws(line);
    if f.len() >= 2 {
        match parse_decimal(f[1], u64::MAX as nat) {
            Some(v) => v as u64,
            None => 0,
        }
    } else {
        0
    }
}

/// Whether a record line begins with the character `c`.
pub open spec fn record_kind_is(line: Seq<char>, c: char) -> bool {
    line.len() > 0 && line[0] == c
}

/// The first record a file download receives: the remote error it carries
/// (`\x01` or `\x02`, then the message, trimmed; `remote_error` when that
/// leaves nothing), `not_scp` when it is no file record (`C...`), else the
/// file's size.
pub open spec fn file_record_outcome(
    line: Seq<char>,
    remote_error: Seq<char>,
    not_scp: Seq<char>,
) -> Result<u64, Seq<char>> {
    if record_kind_is(line, '\u{1}') || record_kind_is(line, '\u{2}') {
        let m = trim(line.drop_first());
        Err(
            if m.len() == 0 {
                remote_error
            } else {
                m
            },
        )
    } else if !record_kind_is(line, 'C') {
        Err(not_scp)
    } else {
        Ok(record_size(line))
    }
}

fn record_size_exec(line: &[char]) -> (r: u64)
    ensures
        r == record_size(line@),
{
    let f = split_whitespace_of(line);
    if f.len() >= 2 {
        assert(views(f@)[1] == f@[1]@);
        match parse_decimal_chars(f[1].as_slice(), u64::MAX) {
            Some(v) => v,
            None => 0,
        }
    } else {
        0
    }
}

/// Reads the first record of a file download (see [`file_record_outcome`]).
pub fn file_record(line: &str, remote_error: &str, not_scp: &str) -> (r: Result<u64, String>)
    ensures
        match file_record_outcome(line@, remote_error@, not_scp@) {
            Ok(n) => r == Ok::<u64, String>(n),
            Err(m) => r is Err && r->Err_0@ == m,
        },
{
    let c = chars_of(line);
    if c.len() > 0 && (c[0] == '\u{1}' || c[0] == '\u{2}') {
        let rest = crate::text::slice_of(c.as_slice(), 1, c.len());
        assert(rest@ =~= line@.drop_first());
        let m = trim_chars(rest.as_slice());
        if m.len() == 0 {
            return Err(string_of(chars_of(remote_error).as_slice()));
        }
        return Err(string_of(m.as_slice()));
    }
    if !(c.len() > 0 && c[0] == 'C') {
        return Err(string_of(chars_of(not_scp).as_slice()));
    }
    Ok(record_size_exec(c.as_slice()))
}

/// The largest file read into the editor: 4 MiB.
pub open spec fn max_text_size() -> u64 {
    0x40_0000
}

/// The first record when reading a file into the editor: as
/// [`file_record`], and `too_large` for a file over 4 MiB.
pub fn text_file_record(line: &str, remote_error: &str, not_scp: &str, too_large: &str) -> (r: Result<
    u64,
    String,
>)
    ensures
        match file_record_outcome(line@, remote_error@, not_scp@) {
            Ok(n) => if n > max_text_size() {
                r is Err && r->Err_0@ == too_large@
            } else {
                r == Ok::<u64, String>(n)
            },
            Err(m) => r is Err && r->Err_0@ == m,
        },
{
    let size = file_record(line, remote_error, not_scp)?;
    if size > 0x40_0000 {
        return Err(string_of(chars_of(too_large).as_slice()));
    }
    Ok(size)
}

/// How many bytes of a download of `size` to read next when `done` arrived.
pub fn download_chunk(size: u64, done: u64) -> (r: usize)
    requires
        done < size,
    ensures
        r == min_len(size - done, chunk_limit()),
        r > 0,
{
    let left = size - done;
    if left < 0x10000 {
        left as usize
    } else {
        0x10000
    }
}

pub open spec fn missing_eof_message() -> Seq<char> {
    seq!['S', 'C', 'P', ':', ' ', 'm', 'i', 's', 's', 'i', 'n', 'g', ' ', 'e', 'n', 'd', '-', 'o', 'f', '-', 'f', 'i', 'l', 'e', ' ', 'm', 'a', 'r', 'k', 'e', 'r']
}

/// What reading the end-of-file marker after a payload gave (`None`: the
/// channel ended, which is accepted too): the error when a byte other than
/// `\0` came.
pub fn eof_marker_error(read: Option<u8>) -> (r: Option<String>)
    ensures
        match read {
            Some(b) if b != 0 => r is Some && r.unwrap()@ == missing_eof_message(),
            _ => r is None,
        },
{
    match read {
        Some(b) => {
            if b != 0 {
                let m = vec!['S', 'C', 'P', ':', ' ', 'm', 'i', 's', 's', 'i', 'n', 'g', ' ', 'e', 'n', 'd', '-', 'o', 'f', '-', 'f', 'i', 'l', 'e', ' ', 'm', 'a', 'r', 'k', 'e', 'r'];
                assert(m@ =~= missing_eof_message());
                Some(string_of(m.as_slice()))
            } else {
                None
            }
        },
        None => None,
    }
}

/// The record announcing an upload: `C0644 <size> '<name>'` and a newline.
pub open spec fn upload_header_of(total: u64, name: Seq<char>) -> Seq<char> {
    seq!['C', '0', '6', '4', '4', ' '] + decimal(total as nat) + seq![' '] + sh_quoted(name) + seq!['\n']
}

/// The record announcing an upload (see [`upload_header_of`]).
pub fn upload_header(total: u64, name: &str) -> (r: String)
    ensures
        r@ == upload_header_of(total, name@),
{
    let head = vec!['C', '0', '6', '4', '4', ' '];
    let d = decimal_chars(total);
    let mut a = concat_chars(head.as_slice(), d.as_slice());
    a.push(' ');
    let q = crate::scp::sh_quote(name);
    let mut b = concat_chars(a.as_slice(), chars_of(q.as_str()).as_slice());
    b.push('\n');
    assert(b@ =~= upload_header_of(total, name@));
    string_of(b.as_slice())
}

// ---------------------------------------------------------------------------
// Directory transfers
// ---------------------------------------------------------------------------

/// `dir` and `name` joined by a `/`.
pub fn child_path(dir: &str, name: &str) -> (r: String)
    ensures
        r@ == dir@ + seq!['/'] + name@,
{
    let mut a = chars_of(dir);
    a.push('/');
    let b = concat_chars(a.as_slice(), chars_of(name).as_slice());
    string_of(b.as_slice())
}

/// Where a directory named `name` goes under `parent`: the parent without
/// trailing `/`s, a `/`, and the name.
pub fn root_under(parent: &str, name: &str) -> (r: String)
    ensures
        r@ == strip_trailing(parent@, '/') + seq!['/'] + name@,
{
    let p = strip_trailing_chars(chars_of(parent).as_slice(), '/');
    let ps = string_of(p.as_slice());
    child_path(ps.as_str(), name)
}

/// A record of a recursive download.
pub enum DirRecord {
    /// An empty line: the transfer is over.
    End,
    /// `C<mode> <size> <name>`: a file follows (the name up to a ` -> `).
    File { size: u64, name: String },
    /// `D<mode> 0 <name>`: a directory begins.
    Dir { name: String },
    /// `E`: the current directory ends.
    EndDir,
    /// `T...`: timestamps, acknowledged and skipped.
    Time,
    /// Anything else: the error.
    Unknown(String),
}

pub enum DirRecordView {
    End,
    File { size: u64, name: Seq<char> },
    Dir { name: Seq<char> },
    EndDir,
    Time,
    Unknown(Seq<char>),
}

impl View for DirRecord {
    type V = DirRecordView;

    open spec fn view(&self) -> DirRecordView {
        match self {
            DirRecord::End => DirRecordView::End,
            DirRecord::File { size, name } => DirRecordView::File { size: *size, name: name@ },
            DirRecord::Dir { name } => DirRecordView::Dir { name: name@ },
            DirRecord::EndDir => DirRecordView::EndDir,
            DirRecord::Time => DirRecordView::Time,
            DirRecord::Unknown(m) => DirRecordView::Unknown(m@),
        }
    }
}

/// The name fields of a record: everything after the second field, joined
/// by single spaces.
pub open spec fn record_name(line: Seq<char>) -> Seq<char> {
    let f = split_ws(line);
    join(
        if f.len() >= 2 {
            f.skip(2)
        } else {
            seq![]
        },
        seq![' '],
    )
}

pub open spec fn dir_record_of(line: Seq<char>) -> DirRecordView {
    if line.len() == 0 {
        DirRecordView::End
    } else if line[0] == 'C' {
        DirRecordView::File {
            size: record_size(line),
            name: before_first(record_name(line), crate::scp::link_arrow()),
        }
    } else if line[0] == 'D' {
        DirRecordView::Dir { name: record_name(line) }
    } else if line[0] == 'E' {
        DirRecordView::EndDir
    } else if line[0] == 'T' {
        DirRecordView::Time
    } else {
        DirRecordView::Unknown(
            seq!['u', 'n', 'e', 'x', 'p', 'e', 'c', 't', 'e', 'd', ' ', 'S', 'C', 'P', ' ', 'r', 'e', 'c', 'o', 'r', 'd', ':', ' ']
                + line,
        )
    }
}

fn record_name_exec(line: &[char]) -> (r: Vec<char>)
    ensures
        r@ == record_name(line@),
{
    let f = split_whitespace_of(line);
    let nf = f.len();
    let mut rest: Vec<Vec<char>> = Vec::new();
    let mut k: usize = 2;
    while k < nf
        invariant
            2 <= k,
            nf == f@.len(),
            nf > 2 ==> k <= nf && views(rest@) == views(f@).subrange(2, k as int),
            nf <= 2 ==> views(rest@) == Seq::<Seq<char>>::empty(),
        decreases nf - k,
    {
        let piece = concat_chars(f[k].as_slice(), Vec::<char>::new().as_slice());
        assert(piece@ =~= f@[k as int]@);
        proof {
            crate::text::lemma_views_push(rest@, piece);
        }
        rest.push(piece);
        assert(views(f@).subrange(2, k + 1) =~= views(f@).subrange(2, k as int).push(f@[k as int]@));
        k += 1;
    }
    proof {
        if nf > 2 {
            assert(views(f@).subrange(2, nf as int) =~= views(f@).skip(2));
        } else if nf == 2 {
            assert(views(f@).skip(2) =~= Seq::<Seq<char>>::empty());
        }
    }
    let space = vec![' '];
    assert(space@ =~= seq![' ']);
    join_chars(rest.as_slice(), space.as_slice())
}

/// Reads a record of a recursive download (see [`dir_record_of`]).
pub fn dir_record(line: &str) -> (r: DirRecord)
    ensures
        r@ == dir_record_of(line@),
{
    let c = chars_of(line);
    if c.len() == 0 {
        return DirRecord::End;
    }
    if c[0] == 'C' {
        let size = record_size_exec(c.as_slice());
        let name0 = record_name_exec(c.as_slice());
        let arrow = vec![' ', '-', '>', ' '];
        assert(arrow@ =~= crate::scp::link_arrow());
        let name = before_first_chars(name0.as_slice(), arrow.as_slice());
        DirRecord::File { size, name: string_of(name.as_slice()) }
    } else if c[0] == 'D' {
        let name = record_name_exec(c.as_slice());
        DirRecord::Dir { name: string_of(name.as_slice()) }
    } else if c[0] == 'E' {
        DirRecord::EndDir
    } else if c[0] == 'T' {
        DirRecord::Time
    } else {
        let head = vec!['u', 'n', 'e', 'x', 'p', 'e', 'c', 't', 'e', 'd', ' ', 'S', 'C', 'P', ' ', 'r', 'e', 'c', 'o', 'r', 'd', ':', ' '];
        let m = concat_chars(head.as_slice(), c.as_slice());
        assert(m@ =~= seq!['u', 'n', 'e', 'x', 'p', 'e', 'c', 't', 'e', 'd', ' ', 'S', 'C', 'P', ' ', 'r', 'e', 'c', 'o', 'r', 'd', ':', ' '] + line@);
        DirRecord::Unknown(string_of(m.as_slice()))
    }
}

/// The directory records are written into: the innermost open one (empty
/// when there is none).
pub open spec fn current_dir(dirs: Seq<String>) -> Seq<char> {
    if dirs.len() > 0 {
        dirs.last()@
    } else {
        Seq::<char>::empty()
    }
}

/// The local directories open during a recursive download, the root first,
/// and whether the record of the root directory itself is still to come.
/// The sender opens the transfer with the root's own directory record; it
/// stands for the local root, which is named after the remote directory.
pub struct DirStack {
    pub dirs: Vec<String>,
    pub root_pending: bool,
}

impl DirStack {
    /// A stack holding the local root directory, whose record is to come.
    pub fn new(root: String) -> (r: DirStack)
        ensures
            crate::groups::str_views(r.dirs@) == seq![root@],
            r.root_pending,
    {
        let mut dirs: Vec<String> = Vec::new();
        proof {
            crate::groups::lemma_str_views_push(dirs@, root);
        }
        dirs.push(root);
        assert(crate::groups::str_views(dirs@) =~= seq![root@]);
        DirStack { dirs, root_pending: true }
    }

    /// The directory records are written into (see [`current_dir`]).
    pub fn current(&self) -> (r: String)
        ensures
            r@ == current_dir(self.dirs@),
    {
        let n = self.dirs.len();
        if n > 0 {
            self.dirs[n - 1].clone()
        } else {
            String::new()
        }
    }

    /// A directory record named `name` (made safe as a local name): the root
    /// itself when it is the first record, else a new directory inside the
    /// current one, which is entered. Returns the directory to create.
    pub fn open_dir(&mut self, name: &str) -> (r: Option<String>)
        ensures
            !final(self).root_pending,
            old(self).root_pending ==> r is None && final(self).dirs@ == old(self).dirs@,
            !old(self).root_pending ==> r is Some && r.unwrap()@ == current_dir(old(self).dirs@)
                + seq!['/'] + name@ && final(self).dirs@ == old(self).dirs@.push(r.unwrap()),
    {
        if self.root_pending {
            self.root_pending = false;
            return None;
        }
        let cur = self.current();
        let p = child_path(cur.as_str(), name);
        let q = p.clone();
        self.dirs.push(p);
        Some(q)
    }

    /// Where a file record named `name` (made safe as a local name) is
    /// written: inside the current directory.
    pub fn file_path(&mut self, name: &str) -> (r: String)
        ensures
            !final(self).root_pending,
            final(self).dirs@ == old(self).dirs@,
            r@ == current_dir(old(self).dirs@) + seq!['/'] + name@,
    {
        self.root_pending = false;
        let cur = self.current();
        child_path(cur.as_str(), name)
    }

    /// An end-of-directory record: back to the parent, or, at the root,
    /// `false` (the transfer is over).
    pub fn leave(&mut self) -> (more: bool)
        ensures
            more == (old(self).dirs@.len() > 1),
            more ==> final(self).dirs@ == old(self).dirs@.drop_last(),
            !more ==> final(self).dirs@ == old(self).dirs@,
            final(self).root_pending == old(self).root_pending,
    {
        if self.dirs.len() > 1 {
            self.dirs.pop();
            true
        } else {
            false
        }
    }
}

/// What a recursive download does with a record.
pub enum DirAction {
    /// The transfer is over.
    Stop,
    /// Acknowledge the record, then the transfer is over.
    AckAndStop,
    /// Acknowledge the record, then receive `size` bytes into the local file
    /// `local`, reported under `name`.
    AckAndReceive { size: u64, local: String, name: String },
    /// Acknowledge the record, then create the local directory.
    AckAndMakeDir(String),
    /// Acknowledge the record.
    Ack,
    /// The transfer fails with this error.
    Fail(String),
}

pub enum DirActionView {
    Stop,
    AckAndStop,
    AckAndReceive { size: u64, local: Seq<char>, name: Seq<char> },
    AckAndMakeDir(Seq<char>),
    Ack,
    Fail(Seq<char>),
}

impl View for DirAction {
    type V = DirActionView;

    open spec fn view(&self) -> DirActionView {
        match self {
            DirAction::Stop => DirActionView::Stop,
            DirAction::AckAndStop => DirActionView::AckAndStop,
            DirAction::AckAndReceive { size, local, name } => DirActionView::AckAndReceive {
                size: *size,
                local: local@,
                name: name@,
            },
            DirAction::AckAndMakeDir(p) => DirActionView::AckAndMakeDir(p@),
            DirAction::Ack => DirActionView::Ack,
            DirAction::Fail(m) => DirActionView::Fail(m@),
        }
    }
}

impl DirStack {
    /// Takes a record of a recursive download: the end ends it; a file is
    /// received into the current directory under its name made safe; the
    /// root's own directory record is acknowledged, any other directory is
    /// created inside the current one and entered; an end of directory goes
    /// back to the parent, or ends the transfer at the root; timestamps are
    /// acknowledged; anything else is the error.
    pub fn step(&mut self, rec: DirRecord) -> (r: DirAction)
        ensures
            match rec@ {
                DirRecordView::End => r@ == DirActionView::Stop && *final(self) == *old(self),
                DirRecordView::File { size, name } => {
                    &&& r@ == DirActionView::AckAndReceive {
                        size,
                        local: current_dir(old(self).dirs@) + seq!['/'] + safe_file_name(name),
                        name: safe_file_name(name),
                    }
                    &&& final(self).dirs@ == old(self).dirs@
                    &&& !final(self).root_pending
                },
                DirRecordView::Dir { name } => {
                    &&& !final(self).root_pending
                    &&& if old(self).root_pending {
                        r@ == DirActionView::Ack && final(self).dirs@ == old(self).dirs@
                    } else {
                        let p = current_dir(old(self).dirs@) + seq!['/'] + safe_file_name(name);
                        &&& r@ == DirActionView::AckAndMakeDir(p)
                        &&& final(self).dirs@.len() == old(self).dirs@.len() + 1
                        &&& final(self).dirs@.drop_last() == old(self).dirs@
                        &&& final(self).dirs@.last()@ == p
                    }
                },
                DirRecordView::EndDir => {
                    &&& final(self).root_pending == old(self).root_pending
                    &&& if old(self).dirs@.len() > 1 {
                        r@ == DirActionView::Ack && final(self).dirs@ == old(self).dirs@.drop_last()
                    } else {
                        r@ == DirActionView::AckAndStop && final(self).dirs@ == old(self).dirs@
                    }
                },
                DirRecordView::Time => r@ == DirActionView::Ack && *final(self) == *old(self),
                DirRecordView::Unknown(m) => r@ == DirActionView::Fail(m) && *final(self) == *old(self),
            },
    {
        match rec {
            DirRecord::End => DirAction::Stop,
            DirRecord::File { size, name } => {
                let safe = sanitize_filename(name.as_str());
                let local = self.file_path(safe.as_str());
                DirAction::AckAndReceive { size, local, name: safe }
            },
            DirRecord::Dir { name } => {
                let safe = sanitize_filename(name.as_str());
                match self.open_dir(safe.as_str()) {
                    Some(p) => DirAction::AckAndMakeDir(p),
                    None => DirAction::Ack,
                }
            },
            DirRecord::EndDir => {
                if self.leave() {
                    DirAction::Ack
                } else {
                    DirAction::AckAndStop
                }
            },
            DirRecord::Time => DirAction::Ack,
            DirRecord::Unknown(m) => DirAction::Fail(m),
        }
    }
}

/// The last component of a remote path: what follows the last `/` once
/// trailing `/`s are dropped.
pub open spec fn remote_base_name(path: Seq<char>) -> Seq<char> {
    let parts = crate::text::split_all(strip_trailing(path, '/'), '/');
    if parts.len() > 0 {
        parts.last()
    } else {
        Seq::<char>::empty()
    }
}

/// The last component of a remote path (see [`remote_base_name`]).
pub fn base_name(path: &str) -> (r: String)
    ensures
        r@ == remote_base_name(path@),
{
    let t = strip_trailing_chars(chars_of(path).as_slice(), '/');
    let parts = crate::text::split_all_of(t.as_slice(), '/');
    let n = parts.len();
    if n > 0 {
        assert(views(parts@)[n - 1] == parts@[n - 1]@);
        string_of(parts[n - 1].as_slice())
    } else {
        String::new()
    }
}

/// Characters a local file name cannot hold: path separators, the
/// characters Windows reserves, and NUL.
pub open spec fn unsafe_in_file_name(c: char) -> bool {
    c == '/' || c == '\\' || c == ':' || c == '*' || c == '?' || c == '"' || c == '<' || c == '>'
        || c == '|' || c == '\0'
}

/// A remote name made safe as a local file name: every such character
/// becomes `_`.
pub open spec fn safe_file_name(name: Seq<char>) -> Seq<char> {
    name.map_values(|c: char| if unsafe_in_file_name(c) { '_' } else { c })
}

/// A remote name made safe as a local file name (see [`safe_file_name`]).
pub fn sanitize_filename(name: &str) -> (r: String)
    ensures
        r@ == safe_file_name(name@),
{
    let c = chars_of(name);
    let n = c.len();
    let mut out: Vec<char> = Vec::new();
    let mut i: usize = 0;
    while i < n
        invariant
            n == c@.len(),
            c@ == name@,
            i <= n,
            out@ == safe_file_name(name@).take(i as int),
        decreases n - i,
    {
        let ch = c[i];
        let bad = ch == '/' || ch == '\\' || ch == ':' || ch == '*' || ch == '?' || ch == '"' || ch == '<'
            || ch == '>' || ch == '|' || ch == '\0';
        out.push(if bad { '_' } else { ch });
        assert(out@ =~= safe_file_name(name@).take(i + 1));
        i += 1;
    }
    assert(safe_file_name(name@).take(n as int) =~= safe_file_name(name@));
    string_of(out.as_slice())
}

// ---------------------------------------------------------------------------
// How a transfer ends
// ---------------------------------------------------------------------------

/// Whether a download reads the end-of-file marker: the payload arrived in
/// full, without error or cancellation.
pub fn download_trailer_due(failed: bool, cancelled: bool, done: u64, size: u64) -> (r: bool)
    ensures
        r == (!failed && !cancelled && done == size),
{
    !failed && !cancelled && done == size
}

/// How a transfer ended.
#[derive(Clone, Copy, Debug, PartialEq, Eq, Structural)]
pub enum TransferEnd {
    /// An error: it is returned; a partial download is removed.
    Failed,
    /// Cancelled: a partial download is removed, the transfer is shown as
    /// cancelled (state 4) and reports `false`.
    Cancelled,
    /// Done: shown as finished (state 1), reports `true`.
    Completed,
}

pub open spec fn transfer_end_of(failed: bool, cancelled: bool) -> TransferEnd {
    if failed {
        TransferEnd::Failed
    } else if cancelled {
        TransferEnd::Cancelled
    } else {
        TransferEnd::Completed
    }
}

/// How a transfer ends: an error first, then a cancellation, else done.
pub fn transfer_end(failed: bool, cancelled: bool) -> (r: TransferEnd)
    ensures
        r == transfer_end_of(failed, cancelled),
{
    if failed {
        TransferEnd::Failed
    } else if cancelled {
        TransferEnd::Cancelled
    } else {
        TransferEnd::Completed
    }
}

impl TransferEnd {
    /// The state shown on the transfer list: 4 when cancelled, 1 when done;
    /// none after an error.
    pub fn progress_state(&self) -> (r: Option<u8>)
        ensures
            r == match *self {
                TransferEnd::Failed => None,
                TransferEnd::Cancelled => Some(4u8),
                TransferEnd::Completed => Some(1u8),
            },
    {
        match self {
            TransferEnd::Failed => None,
            TransferEnd::Cancelled => Some(4),
            TransferEnd::Completed => Some(1),
        }
    }

    /// Whether a partial local file of a download is removed.
    pub fn removes_partial_download(&self) -> (r: bool)
        ensures
            r == !(*self is Completed),
    {
        match self {
            TransferEnd::Completed => false,
            _ => true,
        }
    }

    /// What the transfer reports when it did not fail: whether it finished.
    pub fn finished(&self) -> (r: bool)
        ensures
            r == (*self is Completed),
    {
        match self {
            TransferEnd::Completed => true,
            _ => false,
        }
    }
}

// ---------------------------------------------------------------------------
// Laws
// ---------------------------------------------------------------------------

/// Reading never loses or reorders bytes: what a read returns from a
/// channel message, followed by what is kept for later, is the message.
pub proof fn law_reader_keeps_every_byte(
    before: ScpReader,
    after: ScpReader,
    d: Seq<u8>,
    want: int,
    r: Option<Vec<u8>>,
)
    requires
        before.pending@.len() == 0,
        d.len() > 0,
        want >= 0,
        delivered(before, after, d, want, r, true),
    ensures
        r is Some,
        r.unwrap()@ + after.pending@ == d,
{
    let n = min_len(want, d.len() as int);
    assert(before.pending@ + d.skip(n) =~= d.skip(n));
    assert(d.take(n) + d.skip(n) =~= d);
}

/// What has been read, followed by what is buffered, is everything the
/// channel delivered to the reader so far (standard output, and standard
/// error when it is read too), in order.
pub open spec fn stream_consistent(r: ScpReader, returned: Seq<u8>, received: Seq<u8>) -> bool {
    returned + r.pending@ == received
}

/// Over any sequence of reads and channel messages, no byte is lost,
/// repeated or reordered: serving a read from the buffer keeps the stream
/// consistent; a read that has to wait does so only with nothing buffered
/// and the end not seen; and once the end was seen and the buffer is empty,
/// every read is empty.
pub proof fn law_buffered_read_keeps_stream(
    before: ScpReader,
    after: ScpReader,
    want: int,
    r: Option<Vec<u8>>,
    returned: Seq<u8>,
    received: Seq<u8>,
)
    requires
        want >= 0,
        stream_consistent(before, returned, received),
        took_buffered(before, after, want, r),
    ensures
        r is Some ==> stream_consistent(after, returned + r.unwrap()@, received),
        r is None ==> before.pending@.len() == 0 && !before.eof_seen && stream_consistent(
            after,
            returned,
            received,
        ),
        before.eof_seen && before.pending@.len() == 0 ==> r is Some && r.unwrap()@.len() == 0
            && after.pending@.len() == 0 && after.eof_seen,
{
    if before.pending@.len() > 0 {
        let n = min_len(want, before.pending@.len() as int);
        assert(before.pending@.take(n) + before.pending@.skip(n) =~= before.pending@);
        assert(returned + r.unwrap()@ + after.pending@ =~= returned + before.pending@);
    } else if before.eof_seen {
        assert(returned + r.unwrap()@ =~= returned);
    }
}

/// Taking in a channel message while a read waits (which it does only with
/// nothing buffered) keeps the stream consistent: the bytes the message adds
/// are returned or buffered, in order; the end of the channel returns the
/// empty read and adds nothing; an exit status is recorded.
pub proof fn law_channel_message_keeps_stream(
    before: ScpReader,
    after: ScpReader,
    d: Seq<u8>,
    want: int,
    r: Option<Vec<u8>>,
    taken: bool,
    returned: Seq<u8>,
    received: Seq<u8>,
)
    requires
        want >= 0,
        before.pending@.len() == 0,
        stream_consistent(before, returned, received),
        delivered(before, after, d, want, r, taken),
    ensures
        stream_consistent(
            after,
            returned + (match r {
                Some(v) => v@,
                None => Seq::<u8>::empty(),
            }),
            if taken {
                received + d
            } else {
                received
            },
        ),
{
    assert(returned =~= received);
    if taken && d.len() > 0 {
        let n = min_len(want, d.len() as int);
        assert(before.pending@ + d.skip(n) =~= d.skip(n));
        assert(returned + d.take(n) + d.skip(n) =~= received + d);
    } else {
        assert(returned + Seq::<u8>::empty() =~= returned);
        if taken {
            assert(d =~= Seq::<u8>::empty());
            assert(received + d =~= received);
        }
    }
}

proof fn lemma_decimal_digits(n: nat)
    ensures
        decimal(n).len() > 0,
        crate::text::all_digits(decimal(n)),
        crate::text::digits_value(decimal(n)) == n,
    decreases n,
{
    if n < 10 {
        let c = (n + 48) as char;
        assert(c as u32 == n + 48);
        assert(decimal(n) == seq![c]);
        assert(decimal(n).drop_last() =~= Seq::<char>::empty());
        assert(decimal(n).last() == c);
        assert(crate::text::digits_value(Seq::<char>::empty()) == 0);
        assert(crate::text::digit_value(c) == n);
    } else {
        lemma_decimal_digits(n / 10);
        let d = decimal(n / 10);
        let c = ((n % 10) + 48) as char;
        assert(c as u32 == (n % 10) + 48);
        assert(crate::text::digit_value(c) == n % 10);
        assert(decimal(n) == d.push(c));
        assert(decimal(n).drop_last() =~= d);
        assert(decimal(n).last() == c);
        assert(crate::text::digits_value(decimal(n)) == crate::text::digits_value(d) * 10 + n % 10);
        assert((n / 10) * 10 + n % 10 == n);
        assert forall|i: int| 0 <= i < decimal(n).len() implies crate::text::is_digit(
            #[trigger] decimal(n)[i],
        ) by {
            if i < d.len() {
                assert(decimal(n)[i] == d[i]);
            }
        }
    }
}

proof fn lemma_digits_not_ws(s: Seq<char>)
    requires
        crate::text::all_digits(s),
    ensures
        forall|j: int| 0 <= j < s.len() ==> !crate::text::is_ws(#[trigger] s[j]),
{
    assert forall|j: int| 0 <= j < s.len() implies !crate::text::is_ws(#[trigger] s[j]) by {
        assert(crate::text::is_digit(s[j]));
    }
}

/// A receiver reading the upload header as a control line (without its
/// newline) takes it for a file record of exactly the announced size.
pub proof fn law_upload_header_announces_size(total: u64, name: Seq<char>, e1: Seq<char>, e2: Seq<char>)
    ensures
        file_record_outcome(upload_header_of(total, name).drop_last(), e1, e2) == Ok::<u64, Seq<char>>(
            total,
        ),
{
    let a = seq!['C', '0', '6', '4', '4'];
    let d = decimal(total as nat);
    let b = seq![' '] + sh_quoted(name);
    let line = upload_header_of(total, name).drop_last();
    assert(line =~= a + seq![' '] + d + b);
    lemma_decimal_digits(total as nat);
    lemma_digits_not_ws(d);
    assert(crate::text::is_ws(' '));
    // The first field is `C0644`.
    crate::text::lemma_ws_index(line, 5);
    assert(line.take(5) =~= a);
    let rest = line.skip(5);
    assert(rest =~= seq![' '] + d + b);
    assert(crate::text::is_ws(rest[0]));
    assert(rest.drop_first() =~= d + b);
    assert(split_ws(rest) == split_ws(d + b));
    // The second one is the size.
    let db = d + b;
    assert forall|j: int| 0 <= j < d.len() implies !crate::text::is_ws(#[trigger] db[j]) by {
        assert(db[j] == d[j]);
    }
    assert(db[d.len() as int] == ' ');
    crate::text::lemma_ws_index(db, d.len() as int);
    assert(db.take(d.len() as int) =~= d);
    assert(!crate::text::is_ws(db[0])) by {
        assert(db[0] == d[0]);
    }
    assert(split_ws(db)[0] == d);
    assert(!crate::text::is_ws(line[0]));
    assert(split_ws(line) == seq![a] + split_ws(rest));
    assert(split_ws(line)[1] == d);
    assert(d[0] != '+') by {
        assert(crate::text::is_digit(d[0]));
    }
    assert(parse_decimal(d, u64::MAX as nat) == Some(total as nat));
    assert(record_kind_is(line, 'C'));
}

} // verus!
