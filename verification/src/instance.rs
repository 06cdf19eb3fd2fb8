//! Single-instance support: the names of the instance mutex and message pipe,
//! the decision taken when claiming the instance, and the message that a second
//! instance hands its argument to the first one in.

use vstd::prelude::*;
use vstd::utf8::{decode_utf8, encode_utf8, valid_utf8};
use crate::encode::{encode_utf16, wide_null};
use crate::text::{ascii_alnum, chars_of, is_ascii_alnum, push_char, push_str};

verus! {

broadcast use vstd::string::group_string_axioms;

/// The size of the buffer the first instance reads one message into.
pub const PIPE_BUFFER_SIZE: usize = 4096;

/// The start of the message pipe's name, before the app id.
pub const PIPE_PREFIX: &'static str = "\\\\.\\pipe\\nest-";

/// The start of the instance mutex's name, before the app id.
pub const MUTEX_PREFIX: &'static str = "Local\\nest-";

/// The end of the instance mutex's name, after the app id.
pub const MUTEX_SUFFIX: &'static str = "-instance";

/// An app id with every character that is not an ASCII letter or digit
/// replaced by `-`.
pub open spec fn safe_id(app_id: Seq<char>) -> Seq<char> {
    app_id.map_values(|c: char| if is_ascii_alnum(c) { c } else { '-' })
}

/// `app_id` made safe for object and file names.
pub fn safe_app_id(app_id: &str) -> (r: String)
    ensures
        r@ == safe_id(app_id@),
{
    let v = chars_of(app_id);
    let mut out = String::new();
    let mut i: usize = 0;
    while i < v.len()
        invariant
            i <= v.len(),
            v@ == app_id@,
            out@ == safe_id(v@.take(i as int)),
        decreases v.len() - i,
    {
        let c = v[i];
        push_char(&mut out, if ascii_alnum(c) { c } else { '-' });
        i = i + 1;
        assert(out@ =~= safe_id(v@.take(i as int)));
    }
    assert(v@.take(v.len() as int) =~= v@);
    out
}

/// A made-safe app id has the length of the app id and holds nothing but ASCII
/// letters, digits and `-`; ids that are already safe are kept as they are.
pub proof fn lemma_safe_id(app_id: Seq<char>)
    ensures
        safe_id(app_id).len() == app_id.len(),
        forall|i: int|
            0 <= i < app_id.len() ==> is_ascii_alnum(#[trigger] safe_id(app_id)[i]) || safe_id(
                app_id,
            )[i] == '-',
        safe_id(safe_id(app_id)) == safe_id(app_id),
{
    assert(safe_id(safe_id(app_id)) =~= safe_id(app_id));
}

/// The pipe name, as text, for an app id.
pub open spec fn pipe_path(app_id: Seq<char>) -> Seq<char> {
    PIPE_PREFIX@ + safe_id(app_id)
}

/// The mutex name, as text, for an app id.
pub open spec fn mutex_path(app_id: Seq<char>) -> Seq<char> {
    MUTEX_PREFIX@ + safe_id(app_id) + MUTEX_SUFFIX@
}

/// The NUL-terminated UTF-16 name of the message pipe.
pub fn pipe_name(app_id: &str) -> (r: Vec<u16>)
    ensures
        r@ == encode_utf16(pipe_path(app_id@)).push(0),
{
    let mut name = String::new();
    push_str(&mut name, PIPE_PREFIX);
    let id = safe_app_id(app_id);
    push_str(&mut name, id.as_str());
    wide_null(name.as_str())
}

/// The NUL-terminated UTF-16 name of the instance mutex.
pub fn mutex_name(app_id: &str) -> (r: Vec<u16>)
    ensures
        r@ == encode_utf16(mutex_path(app_id@)).push(0),
{
    let mut name = String::new();
    push_str(&mut name, MUTEX_PREFIX);
    let id = safe_app_id(app_id);
    push_str(&mut name, id.as_str());
    push_str(&mut name, MUTEX_SUFFIX);
    wide_null(name.as_str())
}

/// What became of the attempt to be the app's only running instance.
#[derive(PartialEq, Eq, Structural, Clone, Copy, Debug)]
pub enum ClaimKind {
    /// Single-instance mode is off.
    Disabled,
    /// This process holds the instance mutex.
    Primary,
    /// Another process holds it; hand the argument over and exit.
    Secondary,
    /// The mutex could not be created.
    Failed,
}

/// The outcome of claiming the instance mutex: `Disabled` when the mode is
/// off, `Failed` when creating the mutex failed, `Secondary` when it already
/// existed, `Primary` otherwise.
pub fn claim_outcome(enabled: bool, mutex_created: bool, already_exists: bool) -> (r: ClaimKind)
    ensures
        !enabled ==> r == ClaimKind::Disabled,
        enabled && !mutex_created ==> r == ClaimKind::Failed,
        enabled && mutex_created && already_exists ==> r == ClaimKind::Secondary,
        enabled && mutex_created && !already_exists ==> r == ClaimKind::Primary,
{
    if !enabled {
        ClaimKind::Disabled
    } else if !mutex_created {
        ClaimKind::Failed
    } else if already_exists {
        ClaimKind::Secondary
    } else {
        ClaimKind::Primary
    }
}

// ---------------------------------------------------------------------------
// The hand-over message
// ---------------------------------------------------------------------------

/// The bytes a second instance writes: the UTF-8 of its argument, or nothing.
pub open spec fn payload_of(arg: Option<Seq<char>>) -> Seq<u8> {
    match arg {
        Some(a) => encode_utf8(a),
        None => seq![],
    }
}

/// The bytes to write to the pipe for the start-up argument.
pub fn pipe_payload(arg: Option<&str>) -> (r: Vec<u8>)
    ensures
        r@ == payload_of(match arg {
            Some(a) => Some(a@),
            None => None,
        }),
{
    let mut out: Vec<u8> = Vec::new();
    if let Some(a) = arg {
        let bytes = a.as_bytes();
        let mut i: usize = 0;
        while i < bytes.len()
            invariant
                i <= bytes.len(),
                out@ == bytes@.take(i as int),
            decreases bytes.len() - i,
        {
            out.push(bytes[i]);
            i = i + 1;
            assert(out@ =~= bytes@.take(i as int));
        }
        assert(bytes@.take(bytes.len() as int) =~= bytes@);
    }
    out
}

/// The byte count handed to `WriteFile`: the payload length, capped at
/// `u32::MAX`.
pub fn pipe_write_len(len: usize) -> (r: u32)
    ensures
        r as int == if len <= u32::MAX { len as int } else { u32::MAX as int },
{
    if len <= 0xffff_ffffusize {
        len as u32
    } else {
        u32::MAX
    }
}

/// What the first instance's listener does after one round on the pipe.
#[derive(PartialEq, Eq, Structural, Clone, Copy, Debug)]
pub enum ListenStep {
    /// The pipe could not be created: stop listening.
    Stop,
    /// A client connected and a message was read: hand it on.
    Deliver,
    /// Nothing to hand on: reset the pipe and wait for the next client.
    Skip,
}

/// The listener stops when the pipe cannot be created, delivers when a client
/// connected and the read succeeded, and otherwise waits for the next client.
pub fn listen_step(pipe_created: bool, connected: bool, read_ok: bool) -> (r: ListenStep)
    ensures
        !pipe_created ==> r == ListenStep::Stop,
        pipe_created && connected && read_ok ==> r == ListenStep::Deliver,
        pipe_created && !(connected && read_ok) ==> r == ListenStep::Skip,
{
    if !pipe_created {
        ListenStep::Stop
    } else if connected && read_ok {
        ListenStep::Deliver
    } else {
        ListenStep::Skip
    }
}

/// What `String::from_utf8_lossy` makes of `bytes`.
pub uninterp spec fn utf8_lossy(bytes: Seq<u8>) -> Seq<char>;

/// `String::from_utf8_lossy`: decodes `bytes` as UTF-8, putting U+FFFD in place
/// of invalid sequences; on valid UTF-8 this is exact decoding. How invalid
/// input is replaced is left to the name `utf8_lossy`.
#[verifier::external_body]
fn decode_lossy(bytes: &[u8]) -> (r: String)
    ensures
        r@ == utf8_lossy(bytes@),
        valid_utf8(bytes@) ==> r@ == decode_utf8(bytes@),
{
    String::from_utf8_lossy(bytes).into_owned()
}

pub open spec fn is_line_end(c: char) -> bool {
    c == '\r' || c == '\n'
}

/// `s` without trailing `\r` and `\n` characters (`trim_end_matches(['\r', '\n'])`).
pub open spec fn trim_line_end(s: Seq<char>) -> Seq<char>
    decreases s.len(),
{
    if s.len() > 0 && is_line_end(s.last()) {
        trim_line_end(s.drop_last())
    } else {
        s
    }
}

/// The message text with its trailing line breaks removed.
pub fn trim_message(text: &str) -> (r: String)
    ensures
        r@ == trim_line_end(text@),
{
    let v = chars_of(text);
    let mut j: usize = v.len();
    assert(v@.take(j as int) =~= v@);
    while j > 0 && (v[j - 1] == '\r' || v[j - 1] == '\n')
        invariant
            j <= v.len(),
            v@ == text@,
            trim_line_end(text@) == trim_line_end(v@.take(j as int)),
        decreases j,
    {
        assert(v@.take(j as int).drop_last() =~= v@.take(j - 1));
        j = j - 1;
    }
    let mut out = String::new();
    let mut i: usize = 0;
    while i < j
        invariant
            i <= j <= v.len(),
            out@ == v@.take(i as int),
        decreases j - i,
    {
        push_char(&mut out, v[i]);
        i = i + 1;
        assert(out@ =~= v@.take(i as int));
    }
    out
}

/// The message that the first instance takes from the bytes read off the pipe:
/// decoded leniently as UTF-8, trailing line breaks removed.
pub fn pipe_message(bytes: &[u8]) -> (r: String)
    ensures
        r@ == trim_line_end(utf8_lossy(bytes@)),
        valid_utf8(bytes@) ==> r@ == trim_line_end(decode_utf8(bytes@)),
{
    let text = decode_lossy(bytes);
    trim_message(text.as_str())
}

/// The argument a message stands for: none when the message is empty.
pub open spec fn arg_of_message(m: Seq<char>) -> Option<Seq<char>> {
    if m.len() == 0 {
        None
    } else {
        Some(m)
    }
}

/// The start-up argument carried by a received message.
pub fn message_arg(message: String) -> (r: Option<String>)
    ensures
        match r {
            Some(s) => arg_of_message(message@) == Some(s@),
            None => arg_of_message(message@) is None,
        },
{
    if message.as_str().is_empty() {
        None
    } else {
        Some(message)
    }
}

/// What the first instance receives for the argument the second one sends:
/// the argument itself, or none when it is absent or empty. Holds for every
/// argument that does not end in a line break.
pub proof fn lemma_handover_roundtrip(arg: Option<Seq<char>>)
    requires
        arg matches Some(a) ==> (a.len() == 0 || !is_line_end(a.last())),
    ensures
        valid_utf8(payload_of(arg)),
        arg_of_message(trim_line_end(decode_utf8(payload_of(arg)))) == match arg {
            Some(a) => arg_of_message(a),
            None => None,
        },
{
    match arg {
        Some(a) => {
            vstd::utf8::encode_utf8_valid_utf8(a);
            vstd::utf8::encode_utf8_decode_utf8(a);
        },
        None => {
            vstd::utf8::encode_utf8_valid_utf8(Seq::<char>::empty());
            vstd::utf8::encode_utf8_decode_utf8(Seq::<char>::empty());
            assert(payload_of(arg) =~= encode_utf8(Seq::<char>::empty()));
        },
    }
}

} // verus!
