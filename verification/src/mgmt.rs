//! The line protocol of the proxy's management socket: requests read from
//! whitespace-separated words, the framing of request lines, and the text of
//! the answers.

use vstd::prelude::*;

use crate::proxy_model::{location_view, spec_network_location, NetworkLocationAddress, SocketAddr};
use crate::session_id::{ksuid_from_base62, SessionId};
use crate::strings::{push_str, string_from_chars};
use crate::text::{split_whitespace, split_ws, words_view};
use crate::boot::str_equals;
use crate::ipv6_text::{ipv6_text, ipv6_to_string};
use crate::proxy_model::{ipv4_text, ipv4_to_string};
use crate::session::{elapsed, spec_state_name, SessionExport, SocketAddrPair};
use crate::session_id::ksuid_to_base62;
use crate::strings::{dec, push_decimal};
use crate::text::{chars_of, trim, trim_range};
use vstd::string::StringSliceAdditionalSpecFns;
use vstd::utf8::{decode_utf8, encode_utf8, valid_utf8};

verus! {

/// A request that the management socket could not take; a recoverable one
/// is answered with an error line, any other ends the connection.
#[derive(Debug, Clone)]
pub struct MgmtProtocolError {
    pub recoverable: bool,
    pub message: String,
}

/// A flag of a backend as the management protocol gives it.
#[derive(Debug, Clone, Copy)]
pub enum BackendArgsFlags {
    UseHaproxy(i8),
}

/// Where a backend listens, and whether it wants a PROXY v1 header.
#[derive(Debug, Clone)]
pub struct NetworkLocation {
    pub use_haproxy_header_v: bool,
    pub address: NetworkLocationAddress,
}

/// A backend to add or put in place of the others for a host name.
#[derive(Debug, Clone)]
pub struct BackendArgs {
    pub hostname: String,
    pub target_address: NetworkLocation,
    pub flags: Vec<BackendArgsFlags>,
}

/// The host name whose backends are to be removed.
#[derive(Debug, Clone)]
pub struct RemoveBackends {
    pub hostname: String,
}

/// A request read from the management socket.
#[derive(Debug, Clone)]
pub enum AsciiManagerRequest {
    PrintActiveSessions,
    DestroySession(SessionId),
    ReplaceBackend(BackendArgs),
    AddHeldBackend(BackendArgs),
    DumpBackends,
    RemoveBackends(RemoveBackends),
    Quit,
}

/// A backend as plain values.
pub struct ArgsView {
    pub hostname: Seq<char>,
    pub use_haproxy_header_v: bool,
    pub address: (Seq<char>, int, Option<SocketAddr>),
    pub flags: Seq<BackendArgsFlags>,
}

/// A request as plain values.
pub enum RequestView {
    PrintActiveSessions,
    DestroySession(Seq<u8>),
    ReplaceBackend(ArgsView),
    AddHeldBackend(ArgsView),
    DumpBackends,
    RemoveBackends(Seq<char>),
    Quit,
}

/// `a` as plain values.
pub open spec fn args_view(a: BackendArgs) -> ArgsView {
    ArgsView {
        hostname: a.hostname@,
        use_haproxy_header_v: a.target_address.use_haproxy_header_v,
        address: location_view(a.target_address.address),
        flags: a.flags@,
    }
}

/// `r` as plain values.
pub open spec fn request_view(r: AsciiManagerRequest) -> RequestView {
    match r {
        AsciiManagerRequest::PrintActiveSessions => RequestView::PrintActiveSessions,
        AsciiManagerRequest::DestroySession(id) => RequestView::DestroySession(id.0@),
        AsciiManagerRequest::ReplaceBackend(a) => RequestView::ReplaceBackend(args_view(a)),
        AsciiManagerRequest::AddHeldBackend(a) => RequestView::AddHeldBackend(args_view(a)),
        AsciiManagerRequest::DumpBackends => RequestView::DumpBackends,
        AsciiManagerRequest::RemoveBackends(rb) => RequestView::RemoveBackends(rb.hostname@),
        AsciiManagerRequest::Quit => RequestView::Quit,
    }
}

/// The `Debug` text of a string: quoted, with its special characters escaped.
pub uninterp spec fn str_debug(s: Seq<char>) -> Seq<char>;

/// `<str as Debug>::fmt`, as `format!("{:?}", s)` gives it: the text of `s`
/// quoted and escaped, named rather than stated.
#[verifier::external_body]
fn debug_text(s: &str) -> (r: String)
    ensures
        r@ == str_debug(s@),
{
    format!("{:?}", s)
}

/// The message for a backend request without its two arguments.
pub open spec fn backend_usage_text() -> Seq<char> {
    "replace-backend takes arguments: <hostname> <target-address> [...flags]"@
}

/// The PROXY version asked for by the flag words `fs`, after `acc`: each flag
/// may be given once, and any other word is refused.
pub open spec fn flags_outcome(fs: Seq<Seq<char>>, acc: Option<i8>) -> Result<Option<i8>, Seq<char>>
    decreases fs.len(),
{
    if fs.len() == 0 {
        Ok(acc)
    } else if fs[0] == "use-haproxy-v1"@ || fs[0] == "use-haproxy-v2"@ {
        if acc is Some {
            Err("already set haproxy header"@)
        } else {
            flags_outcome(
                fs.skip(1),
                Some(
                    if fs[0] == "use-haproxy-v1"@ {
                        1i8
                    } else {
                        2i8
                    },
                ),
            )
        }
    } else {
        Err("unknown flag: "@ + str_debug(fs[0]))
    }
}

/// The backend that the words `parts` give (host name, address, then flags),
/// where reading the address as a socket address gives `tcp`.
pub open spec fn spec_backend_args(parts: Seq<Seq<char>>, tcp: Option<SocketAddr>) -> Result<
    ArgsView,
    Seq<char>,
> {
    if parts.len() < 2 {
        Err(backend_usage_text())
    } else {
        match flags_outcome(parts.skip(2), None) {
            Err(m) => Err(m),
            Ok(Some(2)) => Err("use-haproxy-v2 not supported yet"@),
            Ok(v) => Ok(
                ArgsView {
                    hostname: parts[0],
                    use_haproxy_header_v: v == Some(1i8),
                    address: spec_network_location(parts[1], tcp),
                    flags: Seq::empty(),
                },
            ),
        }
    }
}

/// The request that the line `value` holds, where reading its third word as
/// a socket address gives `tcp`; `Err` holds the message of the error.
pub open spec fn spec_parse_request(value: Seq<char>, tcp: Option<SocketAddr>) -> Result<
    RequestView,
    Seq<char>,
> {
    let words = split_ws(value);
    if words.len() == 0 {
        Err("unknown command: "@ + value)
    } else {
        let c = words[0];
        let rest = words.skip(1);
        if c == "print-active-sessions"@ {
            Ok(RequestView::PrintActiveSessions)
        } else if c == "dump-backends"@ {
            Ok(RequestView::DumpBackends)
        } else if c == "destroy-session"@ {
            if rest.len() == 0 {
                Err("destroy-session takes one argument (a ksuid)"@)
            } else {
                match ksuid_from_base62(rest[0]) {
                    Some(b) => Ok(RequestView::DestroySession(b)),
                    None => Err("destroy-session first argument: invalid ksuid"@),
                }
            }
        } else if c == "replace-backend"@ {
            match spec_backend_args(rest, tcp) {
                Ok(a) => Ok(RequestView::ReplaceBackend(a)),
                Err(m) => Err(m),
            }
        } else if c == "add-held-backend"@ {
            match spec_backend_args(rest, tcp) {
                Ok(a) => Ok(RequestView::AddHeldBackend(a)),
                Err(m) => Err(m),
            }
        } else if c == "remove-backends"@ {
            if rest.len() == 0 {
                Err(backend_usage_text())
            } else {
                Ok(RequestView::RemoveBackends(rest[0]))
            }
        } else if c == "quit"@ {
            Ok(RequestView::Quit)
        } else {
            Err("unknown command: "@ + value)
        }
    }
}

/// The command words are all different.
proof fn lemma_commands_distinct()
    ensures
        "print-active-sessions"@ != "dump-backends"@,
        "print-active-sessions"@ != "destroy-session"@,
        "print-active-sessions"@ != "replace-backend"@,
        "print-active-sessions"@ != "add-held-backend"@,
        "print-active-sessions"@ != "remove-backends"@,
        "print-active-sessions"@ != "quit"@,
        "dump-backends"@ != "destroy-session"@,
        "dump-backends"@ != "replace-backend"@,
        "dump-backends"@ != "add-held-backend"@,
        "dump-backends"@ != "remove-backends"@,
        "dump-backends"@ != "quit"@,
        "destroy-session"@ != "replace-backend"@,
        "destroy-session"@ != "add-held-backend"@,
        "destroy-session"@ != "remove-backends"@,
        "destroy-session"@ != "quit"@,
        "replace-backend"@ != "add-held-backend"@,
        "replace-backend"@ != "remove-backends"@,
        "replace-backend"@ != "quit"@,
        "add-held-backend"@ != "remove-backends"@,
        "add-held-backend"@ != "quit"@,
        "remove-backends"@ != "quit"@,
{
    reveal_strlit("print-active-sessions");
    reveal_strlit("dump-backends");
    reveal_strlit("destroy-session");
    reveal_strlit("replace-backend");
    reveal_strlit("add-held-backend");
    reveal_strlit("remove-backends");
    reveal_strlit("quit");
    assert("print-active-sessions"@[0] != "dump-backends"@[0]);
    assert("print-active-sessions"@[0] != "destroy-session"@[0]);
    assert("print-active-sessions"@[0] != "replace-backend"@[0]);
    assert("print-active-sessions"@[0] != "add-held-backend"@[0]);
    assert("print-active-sessions"@[0] != "remove-backends"@[0]);
    assert("print-active-sessions"@[0] != "quit"@[0]);
    assert("dump-backends"@[1] != "destroy-session"@[1]);
    assert("dump-backends"@[0] != "replace-backend"@[0]);
    assert("dump-backends"@[0] != "add-held-backend"@[0]);
    assert("dump-backends"@[0] != "remove-backends"@[0]);
    assert("dump-backends"@[0] != "quit"@[0]);
    assert("destroy-session"@[0] != "replace-backend"@[0]);
    assert("destroy-session"@[0] != "add-held-backend"@[0]);
    assert("destroy-session"@[0] != "remove-backends"@[0]);
    assert("destroy-session"@[0] != "quit"@[0]);
    assert("replace-backend"@[0] != "add-held-backend"@[0]);
    assert("replace-backend"@[2] != "remove-backends"@[2]);
    assert("replace-backend"@[0] != "quit"@[0]);
    assert("add-held-backend"@[0] != "remove-backends"@[0]);
    assert("add-held-backend"@[0] != "quit"@[0]);
    assert("remove-backends"@[0] != "quit"@[0]);
}

/// Law: the first word of a line decides the backend request it holds. A
/// line whose first word is `replace-backend` holds a `ReplaceBackend`
/// request, and one whose first word is `add-held-backend` an
/// `AddHeldBackend` one, each exactly when the words after it read as a
/// backend; no other line holds either. The backend's host name is the
/// second word.
pub proof fn lemma_backend_request_kind(value: Seq<char>, tcp: Option<SocketAddr>)
    ensures
        ({
            let words = split_ws(value);
            let r = spec_parse_request(value, tcp);
            &&& (r matches Ok(RequestView::ReplaceBackend(_))) <==> (words.len() > 0 && words[0]
                == "replace-backend"@ && spec_backend_args(words.skip(1), tcp) is Ok)
            &&& (r matches Ok(RequestView::AddHeldBackend(_))) <==> (words.len() > 0 && words[0]
                == "add-held-backend"@ && spec_backend_args(words.skip(1), tcp) is Ok)
            &&& r matches Ok(RequestView::ReplaceBackend(a)) ==> words.len() >= 3 && a.hostname
                == words[1]
            &&& r matches Ok(RequestView::AddHeldBackend(a)) ==> words.len() >= 3 && a.hostname
                == words[1]
        }),
{
    lemma_commands_distinct();
    let words = split_ws(value);
    if words.len() >= 2 {
        assert(words.skip(1)[0] == words[1]);
    }
}

/// Law: the other requests are likewise told apart by the first word
/// alone: `print-active-sessions`, `dump-backends` and `quit` each hold
/// their request whatever follows, `destroy-session` holds a session's
/// destruction exactly when its second word reads as a session id, and
/// `remove-backends` holds the removal of the host named by its second
/// word exactly when there is one. A line with no words, or whose first
/// word is no command, is refused as an unknown command.
pub proof fn lemma_request_command(value: Seq<char>, tcp: Option<SocketAddr>)
    ensures
        ({
            let words = split_ws(value);
            let r = spec_parse_request(value, tcp);
            &&& (r == Ok::<RequestView, Seq<char>>(RequestView::PrintActiveSessions)) <==> (words.len()
                > 0 && words[0] == "print-active-sessions"@)
            &&& (r == Ok::<RequestView, Seq<char>>(RequestView::DumpBackends)) <==> (words.len() > 0
                && words[0] == "dump-backends"@)
            &&& (r == Ok::<RequestView, Seq<char>>(RequestView::Quit)) <==> (words.len() > 0 && words[0]
                == "quit"@)
            &&& (r matches Ok(RequestView::DestroySession(_))) <==> (words.len() >= 2 && words[0]
                == "destroy-session"@ && ksuid_from_base62(words[1]) is Some)
            &&& r matches Ok(RequestView::DestroySession(b)) ==> ksuid_from_base62(words[1])
                == Some(b)
            &&& (r matches Ok(RequestView::RemoveBackends(_))) <==> (words.len() >= 2 && words[0]
                == "remove-backends"@)
            &&& r matches Ok(RequestView::RemoveBackends(h)) ==> h == words[1]
            &&& (words.len() == 0 || (words[0] != "print-active-sessions"@ && words[0]
                != "dump-backends"@ && words[0] != "destroy-session"@ && words[0]
                != "replace-backend"@ && words[0] != "add-held-backend"@ && words[0]
                != "remove-backends"@ && words[0] != "quit"@)) ==> r == Err::<RequestView, Seq<char>>(
                "unknown command: "@ + value,
            )
        }),
{
    lemma_commands_distinct();
    let words = split_ws(value);
    if words.len() >= 2 {
        assert(words.skip(1)[0] == words[1]);
    }
}

/// A recoverable error with the message `m`.
fn recoverable(m: String) -> (r: MgmtProtocolError)
    ensures
        r.recoverable,
        r.message@ == m@,
{
    MgmtProtocolError { recoverable: true, message: m }
}

/// The backend that the words `parts[from..]` give.
fn backend_args_from_words(parts: &Vec<String>, from: usize, tcp: Option<SocketAddr>) -> (r: Result<
    BackendArgs,
    MgmtProtocolError,
>)
    requires
        from <= parts@.len(),
    ensures
        match spec_backend_args(words_view(parts@).skip(from as int), tcp) {
            Ok(a) => r matches Ok(b) && args_view(b) == a,
            Err(m) => r matches Err(e) && e.recoverable && e.message@ == m,
        },
{
    let ghost ws = words_view(parts@).skip(from as int);
    proof {
        reveal_strlit("replace-backend takes arguments: <hostname> <target-address> [...flags]");
    }
    if parts.len() - from < 2 {
        return Err(
            recoverable(
                "replace-backend takes arguments: <hostname> <target-address> [...flags]".to_owned(),
            ),
        );
    }
    let hostname = &parts[from];
    let address = NetworkLocationAddress::from_str(parts[from + 1].as_str(), tcp);
    assert(ws[0] == parts@[from as int]@);
    assert(ws[1] == parts@[from + 1]@);
    let mut use_haproxy: Option<i8> = None;
    let mut k: usize = from + 2;
    assert(ws.skip(2) =~= words_view(parts@).skip(k as int));
    while k < parts.len()
        invariant
            from + 2 <= k <= parts@.len(),
            ws == words_view(parts@).skip(from as int),
            flags_outcome(ws.skip(2), None) == flags_outcome(
                words_view(parts@).skip(k as int),
                use_haproxy,
            ),
        decreases parts@.len() - k,
    {
        let flag = parts[k].as_str();
        let ghost fs = words_view(parts@).skip(k as int);
        assert(fs[0] == flag@);
        assert(fs.skip(1) =~= words_view(parts@).skip(k + 1));
        proof {
            reveal_strlit("use-haproxy-v1");
            reveal_strlit("use-haproxy-v2");
            reveal_strlit("already set haproxy header");
        }
        if str_equals(flag, "use-haproxy-v1") {
            if use_haproxy.is_some() {
                return Err(recoverable("already set haproxy header".to_owned()));
            }
            use_haproxy = Some(1);
        } else if str_equals(flag, "use-haproxy-v2") {
            if use_haproxy.is_some() {
                return Err(recoverable("already set haproxy header".to_owned()));
            }
            use_haproxy = Some(2);
        } else {
            let mut v: Vec<char> = Vec::new();
            push_str(&mut v, "unknown flag: ");
            let d = debug_text(flag);
            push_str(&mut v, d.as_str());
            return Err(recoverable(string_from_chars(v.as_slice())));
        }
        k = k + 1;
    }
    assert(words_view(parts@).skip(k as int).len() == 0);
    let use_haproxy_header_v = match use_haproxy {
        None => false,
        Some(1) => true,
        Some(v) => {
            if v == 2 {
                return Err(recoverable("use-haproxy-v2 not supported yet".to_owned()));
            }
            proof {
                assert(false) by {
                    assert(flags_outcome(ws.skip(2), None) == Ok::<Option<i8>, Seq<char>>(Some(v)));
                    lemma_flags_values(ws.skip(2), None);
                }
            }
            false
        },
    };
    Ok(
        BackendArgs {
            hostname: hostname.clone(),
            target_address: NetworkLocation { use_haproxy_header_v, address },
            flags: Vec::new(),
        },
    )
}

/// Reading flags gives no version but 1 or 2.
proof fn lemma_flags_values(fs: Seq<Seq<char>>, acc: Option<i8>)
    requires
        acc is None || acc == Some(1i8) || acc == Some(2i8),
    ensures
        flags_outcome(fs, acc) matches Ok(v) ==> (v is None || v == Some(1i8) || v == Some(2i8)),
    decreases fs.len(),
{
    if fs.len() > 0 && (fs[0] == "use-haproxy-v1"@ || fs[0] == "use-haproxy-v2"@) && acc is None {
        let nv = if fs[0] == "use-haproxy-v1"@ {
            1i8
        } else {
            2i8
        };
        lemma_flags_values(fs.skip(1), Some(nv));
    }
}

/// The line `value` as `unknown command: ` and the line.
fn unknown_command(value: &str) -> (r: MgmtProtocolError)
    ensures
        r.recoverable,
        r.message@ == "unknown command: "@ + value@,
{
    let mut v: Vec<char> = Vec::new();
    push_str(&mut v, "unknown command: ");
    push_str(&mut v, value);
    recoverable(string_from_chars(v.as_slice()))
}

impl AsciiManagerRequest {
    /// The request that the line `value` holds; `tcp` is what reading its
    /// third word as a socket address gives.
    pub fn from_str(value: &str, tcp: Option<SocketAddr>) -> (r: Result<
        AsciiManagerRequest,
        MgmtProtocolError,
    >)
        ensures
            match spec_parse_request(value@, tcp) {
                Ok(rv) => r matches Ok(req) && request_view(req) == rv,
                Err(m) => r matches Err(e) && e.recoverable && e.message@ == m,
            },
    {
        let parts = split_whitespace(value);
        let ghost words = words_view(parts@);
        if parts.len() == 0 {
            return Err(unknown_command(value));
        }
        let command = parts[0].as_str();
        assert(words[0] == command@);
        assert(words.skip(1) =~= words_view(parts@).skip(1));
        proof {
            reveal_strlit("destroy-session takes one argument (a ksuid)");
            reveal_strlit("destroy-session first argument: invalid ksuid");
            reveal_strlit("replace-backend takes arguments: <hostname> <target-address> [...flags]");
        }
        if str_equals(command, "print-active-sessions") {
            Ok(AsciiManagerRequest::PrintActiveSessions)
        } else if str_equals(command, "dump-backends") {
            Ok(AsciiManagerRequest::DumpBackends)
        } else if str_equals(command, "destroy-session") {
            if parts.len() < 2 {
                return Err(recoverable("destroy-session takes one argument (a ksuid)".to_owned()));
            }
            assert(words.skip(1)[0] == parts@[1]@);
            match SessionId::from_base62(parts[1].as_str()) {
                Some(id) => Ok(AsciiManagerRequest::DestroySession(id)),
                None => Err(recoverable("destroy-session first argument: invalid ksuid".to_owned())),
            }
        } else if str_equals(command, "replace-backend") {
            match backend_args_from_words(&parts, 1, tcp) {
                Ok(a) => Ok(AsciiManagerRequest::ReplaceBackend(a)),
                Err(e) => Err(e),
            }
        } else if str_equals(command, "add-held-backend") {
            match backend_args_from_words(&parts, 1, tcp) {
                Ok(a) => Ok(AsciiManagerRequest::AddHeldBackend(a)),
                Err(e) => Err(e),
            }
        } else if str_equals(command, "remove-backends") {
            if parts.len() < 2 {
                return Err(
                    recoverable(
                        "replace-backend takes arguments: <hostname> <target-address> [...flags]".to_owned(),
                    ),
                );
            }
            assert(words.skip(1)[0] == parts@[1]@);
            Ok(AsciiManagerRequest::RemoveBackends(RemoveBackends { hostname: parts[1].clone() }))
        } else if str_equals(command, "quit") {
            Ok(AsciiManagerRequest::Quit)
        } else {
            Err(unknown_command(value))
        }
    }

    /// The third word of the line `value`, the one read as a backend's
    /// address, if the line has one.
    pub fn address_word(value: &str) -> (r: Option<String>)
        ensures
            split_ws(value@).len() >= 3 ==> (r matches Some(w) && w@ == split_ws(value@)[2]),
            split_ws(value@).len() < 3 ==> r is None,
    {
        let parts = split_whitespace(value);
        if parts.len() < 3 {
            return None;
        }
        assert(words_view(parts@)[2] == parts@[2]@);
        Some(parts[2].clone())
    }
}


/// The text of the error `std::str::from_utf8` gives for the bytes `b`.
pub uninterp spec fn utf8_error_text(b: Seq<u8>) -> Seq<char>;

/// `std::str::from_utf8`: the text that the bytes spell where they are
/// UTF-8; else the `Display` text of its error, named rather than stated.
#[verifier::external_body]
fn decode_utf8_line(bytes: &[u8]) -> (r: Result<String, String>)
    ensures
        r is Ok <==> valid_utf8(bytes@),
        r matches Ok(s) ==> s@ == decode_utf8(bytes@),
        r matches Err(m) ==> m@ == utf8_error_text(bytes@),
{
    match std::str::from_utf8(bytes) {
        Ok(s) => Ok(s.to_string()),
        Err(e) => Err(format!("{}", e)),
    }
}

/// The index of the first line feed in `b[i..]`.
pub open spec fn first_newline_from(b: Seq<u8>, i: int) -> Option<int>
    decreases b.len() - i,
{
    if i < 0 || i >= b.len() {
        None
    } else if b[i] == 10 {
        Some(i)
    } else {
        first_newline_from(b, i + 1)
    }
}

/// The index of the first line feed in `b`.
pub open spec fn first_newline(b: Seq<u8>) -> Option<int> {
    first_newline_from(b, 0)
}

/// A line feed found from `i` on lies at or after `i`, within the bytes.
proof fn lemma_first_newline_bounds(b: Seq<u8>, i: int)
    requires
        0 <= i,
    ensures
        first_newline_from(b, i) matches Some(e) ==> i <= e < b.len(),
    decreases b.len() - i,
{
    if i < b.len() && b[i] != 10 {
        lemma_first_newline_bounds(b, i + 1);
    }
}

/// The index of the first line feed in `src`.
fn find_newline(src: &Vec<u8>) -> (r: Option<usize>)
    ensures
        match first_newline(src@) {
            Some(e) => r == Some(e as usize) && 0 <= e < src@.len(),
            None => r is None,
        },
{
    proof {
        lemma_first_newline_bounds(src@, 0);
    }
    let n = src.len();
    let mut i: usize = 0;
    while i < n
        invariant
            n == src@.len(),
            0 <= i <= n,
            first_newline(src@) == first_newline_from(src@, i as int),
        decreases n - i,
    {
        if src[i] == 10 {
            return Some(i);
        }
        i = i + 1;
    }
    None
}

/// Removes `src[..=i]` from `src` and gives it.
fn split_line(src: &mut Vec<u8>, i: usize) -> (line: Vec<u8>)
    requires
        i < old(src)@.len(),
    ensures
        line@ == old(src)@.take(i + 1),
        final(src)@ == old(src)@.skip(i + 1),
{
    let n = src.len();
    let mut line: Vec<u8> = Vec::new();
    let mut k: usize = 0;
    while k <= i
        invariant
            0 <= k <= i + 1,
            i < n,
            n == src@.len(),
            src@ == old(src)@,
            line@ == src@.take(k as int),
        decreases i + 1 - k,
    {
        line.push(src[k]);
        k = k + 1;
        assert(line@ =~= src@.take(k as int));
    }
    let mut rest: Vec<u8> = Vec::new();
    let mut m: usize = i + 1;
    while m < n
        invariant
            i + 1 <= m <= n,
            n == src@.len(),
            src@ == old(src)@,
            rest@ == src@.subrange(i + 1, m as int),
        decreases n - m,
    {
        rest.push(src[m]);
        m = m + 1;
        assert(rest@ =~= src@.subrange(i + 1, m as int));
    }
    assert(rest@ =~= old(src)@.skip(i + 1));
    *src = rest;
    line
}

/// The most bytes kept while waiting for the end of a line.
pub const MAX_LINE_LENGTH: usize = 4096;

/// Takes the first line of `src`, line feed included, and gives it trimmed;
/// nothing while no line is complete, unless more than 4096 bytes wait,
/// which ends the connection, as a line that is not UTF-8 does.
pub fn take_line(src: &mut Vec<u8>) -> (r: Result<Option<String>, MgmtProtocolError>)
    ensures
        match first_newline(old(src)@) {
            Some(e) => {
                &&& final(src)@ == old(src)@.skip(e + 1)
                &&& valid_utf8(old(src)@.take(e + 1)) ==> (r matches Ok(Some(l)) && l@ == trim(
                    decode_utf8(old(src)@.take(e + 1)),
                ))
                &&& !valid_utf8(old(src)@.take(e + 1)) ==> (r matches Err(err) && !err.recoverable
                    && err.message@ == "could not process line: "@ + utf8_error_text(
                    old(src)@.take(e + 1),
                ))
            },
            None => {
                &&& final(src)@ == old(src)@
                &&& old(src)@.len() > 4096 ==> (r matches Err(err) && !err.recoverable
                    && err.message@ == "line too long - connection terminated"@)
                &&& old(src)@.len() <= 4096 ==> r matches Ok(None)
            },
        },
{
    let n = src.len();
    let i = match find_newline(src) {
        None => {
            if MAX_LINE_LENGTH < n {
                return Err(
                    MgmtProtocolError {
                        recoverable: false,
                        message: "line too long - connection terminated".to_owned(),
                    },
                );
            }
            return Ok(None);
        },
        Some(i) => i,
    };
    let line = split_line(src, i);
    match decode_utf8_line(line.as_slice()) {
        Ok(text) => {
            let v = chars_of(text.as_str());
            let (a, b) = trim_range(&v, 0, v.len());
            assert(v@.subrange(0, v@.len() as int) =~= v@);
            let t = string_from_chars(&v.as_slice()[a..b]);
            Ok(Some(t))
        },
        Err(e) => {
            let mut msg: Vec<char> = Vec::new();
            push_str(&mut msg, "could not process line: ");
            push_str(&mut msg, e.as_str());
            Err(MgmtProtocolError { recoverable: false, message: string_from_chars(msg.as_slice()) })
        },
    }
}

/// Appends the bytes `b` to `dst`.
pub(crate) fn extend_bytes(dst: &mut Vec<u8>, b: &[u8])
    ensures
        final(dst)@ == old(dst)@ + b@,
{
    let mut i: usize = 0;
    while i < b.len()
        invariant
            0 <= i <= b@.len(),
            dst@ == old(dst)@ + b@.take(i as int),
        decreases b@.len() - i,
    {
        dst.push(b[i]);
        i = i + 1;
        assert(dst@ =~= old(dst)@ + b@.take(i as int));
    }
    assert(b@.take(b@.len() as int) =~= b@);
}

/// The UTF-8 bytes of `s`.
pub open spec fn utf8_of(s: Seq<char>) -> Seq<u8> {
    encode_utf8(s)
}

/// Appends the UTF-8 bytes of `s` to `dst`.
pub(crate) fn extend_str(dst: &mut Vec<u8>, s: &str)
    ensures
        final(dst)@ == old(dst)@ + utf8_of(s@),
{
    let b = s.as_bytes();
    extend_bytes(dst, b);
}

/// Answers that a request succeeded.
pub fn encode_generic_ok(dst: &mut Vec<u8>)
    ensures
        final(dst)@ == old(dst)@ + utf8_of("OK\n"@),
{
    extend_str(dst, "OK\n");
}

/// Text encodes to some bytes exactly when it holds a character.
proof fn lemma_utf8_len_positive(s: Seq<char>)
    ensures
        (utf8_of(s).len() > 0) == (s.len() > 0),
{
    if s.len() > 0 {
        assert(utf8_of(s) == vstd::utf8::encode_scalar(s[0] as u32) + encode_utf8(s.drop_first()));
        assert(vstd::utf8::encode_scalar(s[0] as u32).len() > 0);
    }
}

/// Answers that a request failed, with its message where there is one.
pub fn encode_generic_error(message: &str, dst: &mut Vec<u8>)
    ensures
        final(dst)@ == old(dst)@ + utf8_of("ERROR"@) + (if message@.len() > 0 {
            utf8_of(": "@) + utf8_of(message@)
        } else {
            Seq::empty()
        }) + utf8_of("\n"@),
{
    let ghost start = dst@;
    let ghost middle: Seq<u8> = if message@.len() > 0 {
        utf8_of(": "@) + utf8_of(message@)
    } else {
        Seq::empty()
    };
    extend_str(dst, "ERROR");
    proof {
        lemma_utf8_len_positive(message@);
    }
    if !message.is_empty() {
        extend_str(dst, ": ");
        extend_str(dst, message);
        assert(dst@ =~= start + utf8_of("ERROR"@) + middle);
    } else {
        assert(dst@ =~= start + utf8_of("ERROR"@) + middle);
    }
    extend_str(dst, "\n");
}

/// Answers a backend dump: the backends as JSON text, then `OK`.
pub fn encode_dump_backends(json: &str, dst: &mut Vec<u8>)
    ensures
        final(dst)@ == old(dst)@ + utf8_of(json@) + utf8_of("\nOK\n"@),
{
    extend_str(dst, json);
    extend_str(dst, "\nOK\n");
}

/// How the two ends of a connection are listed: this side, then the peer.
pub open spec fn pair_text(p: SocketAddrPair) -> Seq<char> {
    match p {
        SocketAddrPair::V4 { local_addr, peer_addr } => ipv4_text(local_addr.ip) + ":"@ + dec(
            local_addr.port as nat,
        ) + ","@ + ipv4_text(peer_addr.ip) + ":"@ + dec(peer_addr.port as nat) + " "@,
        SocketAddrPair::V6 { local_addr, peer_addr } => "["@ + ipv6_text(local_addr.ip@) + "]:"@
            + dec(local_addr.port as nat) + ",["@ + ipv6_text(peer_addr.ip@) + "]:"@ + dec(
            peer_addr.port as nat,
        ) + " "@,
        SocketAddrPair::Unix => "unix,unix "@,
        SocketAddrPair::Unknown => "unknown,unknown "@,
    }
}

/// The start of a session's line: its id, its state and its ends.
pub open spec fn session_head(si: SessionExport) -> Seq<char> {
    ksuid_to_base62(si.session_id.0@) + " "@ + spec_state_name(si.state) + " "@ + pair_text(
        si.client_conn,
    )
}

/// The backend name and connection time of a session's line, where known.
pub open spec fn session_backend(si: SessionExport) -> Seq<char> {
    (match si.backend_name {
        Some(n) => "backend_name="@ + n@ + " "@,
        None => Seq::empty(),
    }) + (match si.backend_connect_latency {
        Some(l) => "backend_connect_latency_ms="@ + dec(l as nat) + " "@,
        None => Seq::empty(),
    })
}

/// The ages and byte counts that end a session's line at the time `now`.
pub open spec fn session_tail(si: SessionExport, now: u64) -> Seq<char> {
    "session_age_ms="@ + dec(elapsed(si.start_time, now) as nat) + " "@ + "last_xmit_ago_ms="@
        + dec(elapsed(si.last_xmit, now) as nat) + " "@ + "client_to_backend_bytes="@ + dec(
        si.bytes_client_to_backend as nat,
    ) + " "@ + "backend_to_client_bytes="@ + dec(si.bytes_backend_to_client as nat) + " "@
        + "\n"@
}

/// The line that lists a session at the time `now`.
pub open spec fn session_line(si: SessionExport, now: u64) -> Seq<char> {
    session_head(si) + session_backend(si) + session_tail(si, now)
}

/// Appends the start of a session's line.
fn push_session_head(v: &mut Vec<char>, si: &SessionExport)
    ensures
        final(v)@ == old(v)@ + session_head(*si),
{
    let id = si.session_id.to_base62();
    push_str(v, id.as_str());
    push_str(v, " ");
    push_str(v, si.state.as_str());
    push_str(v, " ");
    push_pair(v, si.client_conn);
    assert(v@ =~= old(v)@ + session_head(*si));
}

/// Appends the backend part of a session's line.
fn push_session_backend(v: &mut Vec<char>, si: &SessionExport)
    ensures
        final(v)@ == old(v)@ + session_backend(*si),
{
    match &si.backend_name {
        Some(bn) => {
            push_str(v, "backend_name=");
            push_str(v, bn.as_str());
            push_str(v, " ");
        },
        None => {},
    }
    let ghost after_name = v@;
    if let Some(bcl) = si.backend_connect_latency {
        push_str(v, "backend_connect_latency_ms=");
        push_decimal(v, bcl);
        push_str(v, " ");
    }
    assert(v@ =~= old(v)@ + session_backend(*si));
}

/// Appends the end of a session's line.
fn push_session_tail(v: &mut Vec<char>, si: &SessionExport, now: u64)
    ensures
        final(v)@ == old(v)@ + session_tail(*si, now),
{
    push_str(v, "session_age_ms=");
    push_decimal(v, now.saturating_sub(si.start_time));
    push_str(v, " ");
    push_str(v, "last_xmit_ago_ms=");
    push_decimal(v, now.saturating_sub(si.last_xmit));
    push_str(v, " ");
    push_str(v, "client_to_backend_bytes=");
    push_decimal(v, si.bytes_client_to_backend);
    push_str(v, " ");
    push_str(v, "backend_to_client_bytes=");
    push_decimal(v, si.bytes_backend_to_client);
    push_str(v, " ");
    push_str(v, "\n");
    assert(v@ =~= old(v)@ + session_tail(*si, now));
}

/// Appends how the ends of a connection are listed.
fn push_pair(v: &mut Vec<char>, p: SocketAddrPair)
    ensures
        final(v)@ == old(v)@ + pair_text(p),
{
    match p {
        SocketAddrPair::V4 { local_addr, peer_addr } => {
            let l = ipv4_to_string(local_addr.ip);
            let r = ipv4_to_string(peer_addr.ip);
            push_str(v, l.as_str());
            push_str(v, ":");
            push_decimal(v, local_addr.port as u64);
            push_str(v, ",");
            push_str(v, r.as_str());
            push_str(v, ":");
            push_decimal(v, peer_addr.port as u64);
            push_str(v, " ");
        },
        SocketAddrPair::V6 { local_addr, peer_addr } => {
            let l = ipv6_to_string(local_addr.ip);
            let r = ipv6_to_string(peer_addr.ip);
            push_str(v, "[");
            push_str(v, l.as_str());
            push_str(v, "]:");
            push_decimal(v, local_addr.port as u64);
            push_str(v, ",[");
            push_str(v, r.as_str());
            push_str(v, "]:");
            push_decimal(v, peer_addr.port as u64);
            push_str(v, " ");
        },
        SocketAddrPair::Unix => {
            push_str(v, "unix,unix ");
        },
        SocketAddrPair::Unknown => {
            push_str(v, "unknown,unknown ");
        },
    }
    assert(v@ =~= old(v)@ + pair_text(p));
}

/// The line that lists the session `si` at the time `now`.
pub fn write_session_info(si: &SessionExport, now: u64) -> (r: String)
    ensures
        r@ == session_line(*si, now),
{
    let mut v: Vec<char> = Vec::new();
    push_session_head(&mut v, si);
    push_session_backend(&mut v, si);
    push_session_tail(&mut v, si, now);
    assert(v@ =~= session_line(*si, now));
    string_from_chars(v.as_slice())
}

/// The most bytes one listed session may take.
pub const SESSION_LINE_SCRATCH: usize = 1024;

/// Appends the lines of the sessions `sessions` and then `END`; a line of
/// more than 1024 bytes stops the listing with an error, after the lines
/// before it.
pub fn encode_print_active_sessions(sessions: &Vec<SessionExport>, now: u64, dst: &mut Vec<u8>) -> (r:
    Result<(), ()>)
    ensures
        ({
            let lines = sessions@.map_values(|si: SessionExport| utf8_of(session_line(si, now)));
            match r {
                Ok(()) => (forall|i: int| 0 <= i < lines.len() ==> #[trigger] lines[i].len() <= 1024)
                    && final(dst)@ == old(dst)@ + lines.flatten() + utf8_of("END\n"@),
                Err(()) => exists|k: int|
                    0 <= k < lines.len() && lines[k].len() > 1024 && (forall|i: int|
                        0 <= i < k ==> #[trigger] lines[i].len() <= 1024) && final(dst)@ == old(
                        dst,
                    )@ + lines.take(k).flatten(),
            }
        }),
{
    let ghost lines = sessions@.map_values(|si: SessionExport| utf8_of(session_line(si, now)));
    let mut i: usize = 0;
    while i < sessions.len()
        invariant
            0 <= i <= sessions@.len(),
            lines == sessions@.map_values(|si: SessionExport| utf8_of(session_line(si, now))),
            forall|j: int| 0 <= j < i ==> #[trigger] lines[j].len() <= 1024,
            dst@ == old(dst)@ + lines.take(i as int).flatten(),
        decreases sessions@.len() - i,
    {
        let line = write_session_info(&sessions[i], now);
        let b = line.as_str().as_bytes();
        assert(b@ == lines[i as int]);
        if b.len() > SESSION_LINE_SCRATCH {
            return Err(());
        }
        let ghost before = dst@;
        extend_bytes(dst, b);
        proof {
            assert(lines.take(i + 1) =~= lines.take(i as int).push(lines[i as int]));
            lines.take(i as int).lemma_flatten_push(lines[i as int]);
        }
        i = i + 1;
    }
    assert(lines.take(lines.len() as int) =~= lines);
    extend_str(dst, "END\n");
    Ok(())
}

} // verus!
