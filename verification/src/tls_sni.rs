//! What the proxy reads from the start of a TLS connection: the server name
//! that the ClientHello asks for, the alerts it answers with, the framing of
//! what it passes through, and the errors of its timers and streams.

use vstd::prelude::*;

use crate::strings::{dec, push_decimal, push_str, string_from_chars};

verus! {

/// A TLS alert that ends a connection.
#[derive(Debug, Clone, Copy, PartialEq, Eq)]
pub struct AlertError {
    pub alert_description: u8,
}

/// The description number of the `internal_error` alert.
pub const ALERT_INTERNAL_ERROR_DESCRIPTION: u8 = 80;

/// The description number of the `unrecognized_name` alert.
pub const ALERT_UNRECOGNIZED_NAME_DESCRIPTION: u8 = 112;

/// The `internal_error` alert.
pub fn alert_internal_error() -> (r: AlertError)
    ensures
        r.alert_description == 80,
{
    AlertError { alert_description: ALERT_INTERNAL_ERROR_DESCRIPTION }
}

/// The `unrecognized_name` alert.
pub fn alert_unrecognized_name() -> (r: AlertError)
    ensures
        r.alert_description == 112,
{
    AlertError { alert_description: ALERT_UNRECOGNIZED_NAME_DESCRIPTION }
}

impl AlertError {
    /// The text of the alert: `alert #` and its number.
    pub fn to_display_string(&self) -> (r: String)
        ensures
            r@ == "alert #"@ + dec(self.alert_description as nat),
    {
        let mut v: Vec<char> = Vec::new();
        push_str(&mut v, "alert #");
        push_decimal(&mut v, self.alert_description as u64);
        string_from_chars(v.as_slice())
    }
}

/// An extension of a ClientHello: the server names it asks for, or one the
/// proxy does not read.
#[derive(Debug, Clone)]
pub enum Extension {
    ServerName(Vec<String>),
    Unknown(u16),
}

/// The extensions of a ClientHello, in order.
#[derive(Debug, Clone)]
pub struct ClientHello {
    pub extensions: Vec<Extension>,
}

/// The index of the first server-name extension of `exts` at or after `i`.
pub open spec fn first_server_name(exts: Seq<Extension>, i: int) -> Option<int>
    decreases exts.len() - i,
{
    if i < 0 || i >= exts.len() {
        None
    } else if exts[i] is ServerName {
        Some(i)
    } else {
        first_server_name(exts, i + 1)
    }
}

/// The names of each string.
pub open spec fn names_view(v: Seq<String>) -> Seq<Seq<char>> {
    v.map_values(|s: String| s@)
}

/// The server names of the first server-name extension of `hello`; a hello
/// without one is answered with the `internal_error` alert.
pub fn get_server_names(hello: &ClientHello) -> (r: Result<&Vec<String>, AlertError>)
    ensures
        match first_server_name(hello.extensions@, 0) {
            Some(i) => r matches Ok(names) && hello.extensions@[i] == Extension::ServerName(*names),
            None => r == Err::<&Vec<String>, AlertError>(AlertError { alert_description: 80 }),
        },
{
    let mut i: usize = 0;
    while i < hello.extensions.len()
        invariant
            0 <= i <= hello.extensions@.len(),
            first_server_name(hello.extensions@, 0) == first_server_name(hello.extensions@, i as int),
        decreases hello.extensions@.len() - i,
    {
        match &hello.extensions[i] {
            Extension::ServerName(names) => {
                return Ok(names);
            },
            Extension::Unknown(_) => {},
        }
        i = i + 1;
    }
    Err(alert_internal_error())
}

/// What decoding the bytes received so far as a ClientHello gave: the hello,
/// too few bytes, or bytes that are no ClientHello.
#[derive(Debug, Clone)]
pub enum HelloDecode {
    Hello(ClientHello),
    Truncated,
    Invalid,
}

/// The server name that a connection asks for: `None` while more bytes may
/// complete the hello; `internal_error` for a broken hello or one that names
/// other than exactly one server; `unrecognized_name` for a hello that names none.
pub open spec fn spec_detect_sni_name(decoded: HelloDecode, eof: bool) -> Result<
    Option<Seq<char>>,
    AlertError,
> {
    match decoded {
        HelloDecode::Truncated => if eof {
            Err(AlertError { alert_description: 80 })
        } else {
            Ok(None)
        },
        HelloDecode::Invalid => Err(AlertError { alert_description: 80 }),
        HelloDecode::Hello(h) => match first_server_name(h.extensions@, 0) {
            None => Err(AlertError { alert_description: 112 }),
            Some(i) => match h.extensions@[i] {
                Extension::ServerName(names) => if names@.len() != 1 {
                    Err(AlertError { alert_description: 80 })
                } else {
                    Ok(Some(names@[0]@))
                },
                Extension::Unknown(_) => Err(AlertError { alert_description: 80 }),
            },
        },
    }
}

/// The server name that a connection asks for, from what decoding its first
/// bytes gave and whether the client has finished sending.
pub fn detect_sni_name(decoded: &HelloDecode, eof: bool) -> (r: Result<Option<String>, AlertError>)
    ensures
        match spec_detect_sni_name(*decoded, eof) {
            Ok(Some(n)) => r matches Ok(Some(s)) && s@ == n,
            Ok(None) => r matches Ok(None),
            Err(e) => r == Err::<Option<String>, AlertError>(e),
        },
{
    let hello = match decoded {
        HelloDecode::Hello(h) => h,
        HelloDecode::Truncated => {
            if !eof {
                return Ok(None);
            }
            return Err(alert_internal_error());
        },
        HelloDecode::Invalid => {
            return Err(alert_internal_error());
        },
    };
    let server_names = match get_server_names(hello) {
        Ok(names) => names,
        Err(_) => {
            return Err(alert_unrecognized_name());
        },
    };
    if server_names.len() != 1 {
        return Err(alert_internal_error());
    }
    Ok(Some(server_names[0].clone()))
}

/// What the client side of a connection yields: the server name it asked
/// for, then the bytes that pass through.
#[derive(Debug, Clone)]
pub enum SniDetectRecord {
    SniHostname(String),
    PassThrough(Vec<u8>),
}

impl SniDetectRecord {
    /// The bytes the record carries to the other side: none for the name.
    pub fn rec_byte_size(&self) -> (r: u64)
        ensures
            r == match *self {
                SniDetectRecord::SniHostname(_) => 0,
                SniDetectRecord::PassThrough(b) => b@.len(),
            },
    {
        match self {
            SniDetectRecord::SniHostname(_) => 0,
            SniDetectRecord::PassThrough(b) => b.len() as u64,
        }
    }
}

/// Appends the bytes that `item` carries to `dst`; a name carries none.
pub fn encode_record(item: &SniDetectRecord, dst: &mut Vec<u8>)
    ensures
        final(dst)@ == old(dst)@ + match *item {
            SniDetectRecord::SniHostname(_) => Seq::<u8>::empty(),
            SniDetectRecord::PassThrough(b) => b@,
        },
{
    match item {
        SniDetectRecord::SniHostname(_) => {
            assert(dst@ =~= dst@ + Seq::<u8>::empty());
        },
        SniDetectRecord::PassThrough(bytes) => {
            let mut i: usize = 0;
            let ghost start = dst@;
            while i < bytes.len()
                invariant
                    0 <= i <= bytes@.len(),
                    dst@ == start + bytes@.take(i as int),
                decreases bytes@.len() - i,
            {
                dst.push(bytes[i]);
                i = i + 1;
                assert(dst@ =~= start + bytes@.take(i as int));
            }
            assert(bytes@.take(bytes@.len() as int) =~= bytes@);
        },
    }
}

/// The codec of the backend side of a connection: bytes pass through as they come.
#[derive(Debug, Clone, Copy)]
pub struct SniPassCodec;

impl SniPassCodec {
    /// Appends the bytes of `item` to `dst`.
    pub fn encode(&mut self, item: &SniDetectRecord, dst: &mut Vec<u8>)
        ensures
            final(dst)@ == old(dst)@ + match *item {
                SniDetectRecord::SniHostname(_) => Seq::<u8>::empty(),
                SniDetectRecord::PassThrough(b) => b@,
            },
    {
        encode_record(item, dst);
    }

    /// Takes every byte received so far as one record; nothing where nothing came.
    pub fn decode(&mut self, src: &mut Vec<u8>) -> (r: Option<SniDetectRecord>)
        ensures
            old(src)@.len() == 0 ==> r is None && final(src)@ == old(src)@,
            old(src)@.len() > 0 ==> (r matches Some(SniDetectRecord::PassThrough(b)) && b@ == old(
                src,
            )@ && final(src)@.len() == 0),
    {
        if src.len() == 0 {
            return None;
        }
        let mut taken: Vec<u8> = Vec::new();
        std::mem::swap(&mut taken, src);
        Some(SniDetectRecord::PassThrough(taken))
    }
}

/// The most bytes a client may send before its hello names a server.
pub const DEFAULT_SNI_DETECTOR_MAX_LEN: usize = 20480;

/// The codec of the client side of a connection: it yields the server name
/// once, then passes bytes through.
#[derive(Debug, Clone, Copy)]
pub struct SniDetectorCodec {
    pub max_length: usize,
    pub emitted_sni: bool,
}

/// What the detector does with the bytes received so far.
#[derive(Debug, Clone)]
pub enum DetectStep {
    /// Yield this record.
    Record(SniDetectRecord),
    /// Wait for more bytes.
    NeedMore,
    /// Read the handshake records in these bytes for the server name.
    ParseHandshake,
    /// End the connection with this alert.
    Fail(AlertError),
}

impl SniDetectorCodec {
    /// A detector that allows the default number of bytes before the name.
    pub fn new() -> (r: SniDetectorCodec)
        ensures
            r.max_length == 20480,
            !r.emitted_sni,
    {
        SniDetectorCodec { max_length: DEFAULT_SNI_DETECTOR_MAX_LEN, emitted_sni: false }
    }

    /// The first step of decoding `src`: once the name is out, bytes pass
    /// through (none where none came); before that, more bytes than allowed
    /// end the connection, and otherwise the handshake is read.
    pub fn decode_step(&self, src: &mut Vec<u8>) -> (r: DetectStep)
        ensures
            self.emitted_sni && old(src)@.len() == 0 ==> r is NeedMore && final(src)@ == old(src)@,
            self.emitted_sni && old(src)@.len() > 0 ==> (r matches DetectStep::Record(
                SniDetectRecord::PassThrough(b),
            ) && b@ == old(src)@ && final(src)@.len() == 0),
            !self.emitted_sni && self.max_length < old(src)@.len() ==> r == DetectStep::Fail(
                AlertError { alert_description: 80 },
            ) && final(src)@ == old(src)@,
            !self.emitted_sni && old(src)@.len() <= self.max_length ==> r is ParseHandshake
                && final(src)@ == old(src)@,
    {
        if self.emitted_sni {
            if src.len() == 0 {
                return DetectStep::NeedMore;
            }
            let mut taken: Vec<u8> = Vec::new();
            std::mem::swap(&mut taken, src);
            return DetectStep::Record(SniDetectRecord::PassThrough(taken));
        }
        if self.max_length < src.len() {
            return DetectStep::Fail(alert_internal_error());
        }
        DetectStep::ParseHandshake
    }

    /// The record yielded once the handshake names the servers `names`:
    /// exactly one name is taken and marks the name as sent; any other
    /// number ends the connection.
    pub fn finish_detection(&mut self, names: &Vec<String>) -> (r: Result<SniDetectRecord, AlertError>)
        ensures
            names@.len() == 1 ==> (r matches Ok(SniDetectRecord::SniHostname(n)) && n@ == names@[0]@
                && final(self).emitted_sni && final(self).max_length == old(self).max_length),
            names@.len() != 1 ==> r == Err::<SniDetectRecord, AlertError>(
                AlertError { alert_description: 80 },
            ) && *final(self) == *old(self),
    {
        if names.len() != 1 {
            return Err(alert_internal_error());
        }
        let server_name = names[0].clone();
        self.emitted_sni = true;
        Ok(SniDetectRecord::SniHostname(server_name))
    }
}

/// Which phase of reading a connection took too long.
#[derive(Debug, Clone, Copy, PartialEq, Eq)]
pub enum ReadTimeoutPhase {
    HaproxyHeader,
    TlsHeader,
    Data,
}

/// A read that took too long.
#[derive(Debug, Clone, Copy)]
pub struct ReadTimeout {
    pub phase: ReadTimeoutPhase,
}

/// The text of a read timeout in each phase.
pub open spec fn spec_read_timeout_text(p: ReadTimeoutPhase) -> Seq<char> {
    "read timeout for "@ + match p {
        ReadTimeoutPhase::HaproxyHeader => "haproxy header"@,
        ReadTimeoutPhase::TlsHeader => "tls header"@,
        ReadTimeoutPhase::Data => "data"@,
    }
}

impl ReadTimeout {
    /// The text of the timeout.
    pub fn to_display_string(&self) -> (r: String)
        ensures
            r@ == spec_read_timeout_text(self.phase),
    {
        let mut v: Vec<char> = Vec::new();
        push_str(&mut v, "read timeout for ");
        match self.phase {
            ReadTimeoutPhase::HaproxyHeader => push_str(&mut v, "haproxy header"),
            ReadTimeoutPhase::TlsHeader => push_str(&mut v, "tls header"),
            ReadTimeoutPhase::Data => push_str(&mut v, "data"),
        }
        string_from_chars(v.as_slice())
    }
}

/// A write that took too long.
#[derive(Debug, Clone, Copy)]
pub struct WriteTimeout;

impl WriteTimeout {
    /// The text of the timeout.
    pub fn to_display_string(&self) -> (r: String)
        ensures
            r@ == "WriteTimeout"@,
    {
        "WriteTimeout".to_owned()
    }
}

/// A stream ended by its abort handle.
#[derive(Debug, Clone, Copy, PartialEq, Eq)]
pub enum AbortStreamError {
    Aborted,
}

/// A fallible stream's error: aborted, or the stream's own error.
#[derive(Debug, Clone)]
pub enum AbortTryStreamError<E> {
    Aborted(AbortStreamError),
    Inner(E),
}

/// The start of an attempt to reach a backend, in milliseconds.
#[derive(Debug, Clone, Copy)]
pub struct StartHandle {
    pub attempt_start: u64,
}

/// A duration of `secs` seconds and `subsec_nanos` nanoseconds in whole milliseconds.
pub fn duration_milliseconds(secs: u64, subsec_nanos: u32) -> (r: u64)
    requires
        secs * 1000 + subsec_nanos / 1_000_000 <= u64::MAX,
    ensures
        r == subsec_nanos / 1_000_000 + secs * 1000,
{
    let mut out: u64 = 0;
    out = out + (subsec_nanos as u64) / 1_000_000;
    assert(secs * 1000 <= u64::MAX);
    out = out + secs * 1_000;
    out
}

} // verus!
