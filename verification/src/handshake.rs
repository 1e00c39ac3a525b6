//! The handshake with an upstream proxy: SOCKS5, or HTTP `CONNECT`.
//!
//! The handshake is a conversation. Each step says what to send, and how many bytes to read
//! before the next step; the transport itself is not part of it.
use crate::address::{
    ip_text, ipv4_text_reads_back, reads_octets, socket_text, socket_text_tells_sockets_apart,
    socket_to_text, IpAddr, SocketAddr,
};
use crate::base64::{base64, base64_bytes, base64_encode, base64_round_trip};
use crate::model::{text_option, ProxyConfig, ProxyView};
use crate::text::{
    contains_text, decimal, decimal_reads_back, decode_lossy, is_decimal, push_decimal, same_text,
    text_contains, trim_text, trimmed, uppercase, utf8_lossy,
};
use vstd::prelude::*;
use vstd::string::*;
use vstd::utf8::*;

verus! {

// ---------------------------------------------------------------------------------------------
// Errors
// ---------------------------------------------------------------------------------------------

/// Why a proxy was not usable.
#[derive(Debug, PartialEq, Eq)]
pub enum HandshakeError {
    /// The reply to the greeting is not SOCKS5.
    GreetingVersion,
    /// The proxy refused the username and password.
    Authentication,
    /// The proxy chose an authentication method that was not offered.
    Method(u8),
    /// The reply to the connect request is not SOCKS5.
    ConnectVersion,
    /// The proxy reported this error code for the connect request.
    Connect(u8),
    /// The reply to the connect request holds an address of an unknown type.
    AddressType,
    /// The HTTP response, without surrounding white space, is not a success.
    Http(String),
}

/// The model of a [`HandshakeError`].
pub enum ErrorView {
    GreetingVersion,
    Authentication,
    Method(u8),
    ConnectVersion,
    Connect(u8),
    AddressType,
    Http(Seq<char>),
}

impl View for HandshakeError {
    type V = ErrorView;

    open spec fn view(&self) -> ErrorView {
        match self {
            HandshakeError::GreetingVersion => ErrorView::GreetingVersion,
            HandshakeError::Authentication => ErrorView::Authentication,
            HandshakeError::Method(m) => ErrorView::Method(*m),
            HandshakeError::ConnectVersion => ErrorView::ConnectVersion,
            HandshakeError::Connect(c) => ErrorView::Connect(*c),
            HandshakeError::AddressType => ErrorView::AddressType,
            HandshakeError::Http(t) => ErrorView::Http(t@),
        }
    }
}

/// The message of an error.
pub open spec fn error_text(e: ErrorView) -> Seq<char> {
    match e {
        ErrorView::GreetingVersion => "Invalid SOCKS version in response"@,
        ErrorView::Authentication => "SOCKS5 Authentication failed"@,
        ErrorView::Method(m) => "Unsupported SOCKS5 auth method: "@ + decimal(m as nat),
        ErrorView::ConnectVersion => "Invalid SOCKS version in connect response"@,
        ErrorView::Connect(c) => "SOCKS5 connection error code: "@ + decimal(c as nat),
        ErrorView::AddressType => "Unsupported address type in SOCKS5 connect response"@,
        ErrorView::Http(t) => "HTTP CONNECT failed: "@ + t,
    }
}

impl HandshakeError {
    /// The message of the error.
    pub fn message(&self) -> (r: String)
        ensures
            r@ == error_text(self@),
    {
        match self {
            HandshakeError::GreetingVersion => "Invalid SOCKS version in response".to_string(),
            HandshakeError::Authentication => "SOCKS5 Authentication failed".to_string(),
            HandshakeError::Method(m) => {
                let mut s = "Unsupported SOCKS5 auth method: ".to_string();
                push_decimal(&mut s, *m as u64);
                s
            },
            HandshakeError::ConnectVersion => {
                "Invalid SOCKS version in connect response".to_string()
            },
            HandshakeError::Connect(c) => {
                let mut s = "SOCKS5 connection error code: ".to_string();
                push_decimal(&mut s, *c as u64);
                s
            },
            HandshakeError::AddressType => {
                "Unsupported address type in SOCKS5 connect response".to_string()
            },
            HandshakeError::Http(t) => {
                let mut s = "HTTP CONNECT failed: ".to_string();
                s.append(t.as_str());
                s
            },
        }
    }
}

// ---------------------------------------------------------------------------------------------
// Messages
// ---------------------------------------------------------------------------------------------

/// The greeting of SOCKS5: no authentication, or username and password.
pub open spec fn greeting() -> Seq<u8> {
    seq![5, 2, 0, 2]
}

/// A length byte, which holds the length modulo 256, and the bytes themselves.
pub open spec fn counted(b: Seq<u8>) -> Seq<u8> {
    seq![(b.len() % 256) as u8] + b
}

/// The request that presents a username and a password.
pub open spec fn auth_request(user: Seq<char>, pass: Seq<char>) -> Seq<u8> {
    seq![1u8] + counted(encode_utf8(user)) + counted(encode_utf8(pass))
}

/// The two bytes of a port, the more significant first.
pub open spec fn port_bytes(port: u16) -> Seq<u8> {
    seq![(port / 256) as u8, (port % 256) as u8]
}

/// The request to connect to an address.
pub open spec fn connect_request(octets: Seq<u8>, port: u16) -> Seq<u8> {
    seq![
        5u8,
        1,
        0,
        if octets.len() == 4 {
            1
        } else {
            4
        },
    ] + octets + port_bytes(port)
}

/// The header that presents a username and a password to an HTTP proxy, where both are there.
pub open spec fn authorization(user: Option<Seq<char>>, pass: Option<Seq<char>>) -> Seq<char> {
    match (user, pass) {
        (Some(u), Some(p)) => "Proxy-Authorization: Basic "@ + base64(encode_utf8(u + ":"@ + p))
            + "\r\n"@,
        _ => Seq::empty(),
    }
}

/// The text of an HTTP `CONNECT` request.
pub open spec fn http_request_text(
    dest: (Seq<u8>, u16),
    user: Option<Seq<char>>,
    pass: Option<Seq<char>>,
) -> Seq<char> {
    let target = socket_text(dest.0, dest.1);
    "CONNECT "@ + target + " HTTP/1.1\r\nHost: "@ + target + "\r\n"@ + authorization(user, pass)
        + "\r\n"@
}

/// Appends bytes.
fn push_bytes(v: &mut Vec<u8>, b: &[u8])
    ensures
        final(v)@ == old(v)@ + b@,
{
    let n: usize = b.len();
    let mut i: usize = 0;
    let ghost start = v@;
    while i < n
        invariant
            i <= n == b@.len(),
            v@ == start + b@.take(i as int),
        decreases n - i,
    {
        v.push(b[i]);
        i += 1;
        assert(v@ =~= start + b@.take(i as int));
    }
    assert(b@.take(n as int) =~= b@);
}

/// Appends a length byte and the UTF-8 bytes of a text.
fn push_counted(v: &mut Vec<u8>, s: &str)
    ensures
        final(v)@ == old(v)@ + counted(encode_utf8(s@)),
{
    let b = s.as_bytes();
    v.push((b.len() % 256) as u8);
    push_bytes(v, b);
    assert(v@ =~= old(v)@ + counted(b@));
}

/// The SOCKS5 greeting.
pub fn greeting_message() -> (r: Vec<u8>)
    ensures
        r@ == greeting(),
{
    let mut v: Vec<u8> = Vec::new();
    v.push(5);
    v.push(2);
    v.push(0);
    v.push(2);
    assert(v@ =~= greeting());
    v
}

/// The request that presents a username and a password; one that is missing is empty.
pub fn auth_message(user: &Option<String>, pass: &Option<String>) -> (r: Vec<u8>)
    ensures
        r@ == auth_request(credential(text_option(*user)), credential(text_option(*pass))),
{
    let mut v: Vec<u8> = Vec::new();
    v.push(1);
    let ghost u = credential(text_option(*user));
    let ghost p = credential(text_option(*pass));
    assert(v@ =~= seq![1u8]);
    match user {
        Some(s) => push_counted(&mut v, s.as_str()),
        None => {
            let e = String::new();
            push_counted(&mut v, e.as_str());
        },
    }
    assert(v@ == seq![1u8] + counted(encode_utf8(u)));
    match pass {
        Some(s) => push_counted(&mut v, s.as_str()),
        None => {
            let e = String::new();
            push_counted(&mut v, e.as_str());
        },
    }
    v
}

/// The request to connect to an address.
pub fn connect_message(dest: &SocketAddr) -> (r: Vec<u8>)
    ensures
        r@ == connect_request(dest.ip@, dest.port),
{
    let mut v: Vec<u8> = Vec::new();
    v.push(5);
    v.push(1);
    v.push(0);
    v.push(
        match dest.ip {
            IpAddr::V4(_) => 1,
            IpAddr::V6(_) => 4,
        },
    );
    let n: usize = dest.ip.octet_count();
    let ghost head = v@;
    let mut i: usize = 0;
    while i < n
        invariant
            i <= n == dest.ip@.len(),
            v@ == head + dest.ip@.take(i as int),
        decreases n - i,
    {
        v.push(dest.ip.octet(i));
        i += 1;
        assert(v@ =~= head + dest.ip@.take(i as int));
    }
    v.push((dest.port / 256) as u8);
    v.push((dest.port % 256) as u8);
    assert(v@ =~= connect_request(dest.ip@, dest.port));
    v
}

/// The text of an HTTP `CONNECT` request.
pub fn http_request(dest: &SocketAddr, user: &Option<String>, pass: &Option<String>) -> (r: String)
    ensures
        r@ == http_request_text(dest@, text_option(*user), text_option(*pass)),
{
    let target = socket_to_text(dest);
    let mut s = "CONNECT ".to_string();
    s.append(target.as_str());
    s.append(" HTTP/1.1\r\nHost: ");
    s.append(target.as_str());
    s.append("\r\n");
    let ghost head = s@;
    match (user, pass) {
        (Some(u), Some(p)) => {
            let mut credentials = u.clone();
            credentials.append(":");
            credentials.append(p.as_str());
            let encoded = base64_encode(credentials.as_str());
            s.append("Proxy-Authorization: Basic ");
            s.append(encoded.as_str());
            s.append("\r\n");
        },
        _ => {},
    }
    assert(s@ =~= head + authorization(text_option(*user), text_option(*pass)));
    s.append("\r\n");
    s
}

// ---------------------------------------------------------------------------------------------
// The conversation
// ---------------------------------------------------------------------------------------------

/// A username or password, where a missing one is empty.
pub open spec fn credential(o: Option<Seq<char>>) -> Seq<char> {
    match o {
        Some(s) => s,
        None => Seq::empty(),
    }
}

/// The number of bytes after which an HTTP response is read no further.
pub const HTTP_RESPONSE_LIMIT: usize = 4096;

/// Where the conversation stands: what the bytes are that are read next.
#[derive(Debug, PartialEq, Eq)]
pub enum Stage {
    /// The two bytes that answer the greeting.
    Greeting,
    /// The two bytes that answer the credentials.
    Auth,
    /// The first four bytes that answer the connect request.
    Connect,
    /// The length of the domain name in that answer.
    DomainLength,
    /// The rest of that answer, of this length.
    Tail(usize),
    /// One more byte of the HTTP response, of which these were read.
    Http(Vec<u8>),
    /// Nothing: the conversation is over.
    Over,
}

/// The model of a [`Stage`].
pub enum StageView {
    Greeting,
    Auth,
    Connect,
    DomainLength,
    Tail(nat),
    Http(Seq<u8>),
    Over,
}

impl View for Stage {
    type V = StageView;

    open spec fn view(&self) -> StageView {
        match self {
            Stage::Greeting => StageView::Greeting,
            Stage::Auth => StageView::Auth,
            Stage::Connect => StageView::Connect,
            Stage::DomainLength => StageView::DomainLength,
            Stage::Tail(n) => StageView::Tail(*n as nat),
            Stage::Http(b) => StageView::Http(b@),
            Stage::Over => StageView::Over,
        }
    }
}

/// A handshake under way.
#[derive(Debug)]
pub struct Handshake {
    dest: SocketAddr,
    username: Option<String>,
    password: Option<String>,
    stage: Stage,
}

/// The model of a [`Handshake`].
pub struct HandshakeView {
    pub dest: (Seq<u8>, u16),
    pub username: Option<Seq<char>>,
    pub password: Option<Seq<char>>,
    pub stage: StageView,
}

impl View for Handshake {
    type V = HandshakeView;

    closed spec fn view(&self) -> HandshakeView {
        HandshakeView {
            dest: self.dest@,
            username: text_option(self.username),
            password: text_option(self.password),
            stage: self.stage@,
        }
    }
}

/// What to do next.
#[derive(Debug, PartialEq, Eq)]
pub enum Step {
    /// Send these bytes, then read exactly so many and go on with them.
    Exchange { send: Vec<u8>, read: usize },
    /// The proxy is connected to the destination.
    Done,
    /// The proxy is not usable.
    Failed(HandshakeError),
}

/// The model of a [`Step`].
pub enum StepView {
    Exchange { send: Seq<u8>, read: nat },
    Done,
    Failed(ErrorView),
}

impl View for Step {
    type V = StepView;

    open spec fn view(&self) -> StepView {
        match self {
            Step::Exchange { send, read } => StepView::Exchange { send: send@, read: *read as nat },
            Step::Done => StepView::Done,
            Step::Failed(e) => StepView::Failed(e@),
        }
    }
}

/// The bytes that are read before the next step.
pub open spec fn awaited(s: StageView) -> nat {
    match s {
        StageView::Greeting => 2,
        StageView::Auth => 2,
        StageView::Connect => 4,
        StageView::DomainLength => 1,
        StageView::Tail(n) => n,
        StageView::Http(_) => 1,
        StageView::Over => 0,
    }
}

/// The handshake goes on at `stage`, and the bytes `send` go out before that.
pub open spec fn proceed(h: HandshakeView, stage: StageView, send: Seq<u8>) -> (
    HandshakeView,
    StepView,
) {
    (HandshakeView { stage, ..h }, StepView::Exchange { send, read: awaited(stage) })
}

/// The handshake is over.
pub open spec fn finish(h: HandshakeView, step: StepView) -> (HandshakeView, StepView) {
    (HandshakeView { stage: StageView::Over, ..h }, step)
}

/// A proxy whose type in upper case is `SOCKS5` speaks SOCKS5, every other one HTTP.
pub open spec fn begun(upper_type: Seq<char>, cfg: ProxyView, dest: (Seq<u8>, u16)) -> (
    HandshakeView,
    StepView,
) {
    let h = HandshakeView {
        dest,
        username: cfg.username,
        password: cfg.password,
        stage: StageView::Over,
    };
    if upper_type == "SOCKS5"@ {
        proceed(h, StageView::Greeting, greeting())
    } else {
        proceed(
            h,
            StageView::Http(Seq::empty()),
            encode_utf8(http_request_text(dest, cfg.username, cfg.password)),
        )
    }
}

/// The end of the head of an HTTP response.
pub open spec fn head_end() -> Seq<u8> {
    seq![13, 10, 13, 10]
}

/// What the text of an HTTP response decides.
pub open spec fn http_verdict(text: Seq<char>) -> StepView {
    if text_contains(text, " 200 "@) {
        StepView::Done
    } else {
        StepView::Failed(ErrorView::Http(trimmed(text)))
    }
}

/// What follows when the awaited bytes were read.
pub open spec fn advanced(h: HandshakeView, input: Seq<u8>) -> (HandshakeView, StepView) {
    match h.stage {
        StageView::Greeting => {
            if input[0] != 5 {
                finish(h, StepView::Failed(ErrorView::GreetingVersion))
            } else if input[1] == 2 {
                proceed(
                    h,
                    StageView::Auth,
                    auth_request(credential(h.username), credential(h.password)),
                )
            } else if input[1] == 0 {
                proceed(h, StageView::Connect, connect_request(h.dest.0, h.dest.1))
            } else {
                finish(h, StepView::Failed(ErrorView::Method(input[1])))
            }
        },
        StageView::Auth => {
            if input[1] != 0 {
                finish(h, StepView::Failed(ErrorView::Authentication))
            } else {
                proceed(h, StageView::Connect, connect_request(h.dest.0, h.dest.1))
            }
        },
        StageView::Connect => {
            if input[0] != 5 {
                finish(h, StepView::Failed(ErrorView::ConnectVersion))
            } else if input[1] != 0 {
                finish(h, StepView::Failed(ErrorView::Connect(input[1])))
            } else if input[3] == 1 {
                proceed(h, StageView::Tail(6), Seq::empty())
            } else if input[3] == 3 {
                proceed(h, StageView::DomainLength, Seq::empty())
            } else if input[3] == 4 {
                proceed(h, StageView::Tail(18), Seq::empty())
            } else {
                finish(h, StepView::Failed(ErrorView::AddressType))
            }
        },
        StageView::DomainLength => proceed(h, StageView::Tail((input[0] + 2) as nat), Seq::empty()),
        StageView::Tail(_) => finish(h, StepView::Done),
        StageView::Http(got) => {
            let all = got + input;
            if head_end().is_suffix_of(all) || all.len() >= HTTP_RESPONSE_LIMIT {
                finish(h, http_verdict(utf8_lossy(all)))
            } else {
                proceed(h, StageView::Http(all), Seq::empty())
            }
        },
        StageView::Over => finish(h, StepView::Done),
    }
}

/// What the text of an HTTP response decides.
pub fn judge_http_response(text: &str) -> (r: Result<(), HandshakeError>)
    ensures
        r is Ok <==> text_contains(text@, " 200 "@),
        match r {
            Ok(()) => http_verdict(text@) == StepView::Done,
            Err(e) => http_verdict(text@) == StepView::Failed(e@),
        },
{
    if contains_text(text, " 200 ") {
        Ok(())
    } else {
        Err(HandshakeError::Http(trim_text(text)))
    }
}

/// Whether bytes end in an empty line.
pub fn ends_head(b: &Vec<u8>) -> (r: bool)
    ensures
        r == head_end().is_suffix_of(b@),
{
    let n: usize = b.len();
    if n < 4 {
        return false;
    }
    let r: bool = b[n - 4] == 13 && b[n - 3] == 10 && b[n - 2] == 13 && b[n - 1] == 10;
    proof {
        let tail = b@.subrange(n - 4, n as int);
        if r {
            assert(tail =~= head_end());
        } else if tail == head_end() {
            assert(tail[0] == 13 && tail[1] == 10 && tail[2] == 13 && tail[3] == 10);
        }
    }
    r
}

impl Handshake {
    /// The bytes that are read before the next step.
    pub open spec fn awaits(&self) -> nat {
        awaited(self@.stage)
    }

    /// Begins the handshake with a proxy whose type in upper case is `upper_type`.
    pub fn begin_as(upper_type: &str, cfg: &ProxyConfig, dest: SocketAddr) -> (r: (Handshake, Step))
        ensures
            (r.0@, r.1@) == begun(upper_type@, cfg@, dest@),
    {
        let socks = same_text(upper_type, "SOCKS5");
        let (stage, send, read) = if socks {
            (Stage::Greeting, greeting_message(), 2usize)
        } else {
            let text = http_request(&dest, &cfg.username, &cfg.password);
            let mut send: Vec<u8> = Vec::new();
            push_bytes(&mut send, text.as_str().as_bytes());
            let got: Vec<u8> = Vec::new();
            assert(send@ =~= encode_utf8(text@));
            (Stage::Http(got), send, 1usize)
        };
        let h = Handshake {
            dest,
            username: cfg.username.clone(),
            password: cfg.password.clone(),
            stage,
        };
        (h, Step::Exchange { send, read })
    }

    /// Begins the handshake that makes a proxy connect to `dest`.
    pub fn begin(cfg: &ProxyConfig, dest: SocketAddr) -> (r: (Handshake, Step))
        ensures
            (r.0@, r.1@) == begun(uppercase(cfg.proxy_type@), cfg@, dest@),
    {
        let upper = cfg.proxy_type.as_str().to_uppercase();
        Handshake::begin_as(upper.as_str(), cfg, dest)
    }

    /// Goes on with the bytes that were awaited.
    pub fn advance(&mut self, input: &[u8]) -> (r: Step)
        requires
            old(self)@.stage !is Over,
            input@.len() == old(self).awaits(),
        ensures
            (final(self)@, r@) == advanced(old(self)@, input@),
    {
        let mut stage = Stage::Over;
        std::mem::swap(&mut stage, &mut self.stage);
        let step = match stage {
            Stage::Greeting => {
                if input[0] != 5 {
                    Step::Failed(HandshakeError::GreetingVersion)
                } else if input[1] == 2 {
                    self.stage = Stage::Auth;
                    Step::Exchange { send: auth_message(&self.username, &self.password), read: 2 }
                } else if input[1] == 0 {
                    self.stage = Stage::Connect;
                    Step::Exchange { send: connect_message(&self.dest), read: 4 }
                } else {
                    Step::Failed(HandshakeError::Method(input[1]))
                }
            },
            Stage::Auth => {
                if input[1] != 0 {
                    Step::Failed(HandshakeError::Authentication)
                } else {
                    self.stage = Stage::Connect;
                    Step::Exchange { send: connect_message(&self.dest), read: 4 }
                }
            },
            Stage::Connect => {
                if input[0] != 5 {
                    Step::Failed(HandshakeError::ConnectVersion)
                } else if input[1] != 0 {
                    Step::Failed(HandshakeError::Connect(input[1]))
                } else if input[3] == 1 {
                    self.stage = Stage::Tail(6);
                    Step::Exchange { send: Vec::new(), read: 6 }
                } else if input[3] == 3 {
                    self.stage = Stage::DomainLength;
                    Step::Exchange { send: Vec::new(), read: 1 }
                } else if input[3] == 4 {
                    self.stage = Stage::Tail(18);
                    Step::Exchange { send: Vec::new(), read: 18 }
                } else {
                    Step::Failed(HandshakeError::AddressType)
                }
            },
            Stage::DomainLength => {
                let n: usize = input[0] as usize + 2;
                self.stage = Stage::Tail(n);
                Step::Exchange { send: Vec::new(), read: n }
            },
            Stage::Tail(_) => Step::Done,
            Stage::Http(mut got) => {
                push_bytes(&mut got, input);
                if ends_head(&got) || got.len() >= HTTP_RESPONSE_LIMIT {
                    let text = decode_lossy(got.as_slice());
                    match judge_http_response(text.as_str()) {
                        Ok(()) => Step::Done,
                        Err(e) => Step::Failed(e),
                    }
                } else {
                    self.stage = Stage::Http(got);
                    Step::Exchange { send: Vec::new(), read: 1 }
                }
            },
            Stage::Over => Step::Done,
        };
        step
    }
}

// ---------------------------------------------------------------------------------------------
// Whole conversations
// ---------------------------------------------------------------------------------------------

/// How a conversation ends.
pub enum Outcome {
    Done,
    Failed(ErrorView),
    /// The proxy sent less than was awaited.
    Starved,
}

/// An upper bound for the steps that are left.
pub open spec fn steps_left(s: StageView) -> nat {
    match s {
        StageView::Greeting => 5,
        StageView::Auth => 4,
        StageView::Connect => 3,
        StageView::DomainLength => 2,
        StageView::Tail(_) => 1,
        StageView::Http(got) => if got.len() < HTTP_RESPONSE_LIMIT {
            (HTTP_RESPONSE_LIMIT - got.len()) as nat
        } else {
            1
        },
        StageView::Over => 0,
    }
}

/// What is sent, and how it ends, when the conversation goes on with `step` and the proxy sends
/// the bytes `stream`.
pub open spec fn conversation(h: HandshakeView, step: StepView, stream: Seq<u8>) -> (
    Seq<u8>,
    Outcome,
)
    decreases steps_left(h.stage),
{
    match step {
        StepView::Done => (Seq::empty(), Outcome::Done),
        StepView::Failed(e) => (Seq::empty(), Outcome::Failed(e)),
        StepView::Exchange { send, .. } => {
            let read = awaited(h.stage);
            if stream.len() < read || h.stage is Over {
                (send, Outcome::Starved)
            } else {
                let next = advanced(h, stream.take(read as int));
                let rest = conversation(next.0, next.1, stream.skip(read as int));
                (send + rest.0, rest.1)
            }
        },
    }
}

/// The bytes that are read of `stream` when the conversation goes on with `step`. Where less
/// comes than is awaited, all of it is read before the conversation ends.
pub open spec fn bytes_read(h: HandshakeView, step: StepView, stream: Seq<u8>) -> nat
    decreases steps_left(h.stage),
{
    match step {
        StepView::Exchange { .. } => {
            let read = awaited(h.stage);
            if stream.len() < read || h.stage is Over {
                stream.len()
            } else {
                let next = advanced(h, stream.take(read as int));
                read + bytes_read(next.0, next.1, stream.skip(read as int))
            }
        },
        _ => 0,
    }
}

/// The bytes that are read of what the proxy sends, from the beginning.
pub open spec fn whole_read(
    upper_type: Seq<char>,
    cfg: ProxyView,
    dest: (Seq<u8>, u16),
    stream: Seq<u8>,
) -> nat {
    let first = begun(upper_type, cfg, dest);
    bytes_read(first.0, first.1, stream)
}

/// What is sent, and how it ends, from the beginning.
pub open spec fn whole_conversation(
    upper_type: Seq<char>,
    cfg: ProxyView,
    dest: (Seq<u8>, u16),
    stream: Seq<u8>,
) -> (Seq<u8>, Outcome) {
    let first = begun(upper_type, cfg, dest);
    conversation(first.0, first.1, stream)
}

/// Bytes that begin with a complete answer that grants the connect request.
pub open spec fn grants_connect(t: Seq<u8>) -> bool {
    &&& t.len() >= 4
    &&& t[0] == 5
    &&& t[1] == 0
    &&& {
        ||| t[3] == 1 && t.len() >= 10
        ||| t[3] == 4 && t.len() >= 22
        ||| t[3] == 3 && t.len() >= 5 && t.len() >= 7 + t[4]
    }
}

/// Bytes with which a SOCKS5 proxy grants the connection: it asks for no credentials, or accepts
/// them, and then grants the connect request.
pub open spec fn grants_socks5(s: Seq<u8>) -> bool {
    &&& s.len() >= 2
    &&& s[0] == 5
    &&& {
        ||| s[1] == 0 && grants_connect(s.skip(2))
        ||| s[1] == 2 && s.len() >= 4 && s[3] == 0 && grants_connect(s.skip(4))
    }
}

/// The end of a conversation from the connect request on.
proof fn connect_conversation(h: HandshakeView, send: Seq<u8>, t: Seq<u8>)
    requires
        h.stage is Connect,
    ensures
        ({
            let c = conversation(h, StepView::Exchange { send, read: 4 }, t);
            &&& c.1 is Done <==> grants_connect(t)
            &&& c.0 == send
        }),
{
    if t.len() >= 4 {
        let head = t.take(4);
        let (h1, s1) = advanced(h, head);
        let t1 = t.skip(4);
        if head[0] == 5 && head[1] == 0 && head[3] == 3 && t1.len() >= 1 {
            let len = t1.take(1);
            assert(len[0] == t[4]);
            let (h2, s2) = advanced(h1, len);
            let t2 = t1.skip(1);
            let n = (len[0] + 2) as nat;
            assert(s2 == StepView::Exchange { send: Seq::empty(), read: n });
            if t2.len() >= n {
                let (h3, s3) = advanced(h2, t2.take(n as int));
                assert(conversation(h3, s3, t2.skip(n as int)) == (Seq::<u8>::empty(), Outcome::Done));
            }
            let c2 = conversation(h2, s2, t2);
            assert(c2.0 =~= Seq::<u8>::empty());
            let c1 = conversation(h1, s1, t1);
            assert(c1.0 =~= Seq::<u8>::empty());
        } else if head[0] == 5 && head[1] == 0 && (head[3] == 1 || head[3] == 4) {
            let n: nat = if head[3] == 1 {
                6
            } else {
                18
            };
            if t1.len() >= n {
                let (h2, s2) = advanced(h1, t1.take(n as int));
                assert(conversation(h2, s2, t1.skip(n as int)) == (Seq::<u8>::empty(), Outcome::Done));
            }
            let c1 = conversation(h1, s1, t1);
            assert(c1.0 =~= Seq::<u8>::empty());
        }
        let c1 = conversation(h1, s1, t1);
        assert(c1.0 =~= Seq::<u8>::empty());
        assert(send + c1.0 =~= send);
    }
}

/// A SOCKS5 handshake succeeds exactly where the proxy grants the connection.
///
/// What is sent begins with the greeting; the credentials follow exactly where the proxy asks
/// for them; and the connect request comes last, exactly where the proxy asked for none or
/// accepted them.
pub proof fn socks5_conversation(cfg: ProxyView, dest: (Seq<u8>, u16), s: Seq<u8>)
    ensures
        ({
            let c = whole_conversation("SOCKS5"@, cfg, dest, s);
            &&& c.1 is Done <==> grants_socks5(s)
            &&& c.0 == greeting() + (if s.len() >= 2 && s[0] == 5 && s[1] == 0 {
                connect_request(dest.0, dest.1)
            } else if s.len() >= 2 && s[0] == 5 && s[1] == 2 {
                auth_request(credential(cfg.username), credential(cfg.password)) + (if s.len() >= 4
                    && s[3] == 0 {
                    connect_request(dest.0, dest.1)
                } else {
                    Seq::empty()
                })
            } else {
                Seq::empty()
            })
        }),
{
    let (h, step) = begun("SOCKS5"@, cfg, dest);
    let request = connect_request(dest.0, dest.1);
    let c = conversation(h, step, s);
    if s.len() >= 2 {
        let reply = s.take(2);
        let (h1, s1) = advanced(h, reply);
        let t1 = s.skip(2);
        if reply[0] == 5 && reply[1] == 0 {
            connect_conversation(h1, request, t1);
        } else if reply[0] == 5 && reply[1] == 2 {
            let auth = auth_request(credential(cfg.username), credential(cfg.password));
            if t1.len() >= 2 {
                let answer = t1.take(2);
                assert(answer[1] == s[3]);
                let (h2, s2) = advanced(h1, answer);
                let t2 = t1.skip(2);
                assert(t2 =~= s.skip(4));
                if answer[1] == 0 {
                    connect_conversation(h2, request, t2);
                    assert(conversation(h1, s1, t1).0 =~= auth + request);
                } else {
                    assert(conversation(h2, s2, t2).0 =~= Seq::<u8>::empty());
                    assert(conversation(h1, s1, t1).0 =~= auth + Seq::<u8>::empty());
                }
            } else {
                assert(conversation(h1, s1, t1).0 =~= auth + Seq::<u8>::empty());
            }
        }
        if !(reply[0] == 5 && (reply[1] == 0 || reply[1] == 2)) {
            assert(conversation(h1, s1, t1).0 =~= Seq::<u8>::empty());
        }
        assert(c.0 =~= greeting() + conversation(h1, s1, t1).0);
    } else {
        assert(c.0 =~= greeting() + Seq::<u8>::empty());
    }
}

/// A run of bytes is what is read of an HTTP response: it ends with the first empty line, or
/// with the last byte that may be read.
pub open spec fn http_head(b: Seq<u8>) -> bool {
    &&& 0 < b.len() <= HTTP_RESPONSE_LIMIT
    &&& head_end().is_suffix_of(b) || b.len() == HTTP_RESPONSE_LIMIT
    &&& forall|j: int| 0 < j < b.len() ==> !head_end().is_suffix_of(#[trigger] b.take(j))
}

/// The end of a conversation when the bytes `got` of an HTTP response were read.
proof fn http_tail(h: HandshakeView, head: Seq<u8>, rest: Seq<u8>, got: Seq<u8>)
    requires
        http_head(head),
        h.stage == StageView::Http(got),
        got.len() < head.len(),
        got == head.take(got.len() as int),
    ensures
        ({
            let c = conversation(
                h,
                StepView::Exchange { send: Seq::empty(), read: 1 },
                (head + rest).skip(got.len() as int),
            );
            &&& c.0 == Seq::<u8>::empty()
            &&& bytes_read(
                h,
                StepView::Exchange { send: Seq::empty(), read: 1 },
                (head + rest).skip(got.len() as int),
            ) == head.len() - got.len()
            &&& (match http_verdict(utf8_lossy(head)) {
                StepView::Failed(e) => c.1 == Outcome::Failed(e),
                _ => c.1 == Outcome::Done,
            })
        }),
    decreases head.len() - got.len(),
{
    let stream = (head + rest).skip(got.len() as int);
    let k = got.len() + 1;
    let all = got + stream.take(1);
    assert(all =~= head.take(k as int));
    assert(stream.skip(1) =~= (head + rest).skip(k as int));
    let (h1, s1) = advanced(h, stream.take(1));
    if k == head.len() {
        assert(all =~= head);
    } else {
        assert(!head_end().is_suffix_of(all));
        http_tail(h1, head, rest, all);
    }
    assert(bytes_read(h1, s1, stream.skip(1)) == head.len() - k);
    let c1 = conversation(h1, s1, stream.skip(1));
    assert(c1.0 =~= Seq::<u8>::empty());
    assert(Seq::<u8>::empty() + c1.0 =~= Seq::<u8>::empty());
}

/// A run of bytes is a reply that ends too early: no empty line came, and more could be read.
pub open spec fn http_cut(s: Seq<u8>) -> bool {
    &&& s.len() < HTTP_RESPONSE_LIMIT
    &&& forall|j: int| 0 < j <= s.len() ==> !head_end().is_suffix_of(#[trigger] s.take(j))
}

/// The end of a conversation when a reply ends too early, of which the bytes `got` were read.
proof fn http_starves(h: HandshakeView, s: Seq<u8>, got: Seq<u8>)
    requires
        http_cut(s),
        h.stage == StageView::Http(got),
        got.len() <= s.len(),
        got == s.take(got.len() as int),
    ensures
        ({
            let step = StepView::Exchange { send: Seq::empty(), read: 1 };
            let stream = s.skip(got.len() as int);
            let c = conversation(h, step, stream);
            &&& c.0 == Seq::<u8>::empty()
            &&& c.1 == Outcome::Starved
            &&& bytes_read(h, step, stream) == s.len() - got.len()
        }),
    decreases s.len() - got.len(),
{
    if got.len() < s.len() {
        let stream = s.skip(got.len() as int);
        let k = got.len() + 1;
        let all = got + stream.take(1);
        assert(all =~= s.take(k as int));
        assert(stream.skip(1) =~= s.skip(k as int));
        let (h1, s1) = advanced(h, stream.take(1));
        assert(!head_end().is_suffix_of(all));
        http_starves(h1, s, all);
        let c1 = conversation(h1, s1, stream.skip(1));
        assert(Seq::<u8>::empty() + c1.0 =~= Seq::<u8>::empty());
    }
}

/// What a proxy sends either begins with a complete head or ends too early.
pub proof fn http_reply_is_whole_or_cut(s: Seq<u8>)
    ensures
        http_cut(s) || exists|k: int| 0 < k <= s.len() && http_head(#[trigger] s.take(k)),
        !(http_cut(s) && exists|k: int| 0 < k <= s.len() && http_head(#[trigger] s.take(k))),
{
    if !http_cut(s) {
        head_from(s, 1);
    } else if exists|k: int| 0 < k <= s.len() && http_head(#[trigger] s.take(k)) {
        let k = choose|k: int| 0 < k <= s.len() && http_head(#[trigger] s.take(k));
        assert(!head_end().is_suffix_of(s.take(k)));
    }
}

/// A complete head begins a run of bytes in which none ends before the byte number `k`.
proof fn head_from(s: Seq<u8>, k: int)
    requires
        !http_cut(s),
        0 < k,
        k <= s.len() + 1,
        k <= HTTP_RESPONSE_LIMIT,
        forall|j: int| 0 < j < k ==> !head_end().is_suffix_of(#[trigger] s.take(j)),
    ensures
        exists|k: int| 0 < k <= s.len() && http_head(#[trigger] s.take(k)),
    decreases s.len() + 1 - k,
{
    assert(k <= s.len());
    let b = s.take(k);
    assert forall|j: int| 0 < j < b.len() implies !head_end().is_suffix_of(#[trigger] b.take(j)) by {
        assert(b.take(j) =~= s.take(j));
    }
    if head_end().is_suffix_of(b) || k == HTTP_RESPONSE_LIMIT {
        assert(http_head(s.take(k)));
    } else {
        head_from(s, k + 1);
    }
}

/// An HTTP handshake with a proxy whose reply ends too early sends its request and nothing else,
/// reads all of the reply, and does not succeed.
pub proof fn http_conversation_cut(
    upper_type: Seq<char>,
    cfg: ProxyView,
    dest: (Seq<u8>, u16),
    s: Seq<u8>,
)
    requires
        upper_type != "SOCKS5"@,
        http_cut(s),
    ensures
        ({
            let c = whole_conversation(upper_type, cfg, dest, s);
            &&& c.0 == encode_utf8(http_request_text(dest, cfg.username, cfg.password))
            &&& c.1 == Outcome::Starved
            &&& whole_read(upper_type, cfg, dest, s) == s.len()
        }),
{
    let (h, step) = begun(upper_type, cfg, dest);
    let request = encode_utf8(http_request_text(dest, cfg.username, cfg.password));
    assert(s.take(0) =~= Seq::<u8>::empty());
    assert(s.skip(0) =~= s);
    http_starves(h, s, Seq::empty());
    if s.len() > 0 {
        let quiet = conversation(h, StepView::Exchange { send: Seq::empty(), read: 1 }, s);
        let next = advanced(h, s.take(1));
        let c1 = conversation(next.0, next.1, s.skip(1));
        assert(quiet.0 == Seq::<u8>::empty() + c1.0);
        assert(c1.0.len() == 0) by {
            assert(quiet.0.len() == c1.0.len());
        }
        assert(request + c1.0 =~= request);
    }
}

/// An HTTP handshake sends its request and nothing else, and succeeds exactly where the head of
/// the response holds ` 200 `. The head is read, and nothing of what follows it.
pub proof fn http_conversation(
    upper_type: Seq<char>,
    cfg: ProxyView,
    dest: (Seq<u8>, u16),
    head: Seq<u8>,
    rest: Seq<u8>,
)
    requires
        upper_type != "SOCKS5"@,
        http_head(head),
    ensures
        ({
            let c = whole_conversation(upper_type, cfg, dest, head + rest);
            &&& c.0 == encode_utf8(http_request_text(dest, cfg.username, cfg.password))
            &&& c.1 is Done <==> text_contains(utf8_lossy(head), " 200 "@)
            &&& c.1 !is Done ==> c.1 == Outcome::Failed(ErrorView::Http(trimmed(utf8_lossy(head))))
            &&& whole_read(upper_type, cfg, dest, head + rest) == head.len()
        }),
{
    let (h, step) = begun(upper_type, cfg, dest);
    let request = encode_utf8(http_request_text(dest, cfg.username, cfg.password));
    let stream = head + rest;
    assert(head.take(0) =~= Seq::<u8>::empty());
    assert(stream.skip(0) =~= stream);
    http_tail(h, head, rest, Seq::empty());
    let quiet = conversation(h, StepView::Exchange { send: Seq::empty(), read: 1 }, stream);
    let next = advanced(h, stream.take(1));
    let c1 = conversation(next.0, next.1, stream.skip(1));
    assert(quiet.0 == Seq::<u8>::empty() + c1.0);
    assert(c1.0.len() == 0) by {
        assert(quiet.0.len() == c1.0.len());
    }
    assert(request + c1.0 =~= request);
}

/// A proxy can take the credentials apart again: each is preceded by its length. This takes that
/// neither is longer than a length byte can tell.
pub proof fn credentials_read_back(user: Seq<char>, pass: Seq<char>)
    requires
        encode_utf8(user).len() < 256,
        encode_utf8(pass).len() < 256,
    ensures
        ({
            let r = auth_request(user, pass);
            let u = r[1] as int;
            let p = r[2 + u] as int;
            &&& r[0] == 1
            &&& r.len() == 3 + u + p
            &&& r.subrange(2, 2 + u) == encode_utf8(user)
            &&& r.subrange(3 + u, 3 + u + p) == encode_utf8(pass)
        }),
{
    let r = auth_request(user, pass);
    let u = encode_utf8(user);
    let p = encode_utf8(pass);
    assert(r[1] == u.len());
    assert(r[2 + u.len() as int] == p.len());
    assert(r.subrange(2, 2 + u.len() as int) =~= u);
    assert(r.subrange(3 + u.len() as int, 3 + u.len() as int + p.len()) =~= p);
}

// ---------------------------------------------------------------------------------------------
// What the messages say
// ---------------------------------------------------------------------------------------------

/// The two bytes of a port read back as the port, the first the more significant.
pub proof fn port_bytes_read_back(port: u16)
    ensures
        port_bytes(port).len() == 2,
        port_bytes(port)[0] * 256 + port_bytes(port)[1] == port,
{
}

/// A connect request reads back as the destination: the kind of address, the octets in their
/// order, and the port, the more significant byte first.
pub proof fn connect_request_reads_back(octets: Seq<u8>, port: u16)
    requires
        octets.len() == 4 || octets.len() == 16,
    ensures
        ({
            let r = connect_request(octets, port);
            let n = octets.len() as int;
            &&& r.len() == n + 6
            &&& r[0] == 5 && r[1] == 1 && r[2] == 0
            &&& r[3] == 1 <==> n == 4
            &&& r[3] == 4 <==> n == 16
            &&& r.subrange(4, 4 + n) == octets
            &&& r[4 + n] * 256 + r[5 + n] == port
        }),
{
    let r = connect_request(octets, port);
    let n = octets.len() as int;
    assert(r.subrange(4, 4 + n) =~= octets);
    assert(r[4 + n] == port_bytes(port)[0]);
    assert(r[5 + n] == port_bytes(port)[1]);
}

/// Requests to connect to different destinations differ.
pub proof fn connect_requests_tell_destinations_apart(a: (Seq<u8>, u16), b: (Seq<u8>, u16))
    requires
        a.0.len() == 4 || a.0.len() == 16,
        b.0.len() == 4 || b.0.len() == 16,
        connect_request(a.0, a.1) == connect_request(b.0, b.1),
    ensures
        a == b,
{
    connect_request_reads_back(a.0, a.1);
    connect_request_reads_back(b.0, b.1);
}

/// The request that presents credentials holds the bytes of the name and of the password, in this
/// order and unchanged, each behind a byte with its length modulo 256.
pub proof fn auth_request_holds_the_credentials(user: Seq<char>, pass: Seq<char>)
    ensures
        ({
            let r = auth_request(user, pass);
            let u = encode_utf8(user);
            let p = encode_utf8(pass);
            let n = u.len() as int;
            let m = p.len() as int;
            &&& r.len() == 3 + n + m
            &&& r[0] == 1
            &&& r[1] == n % 256
            &&& r.subrange(2, 2 + n) == u
            &&& r[2 + n] == m % 256
            &&& r.subrange(3 + n, 3 + n + m) == p
        }),
{
    let r = auth_request(user, pass);
    let u = encode_utf8(user);
    let p = encode_utf8(pass);
    let n = u.len() as int;
    let m = p.len() as int;
    assert(r.subrange(2, 2 + n) =~= u);
    assert(r.subrange(3 + n, 3 + n + m) =~= p);
}

/// The text names a destination: the text of its address, in brackets where it is of version 6,
/// a colon, and its port in decimal.
pub open spec fn names_destination(target: Seq<char>, octets: Seq<u8>, port: u16) -> bool {
    exists|ip: Seq<char>, digits: Seq<char>|
        {
            &&& target == #[trigger] (ip + digits)
            &&& exists|number: Seq<char>|
                is_decimal(number, port as int) && digits == #[trigger] (":"@ + number)
            &&& octets.len() == 4 ==> reads_octets(ip, octets)
            &&& octets.len() != 4 ==> ip == "["@ + ip_text(octets) + "]"@
        }
}

/// The text of a socket names the destination.
proof fn socket_text_names(octets: Seq<u8>, port: u16)
    requires
        octets.len() == 4 || octets.len() == 16,
    ensures
        names_destination(socket_text(octets, port), octets, port),
{
    let number = decimal(port as nat);
    decimal_reads_back(port as nat);
    reveal_strlit(":");
    reveal_strlit("[");
    reveal_strlit("]");
    let digits = ":"@ + number;
    if octets.len() == 4 {
        ipv4_text_reads_back(octets);
        assert(socket_text(octets, port) =~= ip_text(octets) + digits);
    } else {
        let ip = "["@ + ip_text(octets) + "]"@;
        assert(socket_text(octets, port) =~= ip + digits);
    }
}

/// A `CONNECT` request names the destination, with its own port, in its first line and again as
/// the host. Where both a username and a password are there, a header follows that stands in
/// Base64 for both with a colon between them; else none does. An empty line ends it.
pub proof fn http_request_names_the_destination(
    dest: (Seq<u8>, u16),
    user: Option<Seq<char>>,
    pass: Option<Seq<char>>,
)
    requires
        dest.0.len() == 4 || dest.0.len() == 16,
    ensures
        exists|target: Seq<char>, headers: Seq<char>|
            {
                &&& http_request_text(dest, user, pass) == #[trigger] ("CONNECT "@ + target
                    + " HTTP/1.1\r\nHost: "@ + target + "\r\n"@ + headers + "\r\n"@)
                &&& names_destination(target, dest.0, dest.1)
                &&& user is None || pass is None ==> headers.len() == 0
                &&& user is Some && pass is Some ==> exists|code: Seq<char>|
                    headers == #[trigger] ("Proxy-Authorization: Basic "@ + code + "\r\n"@)
                        && base64_bytes(code) == encode_utf8(user->0 + ":"@ + pass->0)
            },
{
    let target = socket_text(dest.0, dest.1);
    let headers = authorization(user, pass);
    socket_text_names(dest.0, dest.1);
    if user is Some && pass is Some {
        let code = base64(encode_utf8(user->0 + ":"@ + pass->0));
        base64_round_trip(encode_utf8(user->0 + ":"@ + pass->0));
        assert(headers == "Proxy-Authorization: Basic "@ + code + "\r\n"@);
    }
    assert(http_request_text(dest, user, pass) == "CONNECT "@ + target + " HTTP/1.1\r\nHost: "@
        + target + "\r\n"@ + headers + "\r\n"@);
}

/// Two texts that are alike but for what stands in them at two places are the same only where that
/// is the same.
proof fn same_target(
    before: Seq<char>,
    s: Seq<char>,
    t: Seq<char>,
    between: Seq<char>,
    end: Seq<char>,
    headers: Seq<char>,
)
    requires
        before + s + between + s + end + headers + end == before + t + between + t + end + headers
            + end,
    ensures
        s == t,
{
    let a = before + s;
    let b = before + t;
    let x = a + between + s + end + headers;
    let y = b + between + t + end + headers;
    assert((x + end).len() == before.len() + 2 * s.len() + between.len() + 2 * end.len()
        + headers.len());
    assert((y + end).len() == before.len() + 2 * t.len() + between.len() + 2 * end.len()
        + headers.len());
    same_parts(x, y, end, end);
    same_parts(a + between + s + end, b + between + t + end, headers, headers);
    same_parts(a + between + s, b + between + t, end, end);
    same_parts(a + between, b + between, s, t);
}

/// Where two texts are the same, so are parts of them that begin and end at the same places.
proof fn same_parts(a: Seq<char>, b: Seq<char>, c: Seq<char>, d: Seq<char>)
    requires
        a + c == b + d,
        a.len() == b.len(),
    ensures
        a == b,
        c == d,
{
    assert(a =~= (a + c).take(a.len() as int));
    assert(b =~= (b + d).take(b.len() as int));
    assert(c =~= (a + c).skip(a.len() as int));
    assert(d =~= (b + d).skip(b.len() as int));
}

/// With the same credentials, requests for destinations with different ports differ, and so do
/// those for different addresses of version 4.
pub proof fn http_requests_tell_destinations_apart(
    a: (Seq<u8>, u16),
    b: (Seq<u8>, u16),
    user: Option<Seq<char>>,
    pass: Option<Seq<char>>,
)
    requires
        http_request_text(a, user, pass) == http_request_text(b, user, pass),
    ensures
        a.1 == b.1,
        a.0.len() == 4 && b.0.len() == 4 ==> a.0 == b.0,
{
    same_target(
        "CONNECT "@,
        socket_text(a.0, a.1),
        socket_text(b.0, b.1),
        " HTTP/1.1\r\nHost: "@,
        "\r\n"@,
        authorization(user, pass),
    );
    socket_text_tells_sockets_apart(a, b);
}

/// The head of a response ends exactly where its last four bytes are two line ends.
pub proof fn head_ends_in_an_empty_line(b: Seq<u8>)
    ensures
        head_end().is_suffix_of(b) <==> b.len() >= 4 && b[b.len() - 4] == 13 && b[b.len() - 3] == 10
            && b[b.len() - 2] == 13 && b[b.len() - 1] == 10,
{
    if b.len() >= 4 {
        let tail = b.subrange(b.len() - 4, b.len() as int);
        if b[b.len() - 4] == 13 && b[b.len() - 3] == 10 && b[b.len() - 2] == 13 && b[b.len() - 1]
            == 10 {
            assert(tail =~= head_end());
        }
        if head_end().is_suffix_of(b) {
            assert(head_end() == tail);
            assert(tail[0] == 13 && tail[1] == 10 && tail[2] == 13 && tail[3] == 10);
        }
    }
}

/// Every error says what happened, with the number or the text that goes with it and nothing else.
pub proof fn errors_tell_what_happened(n: u8, t: Seq<char>)
    ensures
        exists|digits: Seq<char>|
            is_decimal(digits, n as int) && error_text(ErrorView::Method(n)) == #[trigger] (
            "Unsupported SOCKS5 auth method: "@ + digits),
        exists|digits: Seq<char>|
            is_decimal(digits, n as int) && error_text(ErrorView::Connect(n)) == #[trigger] (
            "SOCKS5 connection error code: "@ + digits),
        error_text(ErrorView::Http(t)).len() == "HTTP CONNECT failed: "@.len() + t.len(),
        "HTTP CONNECT failed: "@.is_prefix_of(error_text(ErrorView::Http(t))),
        t.is_suffix_of(error_text(ErrorView::Http(t))),
{
    decimal_reads_back(n as nat);
    let digits = decimal(n as nat);
    assert(error_text(ErrorView::Method(n)) == "Unsupported SOCKS5 auth method: "@ + digits);
    assert(error_text(ErrorView::Connect(n)) == "SOCKS5 connection error code: "@ + digits);
    let e = error_text(ErrorView::Http(t));
    let head = "HTTP CONNECT failed: "@;
    assert(e.subrange(0, head.len() as int) =~= head);
    assert(e.subrange(e.len() - t.len(), e.len() as int) =~= t);
}

/// How the rest of a conversation ends that begins with the answer `t` to the connect request.
pub open spec fn connect_outcome(t: Seq<u8>) -> Outcome {
    if t.len() < 4 {
        Outcome::Starved
    } else if t[0] != 5 {
        Outcome::Failed(ErrorView::ConnectVersion)
    } else if t[1] != 0 {
        Outcome::Failed(ErrorView::Connect(t[1]))
    } else if t[3] != 1 && t[3] != 3 && t[3] != 4 {
        Outcome::Failed(ErrorView::AddressType)
    } else if grants_connect(t) {
        Outcome::Done
    } else {
        Outcome::Starved
    }
}

/// How many bytes a complete answer to the connect request has, as far as that can be told from
/// what there is of it; one that is refused is read up to its fourth byte.
pub open spec fn connect_length(t: Seq<u8>) -> int {
    if t.len() < 4 || t[0] != 5 || t[1] != 0 {
        4
    } else if t[3] == 1 {
        10
    } else if t[3] == 4 {
        22
    } else if t[3] == 3 {
        if t.len() < 5 {
            5
        } else {
            7 + t[4]
        }
    } else {
        4
    }
}

/// The lesser of two numbers.
pub open spec fn lesser(a: int, b: int) -> int {
    if a < b {
        a
    } else {
        b
    }
}

/// The end of a conversation from the connect request on, in full.
proof fn connect_conversation_ends(h: HandshakeView, send: Seq<u8>, t: Seq<u8>)
    requires
        h.stage is Connect,
    ensures
        ({
            let step = StepView::Exchange { send, read: 4 };
            &&& conversation(h, step, t).1 == connect_outcome(t)
            &&& bytes_read(h, step, t) == lesser(connect_length(t), t.len() as int)
        }),
{
    if t.len() >= 4 {
        let head = t.take(4);
        let (h1, s1) = advanced(h, head);
        let t1 = t.skip(4);
        if head[0] == 5 && head[1] == 0 && head[3] == 3 && t1.len() >= 1 {
            let len = t1.take(1);
            assert(len[0] == t[4]);
            let (h2, s2) = advanced(h1, len);
            let t2 = t1.skip(1);
            let n = (len[0] + 2) as nat;
            if t2.len() >= n {
                let (h3, s3) = advanced(h2, t2.take(n as int));
                assert(conversation(h3, s3, t2.skip(n as int)).1 == Outcome::Done);
                assert(bytes_read(h3, s3, t2.skip(n as int)) == 0);
            }
            assert(bytes_read(h2, s2, t2) == lesser(n as int, t2.len() as int));
            assert(conversation(h2, s2, t2).1 == connect_outcome(t));
        } else if head[0] == 5 && head[1] == 0 && (head[3] == 1 || head[3] == 4) {
            let n: nat = if head[3] == 1 {
                6
            } else {
                18
            };
            if t1.len() >= n {
                let (h2, s2) = advanced(h1, t1.take(n as int));
                assert(conversation(h2, s2, t1.skip(n as int)).1 == Outcome::Done);
                assert(bytes_read(h2, s2, t1.skip(n as int)) == 0);
            }
        }
        assert(conversation(h1, s1, t1).1 == connect_outcome(t));
        assert(bytes_read(h1, s1, t1) == lesser(connect_length(t), t.len() as int) - 4);
    }
}

/// How a SOCKS5 handshake ends, and how much is read, for everything that a proxy may send: each
/// error comes exactly where the proxy sends what it stands for, and nothing is read beyond what
/// belongs to the handshake.
pub proof fn socks5_conversation_ends(cfg: ProxyView, dest: (Seq<u8>, u16), s: Seq<u8>)
    ensures
        ({
            let end = whole_conversation("SOCKS5"@, cfg, dest, s).1;
            let read = whole_read("SOCKS5"@, cfg, dest, s);
            if s.len() < 2 {
                end == Outcome::Starved && read == s.len()
            } else if s[0] != 5 {
                end == Outcome::Failed(ErrorView::GreetingVersion) && read == 2
            } else if s[1] == 0 {
                end == connect_outcome(s.skip(2)) && read == 2 + lesser(
                    connect_length(s.skip(2)),
                    s.len() - 2,
                )
            } else if s[1] != 2 {
                end == Outcome::Failed(ErrorView::Method(s[1])) && read == 2
            } else if s.len() < 4 {
                end == Outcome::Starved && read == s.len()
            } else if s[3] != 0 {
                end == Outcome::Failed(ErrorView::Authentication) && read == 4
            } else {
                end == connect_outcome(s.skip(4)) && read == 4 + lesser(
                    connect_length(s.skip(4)),
                    s.len() - 4,
                )
            }
        }),
{
    let (h, step) = begun("SOCKS5"@, cfg, dest);
    let request = connect_request(dest.0, dest.1);
    if s.len() >= 2 {
        let reply = s.take(2);
        let (h1, s1) = advanced(h, reply);
        let t1 = s.skip(2);
        if reply[0] == 5 && reply[1] == 0 {
            connect_conversation_ends(h1, request, t1);
        } else if reply[0] == 5 && reply[1] == 2 {
            if t1.len() >= 2 {
                let answer = t1.take(2);
                assert(answer[1] == s[3]);
                let (h2, s2) = advanced(h1, answer);
                let t2 = t1.skip(2);
                assert(t2 =~= s.skip(4));
                if answer[1] == 0 {
                    connect_conversation_ends(h2, request, t2);
                } else {
                    assert(bytes_read(h2, s2, t2) == 0);
                    assert(conversation(h2, s2, t2).1 == Outcome::Failed(
                        ErrorView::Authentication,
                    ));
                }
                assert(bytes_read(h1, s1, t1) == 2 + bytes_read(h2, s2, t2));
                assert(conversation(h1, s1, t1).1 == conversation(h2, s2, t2).1);
            } else {
                assert(bytes_read(h1, s1, t1) == t1.len());
                assert(conversation(h1, s1, t1).1 == Outcome::Starved);
            }
        } else {
            assert(bytes_read(h1, s1, t1) == 0);
        }
        assert(bytes_read(h, step, s) == 2 + bytes_read(h1, s1, t1));
        assert(conversation(h, step, s).1 == conversation(h1, s1, t1).1);
    }
}

/// The models of an error and of a step tell all of them.
pub proof fn step_model_is_whole(step: Step)
    ensures
        step matches Step::Exchange { send, read } ==> step@ == (StepView::Exchange {
            send: send@,
            read: read as nat,
        }),
        step is Done <==> step@ is Done,
        step matches Step::Failed(e) ==> step@ == StepView::Failed(e@) && (e
            matches HandshakeError::Http(t) ==> e@ == ErrorView::Http(t@)) && (e
            matches HandshakeError::Method(n) ==> e@ == ErrorView::Method(n)) && (e
            matches HandshakeError::Connect(n) ==> e@ == ErrorView::Connect(n)) && (e
            is GreetingVersion <==> e@ is GreetingVersion) && (e is Authentication <==> e@
            is Authentication) && (e is ConnectVersion <==> e@ is ConnectVersion) && (e
            is AddressType <==> e@ is AddressType),
{
}

/// A username or password that is there is presented as it is, and a missing one is presented as
/// the empty text.
pub proof fn missing_credentials_are_empty(s: Seq<char>)
    ensures
        credential(Some(s)) == s,
        credential(None).len() == 0,
{
}

/// Of an HTTP response whose head does not end, 4096 bytes are read, and these decide.
pub proof fn long_responses_are_cut_off(
    upper_type: Seq<char>,
    cfg: ProxyView,
    dest: (Seq<u8>, u16),
    s: Seq<u8>,
)
    requires
        upper_type != "SOCKS5"@,
        s.len() >= 4096,
        forall|j: int| 0 < j < 4096 ==> !head_end().is_suffix_of(#[trigger] s.take(j)),
    ensures
        ({
            let end = whole_conversation(upper_type, cfg, dest, s).1;
            let text = utf8_lossy(s.take(4096));
            &&& whole_read(upper_type, cfg, dest, s) == 4096
            &&& end is Done <==> text_contains(text, " 200 "@)
            &&& end !is Done ==> end == Outcome::Failed(ErrorView::Http(trimmed(text)))
        }),
{
    let head = s.take(4096);
    let rest = s.skip(4096);
    assert forall|j: int| 0 < j < head.len() implies !head_end().is_suffix_of(
        #[trigger] head.take(j),
    ) by {
        assert(head.take(j) =~= s.take(j));
    }
    assert(head + rest =~= s);
    http_conversation(upper_type, cfg, dest, head, rest);
}

/// The two errors of a wrong version tell at which answer it came, and no two errors without a
/// number or a text are told alike.
pub proof fn plain_errors_differ()
    ensures
        ({
            let version = "Invalid SOCKS version in "@;
            &&& error_text(ErrorView::GreetingVersion) == version + "response"@
            &&& error_text(ErrorView::ConnectVersion) == version + "connect response"@
            &&& error_text(ErrorView::Authentication) == "SOCKS5 Authentication"@ + " failed"@
            &&& error_text(ErrorView::AddressType) == "Unsupported address type in SOCKS5 "@
                + "connect response"@
        }),
{
    reveal_strlit("Invalid SOCKS version in ");
    reveal_strlit("response");
    reveal_strlit("connect response");
    assert(error_text(ErrorView::GreetingVersion) =~= "Invalid SOCKS version in "@ + "response"@)
        by {
        reveal_strlit("Invalid SOCKS version in response");
    }
    assert(error_text(ErrorView::ConnectVersion) =~= "Invalid SOCKS version in "@
        + "connect response"@) by {
        reveal_strlit("Invalid SOCKS version in connect response");
    }
    assert(error_text(ErrorView::Authentication) =~= "SOCKS5 Authentication"@ + " failed"@) by {
        reveal_strlit("SOCKS5 Authentication");
        reveal_strlit(" failed");
        reveal_strlit("SOCKS5 Authentication failed");
    }
    assert(error_text(ErrorView::AddressType) =~= "Unsupported address type in SOCKS5 "@
        + "connect response"@) by {
        reveal_strlit("Unsupported address type in SOCKS5 ");
        reveal_strlit("Unsupported address type in SOCKS5 connect response");
    }
}

/// The greeting says the version, and how many methods follow; a method is among those that follow
/// exactly where the handshake goes on when the proxy chooses it.
pub proof fn greeting_offers_what_is_understood(h: HandshakeView, method: u8)
    requires
        h.stage is Greeting,
    ensures
        greeting()[0] == 5,
        greeting().len() == 2 + greeting()[1],
        greeting().skip(2).no_duplicates(),
        greeting().skip(2).contains(method) <==> method == 0 || method == 2,
        greeting().skip(2).contains(method) <==> advanced(h, seq![5u8, method]).1 is Exchange,
{
    let offered = greeting().skip(2);
    assert(offered[0] == 0 && offered[1] == 2);
    if offered.contains(method) {
        let i = choose|i: int| 0 <= i < offered.len() && offered[i] == method;
        assert(i == 0 || i == 1);
    }
}

}
