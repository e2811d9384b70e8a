//! The transport's decision layer.
//!
//! One request rides one connection: probe the endpoint path, connect,
//! write one line, read one line. The process around this crate performs
//! those four actions; every decision between them — which error kind a
//! failure becomes, and what the reply line means — is made here, in
//! `SendExchange::step`. A send whose endpoint path is missing fails as
//! `NotConnected` before any connection is attempted.

use vstd::prelude::*;
use crate::codec::{
    SocketRequest, SocketResponse, decode_response, encode_request, request_jval, resp_models,
    response_jval, wf_response,
};
use crate::jsonparse::is_line_ws;
use crate::json::{JsonValue, render_val};
use vstd::string::StrSliceExecFns;
use vstd::string::StringExecFns;

verus! {

/// What can go wrong with one request, before any reply is interpreted.
#[derive(Debug)]
pub enum IpcError {
    /// The endpoint path does not exist; no connection was attempted.
    NotConnected(String),
    /// The endpoint exists but could not be reached.
    ConnectionFailed(String),
    /// The request could not be written.
    RequestFailed(String),
    /// The reply line did not parse as a response object.
    InvalidResponse(String),
}

/// The one-line description of a transport error.
pub open spec fn spec_ipc_message(e: IpcError) -> Seq<char> {
    match e {
        IpcError::NotConnected(p) => "Hotwired backend is not running (socket not found at "@ + p@
            + ")"@,
        IpcError::ConnectionFailed(m) => "Connection failed: "@ + m@,
        IpcError::RequestFailed(m) => "Request failed: "@ + m@,
        IpcError::InvalidResponse(m) => "Invalid response: "@ + m@,
    }
}

impl IpcError {
    /// The one-line description of this error.
    pub fn message(&self) -> (r: String)
        ensures
            r@ == spec_ipc_message(*self),
    {
        match self {
            IpcError::NotConnected(p) => {
                let mut m = String::from_str(
                    "Hotwired backend is not running (socket not found at ",
                );
                m.append(p.as_str());
                m.append(")");
                assert(m@ =~= spec_ipc_message(*self));
                m
            },
            IpcError::ConnectionFailed(t) => {
                let mut m = String::from_str("Connection failed: ");
                m.append(t.as_str());
                m
            },
            IpcError::RequestFailed(t) => {
                let mut m = String::from_str("Request failed: ");
                m.append(t.as_str());
                m
            },
            IpcError::InvalidResponse(t) => {
                let mut m = String::from_str("Invalid response: ");
                m.append(t.as_str());
                m
            },
        }
    }
}

/// Relies on dirs::home_dir: the user's home directory, when the
/// platform knows one, as a plain path string.
#[verifier::external_body]
fn home_dir_string() -> (r: Option<String>) {
    dirs::home_dir().map(|p| p.to_string_lossy().to_string())
}

/// The endpoint path used when none is given: a well-known name under
/// the home directory, with a fixed fallback when no home is known.
pub open spec fn spec_default_socket_path(home: Option<String>) -> Seq<char> {
    match home {
        Some(h) => h@ + "/.hotwired/hotwired.sock"@,
        None => "/tmp/.hotwired/hotwired.sock"@,
    }
}

fn default_socket_path(home: Option<String>) -> (r: String)
    ensures
        r@ == spec_default_socket_path(home),
{
    match home {
        Some(h) => {
            let mut p = h;
            p.append("/.hotwired/hotwired.sock");
            p
        },
        None => String::from_str("/tmp/.hotwired/hotwired.sock"),
    }
}

/// Leading and trailing whitespace removed.
pub open spec fn spec_trim(s: Seq<char>) -> Seq<char> {
    spec_trim_end(spec_trim_start(s))
}

pub open spec fn spec_trim_start(s: Seq<char>) -> Seq<char>
    decreases s.len(),
{
    if s.len() > 0 && is_line_ws(s[0]) {
        spec_trim_start(s.drop_first())
    } else {
        s
    }
}

pub open spec fn spec_trim_end(s: Seq<char>) -> Seq<char>
    decreases s.len(),
{
    if s.len() > 0 && is_line_ws(s.last()) {
        spec_trim_end(s.drop_last())
    } else {
        s
    }
}

/// The token that a token file's contents yield: the trimmed text, when
/// it is non-empty.
pub open spec fn spec_auth_token(contents: Option<String>) -> Option<Seq<char>> {
    match contents {
        Some(c) => if spec_trim(c@).len() > 0 {
            Some(spec_trim(c@))
        } else {
            None
        },
        None => None,
    }
}

/// Trim whitespace from both ends of a string.
#[verifier::loop_isolation(false)]
pub fn trim_ws(s: &str) -> (r: String)
    ensures
        r@ == spec_trim(s@),
{
    let n = s.unicode_len();
    let mut start: usize = 0;
    proof {
        assert(s@.skip(0) =~= s@);
    }
    while start < n && is_ws_char(s.get_char(start))
        invariant
            start <= n,
            spec_trim_start(s@) == spec_trim_start(s@.skip(start as int)),
        decreases n - start,
    {
        proof {
            assert(s@.skip(start as int).drop_first() =~= s@.skip(start + 1));
        }
        start = start + 1;
    }
    proof {
        assert(spec_trim_start(s@.skip(start as int)) == s@.skip(start as int)) by {
            if start < n {
                assert(s@.skip(start as int)[0] == s@[start as int]);
            }
        }
    }
    let mut end: usize = n;
    while end > start && is_ws_char(s.get_char(end - 1))
        invariant
            start <= end <= n,
            spec_trim_end(s@.skip(start as int)) == spec_trim_end(
                s@.subrange(start as int, end as int),
            ),
        decreases end,
    {
        proof {
            let cur = s@.subrange(start as int, end as int);
            assert(cur.last() == s@[end - 1]);
            assert(cur.drop_last() =~= s@.subrange(start as int, end - 1));
        }
        end = end - 1;
    }
    proof {
        let cur = s@.subrange(start as int, end as int);
        assert(spec_trim_end(cur) == cur) by {
            if end > start {
                assert(cur.last() == s@[end - 1]);
            }
        }
        assert(s@.skip(start as int) =~= s@.subrange(start as int, n as int));
    }
    String::from_str(s.substring_char(start, end))
}

fn is_ws_char(c: char) -> (r: bool)
    ensures
        r == is_line_ws(c),
{
    c == ' ' || c == '\t' || c == '\r' || c == '\n'
}

/// A handle on the backend: where its endpoint lives, and the token to
/// attach to every request.
pub struct HotwiredClient {
    socket_path: String,
    auth_token: Option<String>,
}

impl HotwiredClient {
    /// A client for the given endpoint path, or for the default one
    /// under the home directory. The second argument is the auth token
    /// file's contents, if that file exists: its trimmed text, when
    /// non-empty, rides on every request.
    pub fn new(socket_path: Option<String>, token_contents: Option<String>) -> (r:
        HotwiredClient)
        ensures
            match socket_path {
                Some(p) => r.spec_socket_path() == p@,
                None => exists|home: Option<String>|
                    r.spec_socket_path() == spec_default_socket_path(home),
            },
            r.spec_auth() == spec_auth_token(token_contents),
    {
        let path = match socket_path {
            Some(p) => p,
            None => {
                let home = home_dir_string();
                let ghost h = home;
                let p = default_socket_path(home);
                proof {
                    assert(p@ == spec_default_socket_path(h));
                }
                p
            },
        };
        let auth_token = match token_contents {
            Some(c) => {
                let t = trim_ws(c.as_str());
                if t.as_str().unicode_len() == 0 {
                    None
                } else {
                    Some(t)
                }
            },
            None => None,
        };
        HotwiredClient { socket_path: path, auth_token }
    }

    pub closed spec fn spec_socket_path(&self) -> Seq<char> {
        self.socket_path@
    }

    pub closed spec fn spec_auth(&self) -> Option<Seq<char>> {
        match self.auth_token {
            Some(t) => Some(t@),
            None => None,
        }
    }

    /// The endpoint path this client speaks to.
    pub fn socket_path(&self) -> (r: &str)
        ensures
            r@ == self.spec_socket_path(),
    {
        self.socket_path.as_str()
    }

    /// A request for the given method, carrying this client's token.
    /// The correlation id is never set: each connection carries exactly
    /// one request.
    pub fn make_request(&self, method: &str, params: JsonValue) -> (r: SocketRequest)
        ensures
            r.id is None,
            r.method@ == method@,
            r.params == params,
            spec_auth_of(r.token) == self.spec_auth(),
    {
        let token = match &self.auth_token {
            Some(t) => Some(t.clone()),
            None => None,
        };
        SocketRequest { id: None, method: method.to_owned(), params, token }
    }

    /// Begin one request/response exchange for `req`.
    pub fn begin_send(&self, req: &SocketRequest) -> (r: SendExchange)
        ensures
            r.socket_path@ == self.spec_socket_path(),
            r.line@ == render_val(request_jval(*req)),
            r.state is CheckingEndpoint,
    {
        SendExchange {
            socket_path: self.socket_path.clone(),
            line: encode_request(req),
            state: SendState::CheckingEndpoint,
        }
    }
}

pub open spec fn spec_auth_of(token: Option<String>) -> Option<Seq<char>> {
    match token {
        Some(t) => Some(t@),
        None => None,
    }
}

/// Where one exchange stands.
pub enum SendState {
    /// About to ask whether the endpoint path exists.
    CheckingEndpoint,
    /// The path exists; about to connect.
    Connecting,
    /// Connected; about to write the request line.
    Transmitting,
    /// Written; about to read the reply line.
    AwaitingReply,
    /// Done, one way or the other.
    Finished(Result<SocketResponse, IpcError>),
}

/// The one outside action each state calls for.
pub enum SendAction {
    /// Ask the filesystem whether the endpoint path exists. No
    /// connection is made for this.
    ProbeEndpoint,
    /// Connect to the endpoint path.
    OpenConnection,
    /// Write the request line and a line terminator, and flush.
    WriteLine,
    /// Read one line of reply.
    ReadLine,
    /// Nothing; the exchange is over.
    Stop,
}

/// What the outside action came back with.
pub enum SendEvent {
    EndpointProbed(bool),
    ConnectionOpened(Result<(), String>),
    LineWritten(Result<(), String>),
    LineRead(Result<String, String>),
}

/// The event kind each state awaits.
pub open spec fn event_fits(state: SendState, event: SendEvent) -> bool {
    match (state, event) {
        (SendState::CheckingEndpoint, SendEvent::EndpointProbed(_)) => true,
        (SendState::Connecting, SendEvent::ConnectionOpened(_)) => true,
        (SendState::Transmitting, SendEvent::LineWritten(_)) => true,
        (SendState::AwaitingReply, SendEvent::LineRead(_)) => true,
        _ => false,
    }
}

/// One request/response exchange: the endpoint path, the framed request
/// line, and where the exchange stands. The surrounding process drives
/// it: perform `action()`, feed the outcome to `step`, repeat until the
/// action is `Stop`.
pub struct SendExchange {
    pub socket_path: String,
    pub line: String,
    pub state: SendState,
}

impl SendExchange {
    /// The outside action the current state calls for.
    pub fn action(&self) -> (r: SendAction)
        ensures
            self.state is CheckingEndpoint ==> r is ProbeEndpoint,
            self.state is Connecting ==> r is OpenConnection,
            self.state is Transmitting ==> r is WriteLine,
            self.state is AwaitingReply ==> r is ReadLine,
            self.state is Finished ==> r is Stop,
    {
        match self.state {
            SendState::CheckingEndpoint => SendAction::ProbeEndpoint,
            SendState::Connecting => SendAction::OpenConnection,
            SendState::Transmitting => SendAction::WriteLine,
            SendState::AwaitingReply => SendAction::ReadLine,
            SendState::Finished(_) => SendAction::Stop,
        }
    }

    /// Advance on the outcome of the last action.
    ///
    /// A missing endpoint finishes the exchange at once as
    /// `NotConnected` — the connecting state is never reached, so no
    /// connection is ever attempted for it. A reply line decodes to the
    /// response it canonically renders, or the exchange fails as
    /// `InvalidResponse` carrying the offending line.
    pub fn step(&mut self, event: SendEvent)
        requires
            event_fits(old(self).state, event),
        ensures
            final(self).socket_path == old(self).socket_path,
            final(self).line == old(self).line,
            old(self).state is CheckingEndpoint ==> (event matches SendEvent::EndpointProbed(
                found,
            ) ==> {
                &&& found ==> final(self).state is Connecting
                &&& !found ==> (final(self).state matches SendState::Finished(r) && (r matches Err(
                    e,
                ) && e matches IpcError::NotConnected(p) && p@ == old(self).socket_path@))
            }),
            old(self).state is Connecting ==> (event matches SendEvent::ConnectionOpened(res)
                ==> match res {
                Ok(u) => final(self).state is Transmitting,
                Err(m) => final(self).state matches SendState::Finished(r) && (r matches Err(e)
                    && e matches IpcError::ConnectionFailed(m2) && m2@ == m@),
            }),
            old(self).state is Transmitting ==> (event matches SendEvent::LineWritten(res)
                ==> match res {
                Ok(u) => final(self).state is AwaitingReply,
                Err(m) => final(self).state matches SendState::Finished(r) && (r matches Err(e)
                    && e matches IpcError::RequestFailed(m2) && m2@ == m@),
            }),
            old(self).state is AwaitingReply ==> (event matches SendEvent::LineRead(res)
                ==> match res {
                Ok(l) => final(self).state matches SendState::Finished(r) && {
                    &&& forall|resp: SocketResponse| #![trigger response_jval(resp)]
                        wf_response(resp) && l@ == render_val(response_jval(resp)) ==> (r matches
                        Ok(w) && resp_models(w, resp))
                    &&& (r matches Ok(w) ==> wf_response(w))
                    &&& (r matches Err(e) ==> e matches IpcError::InvalidResponse(m) && m@ == l@)
                },
                Err(m) => final(self).state matches SendState::Finished(r) && (r matches Err(e)
                    && e matches IpcError::RequestFailed(m2) && m2@ == m@),
            }),
    {
        match event {
            SendEvent::EndpointProbed(found) => {
                if found {
                    self.state = SendState::Connecting;
                } else {
                    self.state = SendState::Finished(
                        Err(IpcError::NotConnected(self.socket_path.clone())),
                    );
                }
            },
            SendEvent::ConnectionOpened(res) => {
                match res {
                    Ok(_) => {
                        self.state = SendState::Transmitting;
                    },
                    Err(m) => {
                        self.state = SendState::Finished(Err(IpcError::ConnectionFailed(m)));
                    },
                }
            },
            SendEvent::LineWritten(res) => {
                match res {
                    Ok(_) => {
                        self.state = SendState::AwaitingReply;
                    },
                    Err(m) => {
                        self.state = SendState::Finished(Err(IpcError::RequestFailed(m)));
                    },
                }
            },
            SendEvent::LineRead(res) => {
                match res {
                    Ok(l) => {
                        match decode_response(l.as_str()) {
                            Some(resp) => {
                                self.state = SendState::Finished(Ok(resp));
                            },
                            None => {
                                self.state = SendState::Finished(
                                    Err(IpcError::InvalidResponse(l)),
                                );
                            },
                        }
                    },
                    Err(m) => {
                        self.state = SendState::Finished(Err(IpcError::RequestFailed(m)));
                    },
                }
            },
        }
    }
}

/// A finished exchange awaits no event: in particular, after a probe
/// found the endpoint missing, no event can ever bring the exchange to
/// the state whose action opens a connection.
pub proof fn lemma_finished_is_terminal(r: Result<SocketResponse, IpcError>, event: SendEvent)
    ensures
        !event_fits(SendState::Finished(r), event),
{
}

} // verus!
