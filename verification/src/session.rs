//! The per-connection session: a state machine that drives one client
//! connection through upstream selection, request reading, rate
//! limiting, forwarding and response relay, classifying every fault
//! into the error answered to the client and whether the session
//! survives it.

use vstd::prelude::*;

verus! {

/// How reading one request from the client ended: the parsing
/// collaborator's verdict on the bytes read.
#[derive(Debug, PartialEq, Eq, Structural, Clone, Copy)]
pub enum RequestOutcome {
    /// A well-formed request was read.
    Parsed,
    /// The client sent zero further bytes: it finished cleanly.
    EndOfStream,
    /// An I/O error occurred while reading from the client.
    IoError,
    /// Some bytes arrived but the request ended early.
    Incomplete,
    /// The bytes did not form a valid request.
    Malformed,
    /// The declared content length was not a valid number.
    InvalidContentLength,
    /// The body did not match the declared content length.
    ContentLengthMismatch,
    /// The body exceeded the permitted size.
    BodyTooLarge,
}

/// Where a session stands. `Serving` through `Relaying` refine the
/// serving phase: each names the piece of outside work the session is
/// waiting on for its current request.
#[derive(Debug, PartialEq, Eq, Structural, Clone, Copy)]
pub enum SessionState {
    /// An upstream connection is being established by failover.
    AwaitingUpstream,
    /// At the top of the keep-alive loop: the next request is awaited.
    Serving,
    /// The rate limiter is being consulted for the request just read.
    RateChecking,
    /// The request is being forwarded to the upstream.
    Forwarding,
    /// The upstream's response is awaited.
    AwaitingResponse,
    /// The response is being relayed back to the client.
    Relaying,
    /// The session is over.
    Closed,
}

/// The answer the outside world gives to the work a state was
/// waiting on.
#[derive(Debug, PartialEq, Eq, Structural, Clone, Copy)]
pub enum SessionEvent {
    /// Whether failover produced an upstream connection.
    ConnectOutcome(bool),
    /// The verdict on reading one request from the client.
    ReadOutcome(RequestOutcome),
    /// Whether the request stayed within the rate ceiling.
    RateOutcome(bool),
    /// Whether the request was written to the upstream.
    ForwardOutcome(bool),
    /// Whether a response was read back from the upstream.
    ResponseOutcome(bool),
    /// Whether the response was written to the client.
    RelayOutcome(bool),
}

/// What the connection handler must do next.
#[derive(Debug, PartialEq, Eq, Structural, Clone, Copy)]
pub enum SessionAction {
    /// Establish an upstream connection by failover selection.
    ConnectUpstream,
    /// Read one request from the client.
    ReadRequest,
    /// Consult the rate limiter for the client.
    CheckRate,
    /// Append the forwarding header and write the request upstream.
    ForwardRequest,
    /// Read the upstream's response.
    ReadResponse,
    /// Write the upstream's response to the client.
    RelayResponse,
    /// Answer the client with this error status, then read the next
    /// request: the session survives.
    SendErrorAndContinue(u16),
    /// Answer the client with this error status, then close: the
    /// session is over.
    SendErrorAndClose(u16),
    /// Close the session without answering.
    CloseQuietly,
}

/// The error status answered for a request that could not be read:
/// 400 for a request that is incomplete, malformed or carries a bad
/// content length; 413 for an oversized body; 503 for a local read
/// failure.
pub open spec fn spec_read_error_status(o: RequestOutcome) -> u16 {
    match o {
        RequestOutcome::BodyTooLarge => 413u16,
        RequestOutcome::IoError => 503u16,
        _ => 400u16,
    }
}

/// The transition table of the session machine. Each state waits for
/// one kind of outside work; its event decides the next state and the
/// next action. An event that does not answer the state's pending
/// work tears the session down quietly.
pub open spec fn spec_step(rate_limiting: bool, s: SessionState, e: SessionEvent) -> (
    SessionState,
    SessionAction,
) {
    match (s, e) {
        (SessionState::AwaitingUpstream, SessionEvent::ConnectOutcome(ok)) => if ok {
            (SessionState::Serving, SessionAction::ReadRequest)
        } else {
            (SessionState::Closed, SessionAction::SendErrorAndClose(502u16))
        },
        (SessionState::Serving, SessionEvent::ReadOutcome(o)) => match o {
            RequestOutcome::Parsed => if rate_limiting {
                (SessionState::RateChecking, SessionAction::CheckRate)
            } else {
                (SessionState::Forwarding, SessionAction::ForwardRequest)
            },
            RequestOutcome::EndOfStream => (SessionState::Closed, SessionAction::CloseQuietly),
            RequestOutcome::IoError => (
                SessionState::Closed,
                SessionAction::SendErrorAndClose(503u16),
            ),
            _ => (
                SessionState::Serving,
                SessionAction::SendErrorAndContinue(spec_read_error_status(o)),
            ),
        },
        (SessionState::RateChecking, SessionEvent::RateOutcome(ok)) => if ok {
            (SessionState::Forwarding, SessionAction::ForwardRequest)
        } else {
            (SessionState::Serving, SessionAction::SendErrorAndContinue(429u16))
        },
        (SessionState::Forwarding, SessionEvent::ForwardOutcome(ok)) => if ok {
            (SessionState::AwaitingResponse, SessionAction::ReadResponse)
        } else {
            (SessionState::Closed, SessionAction::SendErrorAndClose(502u16))
        },
        (SessionState::AwaitingResponse, SessionEvent::ResponseOutcome(ok)) => if ok {
            (SessionState::Relaying, SessionAction::RelayResponse)
        } else {
            (SessionState::Closed, SessionAction::SendErrorAndClose(502u16))
        },
        (SessionState::Relaying, SessionEvent::RelayOutcome(ok)) => if ok {
            (SessionState::Serving, SessionAction::ReadRequest)
        } else {
            (SessionState::Closed, SessionAction::CloseQuietly)
        },
        _ => (SessionState::Closed, SessionAction::CloseQuietly),
    }
}

/// One step of the session machine, exactly as the transition table
/// states it.
pub fn session_step(rate_limiting: bool, s: &SessionState, e: &SessionEvent) -> (r: (
    SessionState,
    SessionAction,
))
    ensures
        r == spec_step(rate_limiting, *s, *e),
{
    match (s, e) {
        (SessionState::AwaitingUpstream, SessionEvent::ConnectOutcome(ok)) => if *ok {
            (SessionState::Serving, SessionAction::ReadRequest)
        } else {
            (SessionState::Closed, SessionAction::SendErrorAndClose(502))
        },
        (SessionState::Serving, SessionEvent::ReadOutcome(o)) => match o {
            RequestOutcome::Parsed => if rate_limiting {
                (SessionState::RateChecking, SessionAction::CheckRate)
            } else {
                (SessionState::Forwarding, SessionAction::ForwardRequest)
            },
            RequestOutcome::EndOfStream => (SessionState::Closed, SessionAction::CloseQuietly),
            RequestOutcome::IoError => (SessionState::Closed, SessionAction::SendErrorAndClose(503)),
            RequestOutcome::BodyTooLarge => (
                SessionState::Serving,
                SessionAction::SendErrorAndContinue(413),
            ),
            _ => (SessionState::Serving, SessionAction::SendErrorAndContinue(400)),
        },
        (SessionState::RateChecking, SessionEvent::RateOutcome(ok)) => if *ok {
            (SessionState::Forwarding, SessionAction::ForwardRequest)
        } else {
            (SessionState::Serving, SessionAction::SendErrorAndContinue(429))
        },
        (SessionState::Forwarding, SessionEvent::ForwardOutcome(ok)) => if *ok {
            (SessionState::AwaitingResponse, SessionAction::ReadResponse)
        } else {
            (SessionState::Closed, SessionAction::SendErrorAndClose(502))
        },
        (SessionState::AwaitingResponse, SessionEvent::ResponseOutcome(ok)) => if *ok {
            (SessionState::Relaying, SessionAction::RelayResponse)
        } else {
            (SessionState::Closed, SessionAction::SendErrorAndClose(502))
        },
        (SessionState::Relaying, SessionEvent::RelayOutcome(ok)) => if *ok {
            (SessionState::Serving, SessionAction::ReadRequest)
        } else {
            (SessionState::Closed, SessionAction::CloseQuietly)
        },
        _ => (SessionState::Closed, SessionAction::CloseQuietly),
    }
}

/// Law: a closed session stays closed, whatever else happens.
pub proof fn lemma_closed_absorbing(rate_limiting: bool, e: SessionEvent)
    ensures
        spec_step(rate_limiting, SessionState::Closed, e).0 == SessionState::Closed,
{
}

/// Law: every error the machine answers a client with is one of the
/// statuses of the error taxonomy: 400, 413, 429, 502 or 503.
pub proof fn lemma_error_statuses(rate_limiting: bool, s: SessionState, e: SessionEvent)
    ensures
        spec_step(rate_limiting, s, e).1 matches SessionAction::SendErrorAndContinue(c) ==> (c
            == 400 || c == 413 || c == 429),
        spec_step(rate_limiting, s, e).1 matches SessionAction::SendErrorAndClose(c) ==> (c == 502
            || c == 503),
{
}

/// Law: no fault inside one request's handling selects a new
/// upstream: the only state whose action connects upstream is
/// `AwaitingUpstream`, which no serving-phase transition returns to.
pub proof fn lemma_no_reselection_mid_session(rate_limiting: bool, s: SessionState, e: SessionEvent)
    ensures
        s != SessionState::AwaitingUpstream ==> spec_step(rate_limiting, s, e).0
            != SessionState::AwaitingUpstream,
        s != SessionState::AwaitingUpstream ==> spec_step(rate_limiting, s, e).1
            != SessionAction::ConnectUpstream,
{
}

/// The transient pairing of one client connection with one chosen
/// upstream connection, together with where the session stands. The
/// pairing is fixed when the upstream is attached and never changes
/// for the life of the session, so a response relayed within one
/// session can only come from that session's own upstream connection.
pub struct ProxySession {
    client_ip: String,
    upstream: Option<String>,
    rate_limiting: bool,
    state: SessionState,
}

impl ProxySession {
    /// The address of the client end of the pairing.
    pub closed spec fn spec_client(self) -> Seq<char> {
        self.client_ip@
    }

    /// The address of the upstream end, once attached.
    pub closed spec fn spec_upstream(self) -> Option<Seq<char>> {
        match self.upstream {
            Some(u) => Some(u@),
            None => None,
        }
    }

    /// Whether requests of this session pass through the rate limiter.
    pub closed spec fn spec_rate_limiting(self) -> bool {
        self.rate_limiting
    }

    /// Where the session stands.
    pub closed spec fn spec_state(self) -> SessionState {
        self.state
    }

    /// Begins a session for one accepted client connection; its first
    /// action is to establish an upstream connection.
    pub fn begin(client_ip: String, rate_limiting: bool) -> (s: Self)
        ensures
            s.spec_client() == client_ip@,
            s.spec_upstream() is None,
            s.spec_rate_limiting() == rate_limiting,
            s.spec_state() == SessionState::AwaitingUpstream,
    {
        ProxySession { client_ip, upstream: None, rate_limiting, state: SessionState::AwaitingUpstream }
    }

    /// Fixes the upstream end of the pairing, once failover has
    /// produced a connection.
    pub fn attach_upstream(&mut self, addr: String)
        requires
            old(self).spec_state() == SessionState::AwaitingUpstream,
        ensures
            final(self).spec_upstream() == Some(addr@),
            final(self).spec_client() == old(self).spec_client(),
            final(self).spec_rate_limiting() == old(self).spec_rate_limiting(),
            final(self).spec_state() == old(self).spec_state(),
    {
        self.upstream = Some(addr);
    }

    /// Where the session stands, for its driver to see.
    pub fn state(&self) -> (s: SessionState)
        ensures
            s == self.spec_state(),
    {
        self.state
    }

    /// Advances the session by one event and says what to do next.
    /// The pairing of client and upstream never changes: whatever
    /// happens, this session keeps its own two connections.
    pub fn advance(&mut self, e: &SessionEvent) -> (a: SessionAction)
        ensures
            final(self).spec_state() == spec_step(
                old(self).spec_rate_limiting(),
                old(self).spec_state(),
                *e,
            ).0,
            a == spec_step(old(self).spec_rate_limiting(), old(self).spec_state(), *e).1,
            final(self).spec_client() == old(self).spec_client(),
            final(self).spec_upstream() == old(self).spec_upstream(),
            final(self).spec_rate_limiting() == old(self).spec_rate_limiting(),
    {
        let (next, action) = session_step(self.rate_limiting, &self.state, e);
        self.state = next;
        action
    }
}

/// The well-known header that carries the chain of client addresses a
/// request passed through on its way to the upstream.
pub fn forwarding_header_name() -> (r: String)
    ensures
        r@ == "x-forwarded-for"@,
{
    let r = String::from_str("x-forwarded-for");
    r
}

/// Extends a forwarding-identity header value with the connecting
/// client's address: an absent header becomes the address itself; an
/// existing value is extended with a comma and a space, so proxies in
/// a chain append rather than overwrite.
pub fn extend_forwarded_for(existing: Option<&String>, client_ip: &String) -> (r: String)
    ensures
        match existing {
            Option::None => r@ == client_ip@,
            Option::Some(v) => r@ == v@ + ", "@ + client_ip@,
        },
{
    match existing {
        None => client_ip.clone(),
        Some(v) => {
            let mut r = v.clone();
            r.append(", ");
            r.append(client_ip.as_str());
            r
        },
    }
}

} // verus!
