//! Per-connection state: the HTTP parse state the external parser fills,
//! the scratch buffers, the staged "canned answer" used to fail fast with
//! 404 or 503, and the connection's state machine.
use vstd::prelude::*;

verus! {

/// The parsed request line.
pub struct RequestLine {
    pub method: String,
    pub uri: String,
    pub version: String,
}

/// What the core reads of the parser's request half: each getter of the
/// external parser as a plain optional value.
pub struct RequestState {
    pub host: Option<String>,
    pub request_line: Option<RequestLine>,
    pub front_keep_alive: Option<bool>,
}

/// The parser's response half, abstracted: untouched, or carrying a
/// partial parse of an upstream reply.
#[derive(Clone, Copy, Debug, PartialEq, Eq, Structural)]
pub enum ResponseState {
    Initial,
    InProgress,
}

/// The parser state a client carries: its two half-states and a byte
/// position into each direction's buffer.
pub struct HttpState {
    pub req_position: usize,
    pub res_position: usize,
    pub request: RequestState,
    pub response: ResponseState,
}

impl HttpState {
    pub fn new() -> (r: HttpState)
        ensures
            r.req_position == 0,
            r.res_position == 0,
            r.request.host is None,
            r.request.request_line is None,
            r.request.front_keep_alive is None,
            r.response == ResponseState::Initial,
    {
        HttpState {
            req_position: 0,
            res_position: 0,
            request: RequestState { host: None, request_line: None, front_keep_alive: None },
            response: ResponseState::Initial,
        }
    }
}

/// Where a connection stands, from TLS accept to teardown.
#[derive(Clone, Copy, Debug, PartialEq, Eq, Structural)]
pub enum ClientStatus {
    Handshaking,
    ReadingRequest,
    ConnectingBackend,
    Streaming,
    WritingCannedAnswer,
    Closed,
}

/// What the event loop observes of a connection between two turns.
#[derive(Clone, Copy, Debug, PartialEq, Eq, Structural)]
pub enum ClientEvent {
    HandshakeCompleted,
    RequestParsed,
    BackendConnected,
    AnswerStaged,
    AnswerDrained,
    PeerClosed,
    IoError,
}

/// The connection state machine: handshake, then request parse, then the
/// backend connect, then streaming; a staged answer diverts any state to
/// draining it; a close or an unrecoverable error ends the connection.
/// Events that do not apply to the current state leave it unchanged (the
/// readiness loop re-polls).
pub open spec fn spec_next_status(status: ClientStatus, event: ClientEvent) -> ClientStatus {
    match event {
        ClientEvent::AnswerStaged => ClientStatus::WritingCannedAnswer,
        ClientEvent::PeerClosed => ClientStatus::Closed,
        ClientEvent::IoError => ClientStatus::Closed,
        ClientEvent::HandshakeCompleted => if status == ClientStatus::Handshaking {
            ClientStatus::ReadingRequest
        } else {
            status
        },
        ClientEvent::RequestParsed => if status == ClientStatus::ReadingRequest {
            ClientStatus::ConnectingBackend
        } else {
            status
        },
        ClientEvent::BackendConnected => if status == ClientStatus::ConnectingBackend {
            ClientStatus::Streaming
        } else {
            status
        },
        ClientEvent::AnswerDrained => if status == ClientStatus::WritingCannedAnswer {
            ClientStatus::Closed
        } else {
            status
        },
    }
}

impl ClientStatus {
    /// Advance the state machine by one observed event.
    pub fn next(self, event: ClientEvent) -> (r: ClientStatus)
        ensures
            r == spec_next_status(self, event),
    {
        match event {
            ClientEvent::AnswerStaged => ClientStatus::WritingCannedAnswer,
            ClientEvent::PeerClosed => ClientStatus::Closed,
            ClientEvent::IoError => ClientStatus::Closed,
            ClientEvent::HandshakeCompleted => if self == ClientStatus::Handshaking {
                ClientStatus::ReadingRequest
            } else {
                self
            },
            ClientEvent::RequestParsed => if self == ClientStatus::ReadingRequest {
                ClientStatus::ConnectingBackend
            } else {
                self
            },
            ClientEvent::BackendConnected => if self == ClientStatus::ConnectingBackend {
                ClientStatus::Streaming
            } else {
                self
            },
            ClientEvent::AnswerDrained => if self == ClientStatus::WritingCannedAnswer {
                ClientStatus::Closed
            } else {
                self
            },
        }
    }
}

/// Why a request could not be bridged to a backend.
#[derive(Clone, Copy, Debug, PartialEq, Eq, Structural)]
pub enum ConnectionError {
    /// The request carries no Host header.
    NoHostGiven,
    /// The parser has no request line yet.
    NoRequestLineGiven,
    /// The host is not in the routing table; a 404 is staged.
    HostNotFound,
    /// The application has no instances, or the connect failed; a 503 is
    /// staged.
    NoBackendAvailable,
    /// The TLS handshake failed non-recoverably.
    TlsAcceptFailed,
    /// Any other socket error.
    Io,
}

/// A connection's record: parser state, scratch buffers for the two
/// directions, the optional staged answer, and the state machine's state.
/// The TLS stream it reads and writes stays with the owner of the socket.
pub struct Client {
    pub http: HttpState,
    pub front_buf: Vec<u8>,
    pub back_buf: Vec<u8>,
    pub answer: Option<Vec<u8>>,
    pub status: ClientStatus,
}

impl Client {
    /// A fresh record for a just-accepted connection, mid-handshake.
    pub fn new() -> (r: Client)
        ensures
            r.http.req_position == 0,
            r.http.res_position == 0,
            r.http.request.host is None,
            r.http.request.request_line is None,
            r.http.request.front_keep_alive is None,
            r.http.response == ResponseState::Initial,
            r.front_buf@.len() == 0,
            r.back_buf@.len() == 0,
            r.answer is None,
            r.status == ClientStatus::Handshaking,
    {
        Client {
            http: HttpState::new(),
            front_buf: Vec::new(),
            back_buf: Vec::new(),
            answer: None,
            status: ClientStatus::Handshaking,
        }
    }

    /// Stage a pre-canned answer; the connection turns to draining it.
    /// Everything else about the client is untouched.
    pub fn set_answer(&mut self, answer: &[u8])
        ensures
            final(self).answer matches Some(a) && a@ == answer@,
            final(self).status == spec_next_status(old(self).status, ClientEvent::AnswerStaged),
            final(self).http == old(self).http,
            final(self).front_buf == old(self).front_buf,
            final(self).back_buf == old(self).back_buf,
    {
        self.answer = Some(vstd::slice::slice_to_vec(answer));
        self.status = self.status.next(ClientEvent::AnswerStaged);
    }

    /// The response half of the parse state is reset when a backend socket
    /// is obtained, so that a prior reply's parse cannot contaminate the
    /// new upstream's; the request half and its position are preserved.
    pub fn reset_response_state(&mut self)
        ensures
            final(self).http.res_position == 0,
            final(self).http.response == ResponseState::Initial,
            final(self).http.req_position == old(self).http.req_position,
            final(self).http.request == old(self).http.request,
            final(self).front_buf == old(self).front_buf,
            final(self).back_buf == old(self).back_buf,
            final(self).answer == old(self).answer,
            final(self).status == old(self).status,
    {
        self.http.res_position = 0;
        self.http.response = ResponseState::Initial;
    }
}

} // verus!
