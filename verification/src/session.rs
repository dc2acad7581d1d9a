use vstd::prelude::*;

use crate::address::Target;
use crate::bytes::bytes_eq;
use crate::bytes::copy_range;
use crate::bytes::push_be64;
use crate::bytes::spec_be64_bytes;
use crate::errors::ProtocolError;
use crate::packet::build_handshake;
use crate::packet::build_ping;
use crate::packet::build_status_request;
use crate::packet::read_status_payload;
use crate::packet::spec_frame;
use crate::packet::spec_handshake_payload;
use crate::packet::spec_status_payload;
use crate::packet::DEFAULT_PORT;
use crate::packet::PING_PAYLOAD;
use crate::packet::PROTOCOL_VERSION_ANY;
use crate::status::names_view;
use crate::status::parse_status;
use crate::status::spec_parse_status;
use crate::status::StatusResponse;

verus! {

/// The phase of one protocol session. Transitions run one way only; any
/// violation closes the session.
#[derive(Clone, Copy, Debug, PartialEq, Eq, Structural)]
pub enum SessionState {
    Disconnected,
    Connected,
    StatusSent,
    StatusReceived,
    Pinged,
    Closed,
}

/// One Server List Ping session: the target, the fixed ping payload, and
/// the current phase. The caller connects the socket, sends the byte
/// strings these methods hand out, and feeds each received packet back in;
/// the session never retries and never reopens.
pub struct Session {
    pub state: SessionState,
    pub host: Vec<u8>,
    pub port: u16,
    pub ping_payload: u64,
}

impl Session {
    /// Open a session for `target`; a target without a port gets the
    /// standard default port.
    pub fn new(target: &Target) -> (r: Session)
        ensures
            r.state == SessionState::Disconnected,
            r.host@ == target.host@,
            r.port == (match target.port {
                Some(p) => p,
                None => DEFAULT_PORT,
            }),
            r.ping_payload == PING_PAYLOAD,
    {
        let port = match target.port {
            Some(p) => p,
            None => DEFAULT_PORT,
        };
        let host = copy_range(&target.host, 0, target.host.len());
        proof {
            assert(host@ =~= target.host@);
        }
        Session { state: SessionState::Disconnected, host, port, ping_payload: PING_PAYLOAD }
    }

    /// The TCP connection is up.
    pub fn on_connected(&mut self) -> (r: Result<(), ProtocolError>)
        ensures
            final(self).host == old(self).host,
            final(self).port == old(self).port,
            final(self).ping_payload == old(self).ping_payload,
            match r {
                Ok(()) => old(self).state == SessionState::Disconnected && final(self).state
                    == SessionState::Connected,
                Err(e) => old(self).state != SessionState::Disconnected && final(self).state
                    == SessionState::Closed && e == ProtocolError::WrongState,
            },
    {
        match self.state {
            SessionState::Disconnected => {
                self.state = SessionState::Connected;
                Ok(())
            },
            _ => {
                self.state = SessionState::Closed;
                Err(ProtocolError::WrongState)
            },
        }
    }

    /// The bytes opening the status phase: the framed handshake followed by
    /// the framed status request.
    pub fn status_request(&mut self) -> (r: Result<Vec<u8>, ProtocolError>)
        requires
            old(self).host@.len() <= 255,
        ensures
            final(self).host == old(self).host,
            final(self).port == old(self).port,
            final(self).ping_payload == old(self).ping_payload,
            match r {
                Ok(v) => old(self).state == SessionState::Connected && final(self).state
                    == SessionState::StatusSent && v@ == spec_frame(
                    0,
                    spec_handshake_payload(old(self).host@, old(self).port, PROTOCOL_VERSION_ANY),
                ) + spec_frame(0, Seq::empty()),
                Err(e) => old(self).state != SessionState::Connected && final(self).state
                    == SessionState::Closed && e == ProtocolError::WrongState,
            },
    {
        match self.state {
            SessionState::Connected => {
                self.state = SessionState::StatusSent;
                let mut out = build_handshake(&self.host, self.port, PROTOCOL_VERSION_ANY);
                let req = build_status_request();
                crate::bytes::push_all(&mut out, &req);
                Ok(out)
            },
            _ => {
                self.state = SessionState::Closed;
                Err(ProtocolError::WrongState)
            },
        }
    }

    /// A framed packet arrived while the status response was awaited: it
    /// must carry packet id 0 and a JSON document filling its payload, and
    /// the document must denote the players figures.
    pub fn on_status_packet(&mut self, id: u32, payload: &Vec<u8>) -> (r: Result<
        StatusResponse,
        ProtocolError,
    >)
        ensures
            final(self).host == old(self).host,
            final(self).port == old(self).port,
            final(self).ping_payload == old(self).ping_payload,
            match r {
                Ok(st) => old(self).state == SessionState::StatusSent && final(self).state
                    == SessionState::StatusReceived && id == 0 && (match spec_status_payload(
                    payload@,
                ) {
                    Some(doc) => spec_parse_status(doc) == Some(
                        (st.players_online, st.players_max, names_view(st.sampled_names@)),
                    ),
                    None => false,
                }),
                Err(_) => final(self).state == SessionState::Closed && (old(self).state
                    != SessionState::StatusSent || id != 0 || (match spec_status_payload(
                    payload@,
                ) {
                    Some(doc) => spec_parse_status(doc) is None,
                    None => true,
                })),
            },
    {
        match self.state {
            SessionState::StatusSent => {
                if id != 0 {
                    self.state = SessionState::Closed;
                    return Err(ProtocolError::UnexpectedPacket { expected: 0, found: id });
                }
                match read_status_payload(payload) {
                    Err(e) => {
                        self.state = SessionState::Closed;
                        Err(e)
                    },
                    Ok(doc) => match parse_status(&doc) {
                        Err(e) => {
                            self.state = SessionState::Closed;
                            Err(e)
                        },
                        Ok(st) => {
                            self.state = SessionState::StatusReceived;
                            Ok(st)
                        },
                    },
                }
            },
            _ => {
                self.state = SessionState::Closed;
                Err(ProtocolError::WrongState)
            },
        }
    }

    /// The bytes opening the ping phase: the framed ping packet carrying
    /// this session's payload.
    pub fn ping_request(&mut self) -> (r: Result<Vec<u8>, ProtocolError>)
        ensures
            final(self).host == old(self).host,
            final(self).port == old(self).port,
            final(self).ping_payload == old(self).ping_payload,
            match r {
                Ok(v) => old(self).state == SessionState::StatusReceived && final(self).state
                    == SessionState::Pinged && v@ == spec_frame(
                    1,
                    spec_be64_bytes(old(self).ping_payload),
                ),
                Err(e) => old(self).state != SessionState::StatusReceived && final(self).state
                    == SessionState::Closed && e == ProtocolError::WrongState,
            },
    {
        match self.state {
            SessionState::StatusReceived => {
                self.state = SessionState::Pinged;
                Ok(build_ping(self.ping_payload))
            },
            _ => {
                self.state = SessionState::Closed;
                Err(ProtocolError::WrongState)
            },
        }
    }

    /// The pong packet arrived: `Ok(true)` when the server echoed the ping
    /// payload byte for byte, `Ok(false)` when it answered with other bytes
    /// — the status already obtained stands either way — and an error for a
    /// wrong packet id or a wrong phase. The session closes in every case.
    pub fn on_pong_packet(&mut self, id: u32, payload: &Vec<u8>) -> (r: Result<
        bool,
        ProtocolError,
    >)
        ensures
            final(self).host == old(self).host,
            final(self).port == old(self).port,
            final(self).ping_payload == old(self).ping_payload,
            final(self).state == SessionState::Closed,
            match r {
                Ok(b) => old(self).state == SessionState::Pinged && id == 1 && (b <==> payload@
                    == spec_be64_bytes(old(self).ping_payload)),
                Err(e) => (old(self).state != SessionState::Pinged && e
                    == ProtocolError::WrongState) || (old(self).state == SessionState::Pinged && id
                    != 1 && e == (ProtocolError::UnexpectedPacket { expected: 1, found: id })),
            },
    {
        match self.state {
            SessionState::Pinged => {
                self.state = SessionState::Closed;
                if id != 1 {
                    return Err(ProtocolError::UnexpectedPacket { expected: 1, found: id });
                }
                let mut expected: Vec<u8> = Vec::new();
                push_be64(&mut expected, self.ping_payload);
                proof {
                    assert(expected@ =~= spec_be64_bytes(self.ping_payload));
                }
                Ok(bytes_eq(payload, &expected))
            },
            _ => {
                self.state = SessionState::Closed;
                Err(ProtocolError::WrongState)
            },
        }
    }
}

} // verus!
