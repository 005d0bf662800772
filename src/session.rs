use vstd::prelude::*;
use crate::frame::{frame_step, lemma_fragmented_delivery, lemma_frame_bounds, FrameDecoder, FrameError, FrameStep};
use crate::packet::{frame_of, parse_packet, PACKET_MAX_SIZE, spec_parse_packet, ConnectionState, InboundMsg, PacketError, ServerboundPacket};

verus! {

/// What the responder owes the client after one packet.
#[derive(Debug, Clone, Copy, PartialEq, Eq, Structural)]
pub enum Reply {
    /// The maintenance status, for the protocol version the client announced.
    Status { protocol_version: i32 },
    /// The ping payload, echoed.
    Pong { payload: i64 },
    /// The maintenance disconnect; the connection closes after it.
    Disconnect,
}

/// Why a responder connection is closed.
#[derive(Debug, Clone, Copy, PartialEq, Eq, Structural)]
pub enum SessionError {
    Frame(FrameError),
    Packet(PacketError),
    /// A handshake asked for a state other than status (1) or login (2).
    InvalidNextState(i32),
    /// A status request came before any handshake announced a version.
    NoProtocolVersion,
}

/// The state of one responder connection.
pub struct SessionModel {
    pub state: ConnectionState,
    pub protocol_version: Option<i32>,
    pub buffered: Seq<u8>,
}

/// The state after one packet, and the reply it calls for.
pub open spec fn step(
    state: ConnectionState,
    protocol_version: Option<i32>,
    m: InboundMsg,
) -> Result<(Option<Reply>, ConnectionState, Option<i32>), SessionError> {
    match m {
        InboundMsg::Handshake { protocol_version: v, next_state, .. } => if next_state == 1 {
            Ok((None, ConnectionState::Status, Some(v)))
        } else if next_state == 2 {
            Ok((None, ConnectionState::Login, Some(v)))
        } else {
            Err(SessionError::InvalidNextState(next_state))
        },
        InboundMsg::StatusRequest => match protocol_version {
            Some(v) => Ok((Some(Reply::Status { protocol_version: v }), state, protocol_version)),
            None => Err(SessionError::NoProtocolVersion),
        },
        InboundMsg::PingRequest { payload } => Ok((Some(Reply::Pong { payload }), state, protocol_version)),
        InboundMsg::LoginStart { .. } => Ok((Some(Reply::Disconnect), state, protocol_version)),
    }
}

/// What handling the buffered bytes of a session gives: the replies, the
/// session after them, the error that ended it if any, and whether the
/// connection is to be closed.
pub struct Drained {
    pub replies: Seq<Reply>,
    pub session: SessionModel,
    pub error: Option<SessionError>,
    pub close: bool,
}

pub open spec fn with_buffer(s: SessionModel, b: Seq<u8>) -> SessionModel {
    SessionModel { state: s.state, protocol_version: s.protocol_version, buffered: b }
}

pub open spec fn stop(s: SessionModel, error: Option<SessionError>, close: bool) -> Drained {
    Drained { replies: Seq::empty(), session: s, error, close }
}

pub open spec fn prepend(r: Option<Reply>, d: Drained) -> Drained {
    match r {
        Some(x) => Drained { replies: seq![x] + d.replies, ..d },
        None => d,
    }
}

/// Handles every whole frame at the front of the buffer, in order, until
/// more bytes are needed, an error closes the connection, or the client is
/// disconnected.
#[verifier::opaque]
pub open spec fn drain(s: SessionModel) -> Drained
    decreases s.buffered.len(),
{
    match frame_step(s.buffered) {
        FrameStep::Wait => stop(s, None, false),
        FrameStep::Malformed => stop(s, Some(SessionError::Frame(FrameError::BadLength)), true),
        FrameStep::Frame { header, len } => {
            let payload = s.buffered.subrange(header as int, (header + len) as int);
            let rest = s.buffered.skip((header + len) as int);
            if header == 0 {
                // a length header takes at least one byte
                stop(s, Some(SessionError::Frame(FrameError::BadLength)), true)
            } else {
                match spec_parse_packet(payload, s.state) {
                    Err(e) => stop(with_buffer(s, rest), Some(SessionError::Packet(e)), true),
                    Ok(m) => match step(s.state, s.protocol_version, m) {
                        Err(e) => stop(with_buffer(s, rest), Some(e), true),
                        Ok((reply, st, v)) => {
                            let next = SessionModel { state: st, protocol_version: v, buffered: rest };
                            if reply == Some(Reply::Disconnect) {
                                prepend(reply, stop(next, None, true))
                            } else {
                                prepend(reply, drain(next))
                            }
                        },
                    },
                }
            }
        },
    }
}

pub open spec fn prepend_all(rs: Seq<Reply>, d: Drained) -> Drained {
    Drained { replies: rs + d.replies, ..d }
}

/// The replies a batch of bytes called for, and how the connection goes on.
pub struct Received {
    pub replies: Vec<Reply>,
    pub close: bool,
    pub error: Option<SessionError>,
}

/// One connection answered by the proxy itself.
pub struct Responder {
    state: ConnectionState,
    protocol_version: Option<i32>,
    decoder: FrameDecoder,
}

impl View for Responder {
    type V = SessionModel;

    closed spec fn view(&self) -> SessionModel {
        SessionModel { state: self.state, protocol_version: self.protocol_version, buffered: self.decoder@ }
    }
}

impl Responder {
    /// A fresh connection: handshaking, no version, nothing buffered.
    pub fn new() -> (r: Responder)
        ensures
            r@.state == ConnectionState::Handshaking,
            r@.protocol_version is None,
            r@.buffered == Seq::<u8>::empty(),
    {
        Responder { state: ConnectionState::Handshaking, protocol_version: None, decoder: FrameDecoder::new() }
    }

    pub fn connection_state(&self) -> (r: ConnectionState)
        ensures
            r == self@.state,
    {
        self.state
    }

    /// The bytes received and not yet handled.
    pub fn buffered(&self) -> (r: &[u8])
        ensures
            r@ == self@.buffered,
    {
        self.decoder.buffered()
    }

    pub fn protocol_version(&self) -> (r: Option<i32>)
        ensures
            r == self@.protocol_version,
    {
        self.protocol_version
    }

    /// Applies one packet to the connection's state and says what to answer.
    pub fn handle_packet(&mut self, packet: ServerboundPacket) -> (r: Result<Option<Reply>, SessionError>)
        ensures
            final(self)@.buffered == old(self)@.buffered,
            match step(old(self)@.state, old(self)@.protocol_version, packet@) {
                Ok((reply, st, v)) => r == Ok::<Option<Reply>, SessionError>(reply)
                    && final(self)@.state == st && final(self)@.protocol_version == v,
                Err(e) => r == Err::<Option<Reply>, SessionError>(e) && final(self)@ == old(self)@,
            },
    {
        match packet {
            ServerboundPacket::Handshake { protocol_version, next_state, .. } => {
                if next_state == 1 {
                    self.state = ConnectionState::Status;
                } else if next_state == 2 {
                    self.state = ConnectionState::Login;
                } else {
                    return Err(SessionError::InvalidNextState(next_state));
                }
                self.protocol_version = Some(protocol_version);
                Ok(None)
            },
            ServerboundPacket::StatusRequest => match self.protocol_version {
                Some(v) => Ok(Some(Reply::Status { protocol_version: v })),
                None => Err(SessionError::NoProtocolVersion),
            },
            ServerboundPacket::PingRequest { payload } => Ok(Some(Reply::Pong { payload })),
            ServerboundPacket::LoginStart { .. } => Ok(Some(Reply::Disconnect)),
        }
    }

    /// Handles the frame at the front of the buffer, if there is a whole one.
    fn advance(&mut self) -> (r: Advance)
        ensures
            match r {
                Advance::Waiting => drain(old(self)@) == stop(final(self)@, None, false),
                Advance::Stopped { reply, error } => drain(old(self)@) == prepend(reply, stop(final(self)@, error, true)),
                Advance::Continued { reply } => drain(old(self)@) == prepend(reply, drain(final(self)@))
                    && final(self)@.buffered.len() < old(self)@.buffered.len(),
            },
    {
        proof {
            lemma_frame_bounds(self@.buffered);
            reveal(drain);
        }
        match self.decoder.next_frame() {
            Ok(None) => Advance::Waiting,
            Err(e) => Advance::Stopped { reply: None, error: Some(SessionError::Frame(e)) },
            Ok(Some(payload)) => match parse_packet(payload.as_slice(), self.state) {
                Err(e) => Advance::Stopped { reply: None, error: Some(SessionError::Packet(e)) },
                Ok(packet) => match self.handle_packet(packet) {
                    Err(e) => Advance::Stopped { reply: None, error: Some(e) },
                    Ok(Some(Reply::Disconnect)) => Advance::Stopped { reply: Some(Reply::Disconnect), error: None },
                    Ok(reply) => Advance::Continued { reply },
                },
            },
        }
    }

    /// Takes bytes read from the connection and handles every packet they
    /// complete, in order.
    pub fn receive(&mut self, data: &[u8]) -> (r: Received)
        requires
            old(self)@.buffered.len() + data@.len() <= isize::MAX,
        ensures
            ({
                let d = drain(with_buffer(old(self)@, old(self)@.buffered + data@));
                &&& r.replies@ == d.replies
                &&& r.close == d.close
                &&& r.error == d.error
                &&& final(self)@ == d.session
            }),
    {
        self.decoder.extend(data);
        let ghost start = self@;
        assert(start == with_buffer(old(self)@, old(self)@.buffered + data@));
        let mut replies: Vec<Reply> = Vec::new();
        assert(replies@ + drain(self@).replies =~= drain(self@).replies);
        loop
            invariant
                start == with_buffer(old(self)@, old(self)@.buffered + data@),
                drain(start) == prepend_all(replies@, drain(self@)),
            decreases self@.buffered.len(),
        {
            let ghost before = replies@;
            let ghost cur = self@;
            match self.advance() {
                Advance::Waiting => {
                    assert(replies@ + Seq::<Reply>::empty() =~= replies@);
                    self.decoder.restore_capacity();
                    return Received { replies, close: false, error: None };
                },
                Advance::Stopped { reply, error } => {
                    if let Some(x) = reply {
                        replies.push(x);
                        assert(replies@ + Seq::<Reply>::empty() =~= before + (seq![x] + Seq::<Reply>::empty()));
                    } else {
                        assert(replies@ + Seq::<Reply>::empty() =~= replies@);
                    }
                    return Received { replies, close: true, error };
                },
                Advance::Continued { reply } => {
                    if let Some(x) = reply {
                        replies.push(x);
                        assert(replies@ + drain(self@).replies =~= before + (seq![x] + drain(self@).replies));
                    }
                },
            }
        }
    }
}

/// The outcome of handling the frame at the front of the buffer.
enum Advance {
    Waiting,
    Stopped { reply: Option<Reply>, error: Option<SessionError> },
    Continued { reply: Option<Reply> },
}

/// While only part of a frame has arrived, a session answers nothing and
/// keeps every byte for later, whatever its state.
pub proof fn lemma_partial_frame_waits(s: SessionModel, payload: Seq<u8>, k: int)
    requires
        payload.len() <= PACKET_MAX_SIZE,
        0 <= k < frame_of(payload).len(),
    ensures
        drain(with_buffer(s, frame_of(payload).take(k))) == stop(with_buffer(s, frame_of(payload).take(k)), None, false),
{
    lemma_fragmented_delivery(payload);
    assert(frame_step(frame_of(payload).take(k)) is Wait);
    reveal(drain);
}

/// The handshake alone moves a connection on: next state 1 to status, 2 to
/// login; any other value is refused, which closes the connection.
pub proof fn lemma_state_transitions(
    state: ConnectionState,
    protocol_version: Option<i32>,
    version: i32,
    address: Seq<char>,
    port: u16,
    next_state: i32,
)
    ensures
        ({
            let m = InboundMsg::Handshake {
                protocol_version: version,
                server_address: address,
                server_port: port,
                next_state,
            };
            &&& next_state == 1 ==> step(state, protocol_version, m) == Ok::<(Option<Reply>, ConnectionState, Option<i32>), SessionError>(
                (None, ConnectionState::Status, Some(version)),
            )
            &&& next_state == 2 ==> step(state, protocol_version, m) == Ok::<(Option<Reply>, ConnectionState, Option<i32>), SessionError>(
                (None, ConnectionState::Login, Some(version)),
            )
            &&& next_state != 1 && next_state != 2 ==> step(state, protocol_version, m) == Err::<(Option<Reply>, ConnectionState, Option<i32>), SessionError>(
                SessionError::InvalidNextState(next_state),
            )
        }),
{
}

} // verus!
