use vstd::prelude::*;
use vstd::utf8::encode_utf8;
use crate::varint::{decode_varint, parse_varint, varint_bytes, write_varint, VarIntError};

verus! {

/// The protocol phase of one connection.
#[derive(Debug, Clone, Copy, PartialEq, Eq, Structural)]
pub enum ConnectionState {
    Handshaking,
    Status,
    Login,
    Play,
}

/// A packet sent by a client, as read from one frame.
pub enum ServerboundPacket {
    Handshake { protocol_version: i32, server_address: String, server_port: u16, next_state: i32 },
    StatusRequest,
    PingRequest { payload: i64 },
    LoginStart { username: String },
}

/// The mathematical value of a client packet: text fields as characters.
pub enum InboundMsg {
    Handshake { protocol_version: i32, server_address: Seq<char>, server_port: u16, next_state: i32 },
    StatusRequest,
    PingRequest { payload: i64 },
    LoginStart { username: Seq<char> },
}

impl View for ServerboundPacket {
    type V = InboundMsg;

    open spec fn view(&self) -> InboundMsg {
        match self {
            ServerboundPacket::Handshake { protocol_version, server_address, server_port, next_state } =>
                InboundMsg::Handshake {
                    protocol_version: *protocol_version,
                    server_address: server_address@,
                    server_port: *server_port,
                    next_state: *next_state,
                },
            ServerboundPacket::StatusRequest => InboundMsg::StatusRequest,
            ServerboundPacket::PingRequest { payload } => InboundMsg::PingRequest { payload: *payload },
            ServerboundPacket::LoginStart { username } => InboundMsg::LoginStart { username: username@ },
        }
    }
}

/// Why the payload of a frame is not a packet this side understands.
#[derive(Debug, Clone, Copy, PartialEq, Eq, Structural)]
pub enum PacketError {
    /// A field runs past the end of the frame.
    Truncated,
    /// A variable-length integer announced more than five groups.
    Overflow,
    /// The packet id has no meaning in the current state.
    Unsupported { state: ConnectionState, id: i32 },
    /// The packet was read but bytes of the frame were left over.
    TrailingBytes,
}

/// The text that a lossy UTF-8 conversion makes of some bytes.
pub uninterp spec fn lossy_text(b: Seq<u8>) -> Seq<char>;

/// Relies on `String::from_utf8_lossy`: the text depends on the bytes alone,
/// and invalid sequences are replaced, never rejected.
#[verifier::external_body]
fn text_from_utf8_lossy(b: &[u8]) -> (r: String)
    ensures
        r@ == lossy_text(b@),
{
    String::from_utf8_lossy(b).into_owned()
}

/// Unsigned big-endian value of some bytes.
pub open spec fn be_nat(s: Seq<u8>) -> nat
    decreases s.len(),
{
    if s.len() == 0 {
        0
    } else {
        be_nat(s.drop_last()) * 256 + s.last() as nat
    }
}

/// A variable-length integer at `pos`, and the position after it.
pub open spec fn spec_read_varint(s: Seq<u8>, pos: nat) -> Result<(i32, nat), PacketError> {
    match decode_varint(s.subrange(pos as int, s.len() as int)) {
        Ok((v, n)) => Ok((v, pos + n)),
        Err(VarIntError::Incomplete) => Err(PacketError::Truncated),
        Err(VarIntError::Overflow) => Err(PacketError::Overflow),
    }
}

/// A text field: its byte length as a variable-length integer, then the bytes.
pub open spec fn spec_read_text(s: Seq<u8>, pos: nat) -> Result<(Seq<char>, nat), PacketError> {
    match spec_read_varint(s, pos) {
        Ok((n, p)) => if n < 0 || p + n > s.len() {
            Err(PacketError::Truncated)
        } else {
            Ok((lossy_text(s.subrange(p as int, p + n)), (p + n) as nat))
        },
        Err(e) => Err(e),
    }
}

/// A big-endian 16-bit unsigned integer at `pos`.
pub open spec fn spec_read_u16(s: Seq<u8>, pos: nat) -> Result<(u16, nat), PacketError> {
    if pos + 2 > s.len() {
        Err(PacketError::Truncated)
    } else {
        Ok((be_nat(s.subrange(pos as int, (pos + 2) as int)) as u16, pos + 2))
    }
}

/// A big-endian 64-bit signed integer at `pos`.
pub open spec fn spec_read_i64(s: Seq<u8>, pos: nat) -> Result<(i64, nat), PacketError> {
    if pos + 8 > s.len() {
        Err(PacketError::Truncated)
    } else {
        Ok(((be_nat(s.subrange(pos as int, (pos + 8) as int)) as u64) as i64, pos + 8))
    }
}

/// The fields of a handshake, read from `pos` on.
pub open spec fn spec_read_handshake(s: Seq<u8>, pos: nat) -> Result<(InboundMsg, nat), PacketError> {
    match spec_read_varint(s, pos) {
        Err(e) => Err(e),
        Ok((protocol_version, at_address)) => match spec_read_text(s, at_address) {
            Err(e) => Err(e),
            Ok((server_address, at_port)) => match spec_read_u16(s, at_port) {
                Err(e) => Err(e),
                Ok((server_port, at_state)) => match spec_read_varint(s, at_state) {
                    Err(e) => Err(e),
                    Ok((next_state, end_pos)) => Ok((
                        InboundMsg::Handshake { protocol_version, server_address, server_port, next_state },
                        end_pos,
                    )),
                },
            },
        },
    }
}

/// The packet that a frame's payload starts with in `state`, and where it ends.
pub open spec fn spec_read_packet(s: Seq<u8>, state: ConnectionState) -> Result<(InboundMsg, nat), PacketError> {
    match spec_read_varint(s, 0) {
        Err(e) => Err(e),
        Ok((id, p)) => match (state, id) {
            (ConnectionState::Handshaking, 0) => spec_read_handshake(s, p),
            (ConnectionState::Status, 0) => Ok((InboundMsg::StatusRequest, p)),
            (ConnectionState::Status, 1) => match spec_read_i64(s, p) {
                Ok((payload, q)) => Ok((InboundMsg::PingRequest { payload }, q)),
                Err(e) => Err(e),
            },
            (ConnectionState::Login, 0) => match spec_read_text(s, p) {
                Ok((username, q)) => Ok((InboundMsg::LoginStart { username }, q)),
                Err(e) => Err(e),
            },
            _ => Err(PacketError::Unsupported { state, id }),
        },
    }
}

/// The packet that a whole frame payload holds in `state`.
pub open spec fn spec_parse_packet(s: Seq<u8>, state: ConnectionState) -> Result<InboundMsg, PacketError> {
    match spec_read_packet(s, state) {
        Ok((m, end)) => if end == s.len() {
            Ok(m)
        } else {
            Err(PacketError::TrailingBytes)
        },
        Err(e) => Err(e),
    }
}

fn read_varint(s: &[u8], pos: usize) -> (r: Result<(i32, usize), PacketError>)
    requires
        pos <= s@.len(),
    ensures
        match spec_read_varint(s@, pos as nat) {
            Ok((v, p)) => r == Ok::<(i32, usize), PacketError>((v, p as usize)) && p <= s@.len(),
            Err(e) => r == Err::<(i32, usize), PacketError>(e),
        },
{
    let rest = &s[pos..s.len()];
    match parse_varint(rest) {
        Ok((v, n)) => {
            proof {
                lemma_decode_len(rest@);
            }
            Ok((v, pos + n))
        },
        Err(VarIntError::Incomplete) => Err(PacketError::Truncated),
        Err(VarIntError::Overflow) => Err(PacketError::Overflow),
    }
}

/// 256 to the power `k`.
pub open spec fn pow256(k: nat) -> nat
    decreases k,
{
    if k == 0 {
        1
    } else {
        256 * pow256((k - 1) as nat)
    }
}

proof fn lemma_be_nat_bound(s: Seq<u8>)
    ensures
        be_nat(s) < pow256(s.len()),
    decreases s.len(),
{
    if s.len() > 0 {
        lemma_be_nat_bound(s.drop_last());
        let x = be_nat(s.drop_last());
        let p = pow256((s.len() - 1) as nat);
        let b = s.last() as nat;
        assert(x * 256 + b < 256 * p) by (nonlinear_arith)
            requires x < p, b < 256;
    }
}

/// The big-endian value of the `n` bytes at `pos`.
fn read_be(s: &[u8], pos: usize, n: usize) -> (r: u64)
    requires
        n <= 8,
        pos + n <= s@.len(),
    ensures
        r as nat == be_nat(s@.subrange(pos as int, pos + n)),
{
    let mut acc: u64 = 0;
    let mut i: usize = 0;
    let len = s.len();
    assert(s@.subrange(pos as int, pos as int) =~= Seq::<u8>::empty());
    while i < n
        invariant
            i <= n,
            n <= 8,
            pos + n <= s@.len(),
            len == s@.len(),
            acc as nat == be_nat(s@.subrange(pos as int, pos + i)),
        decreases n - i,
    {
        let b = s[pos + i];
        proof {
            lemma_be_nat_bound(s@.subrange(pos as int, pos + i));
            assert(pow256(7) == 72057594037927936) by {
                reveal_with_fuel(pow256, 8);
            }
            let t = s@.subrange(pos as int, pos + i + 1);
            assert(t.drop_last() =~= s@.subrange(pos as int, pos + i));
            assert(pow256(i as nat) <= pow256(7)) by {
                reveal_with_fuel(pow256, 8);
                assert(i == 0 || i == 1 || i == 2 || i == 3 || i == 4 || i == 5 || i == 6 || i == 7);
            }
            assert(acc < 72057594037927936);
        }
        acc = acc * 256 + b as u64;
        i = i + 1;
    }
    acc
}

fn read_u16(s: &[u8], pos: usize) -> (r: Result<(u16, usize), PacketError>)
    requires
        pos <= s@.len(),
    ensures
        match spec_read_u16(s@, pos as nat) {
            Ok((v, p)) => r == Ok::<(u16, usize), PacketError>((v, p as usize)) && p <= s@.len(),
            Err(e) => r == Err::<(u16, usize), PacketError>(e),
        },
{
    if s.len() - pos < 2 {
        return Err(PacketError::Truncated);
    }
    let v = read_be(s, pos, 2);
    Ok((v as u16, pos + 2))
}

fn read_i64(s: &[u8], pos: usize) -> (r: Result<(i64, usize), PacketError>)
    requires
        pos <= s@.len(),
    ensures
        match spec_read_i64(s@, pos as nat) {
            Ok((v, p)) => r == Ok::<(i64, usize), PacketError>((v, p as usize)) && p <= s@.len(),
            Err(e) => r == Err::<(i64, usize), PacketError>(e),
        },
{
    if s.len() - pos < 8 {
        return Err(PacketError::Truncated);
    }
    let v = read_be(s, pos, 8);
    Ok((v as i64, pos + 8))
}

fn read_text(s: &[u8], pos: usize) -> (r: Result<(String, usize), PacketError>)
    requires
        pos <= s@.len(),
    ensures
        match spec_read_text(s@, pos as nat) {
            Ok((t, p)) => r matches Ok((text, q)) && text@ == t && q == p && p <= s@.len(),
            Err(e) => r matches Err(f) && f == e,
        },
{
    let (n, p) = match read_varint(s, pos) {
        Ok(v) => v,
        Err(e) => return Err(e),
    };
    if n < 0 || s.len() - p < n as usize {
        return Err(PacketError::Truncated);
    }
    let end = p + n as usize;
    let text = text_from_utf8_lossy(&s[p..end]);
    Ok((text, end))
}

fn read_handshake(s: &[u8], pos: usize) -> (r: Result<(ServerboundPacket, usize), PacketError>)
    requires
        pos <= s@.len(),
    ensures
        match spec_read_handshake(s@, pos as nat) {
            Ok((m, p)) => r matches Ok((pk, q)) && pk@ == m && q == p,
            Err(e) => r matches Err(f) && f == e,
        },
{
    let len = s.len();
    let (protocol_version, at_address) = match read_varint(s, pos) {
        Ok(v) => v,
        Err(e) => return Err(e),
    };
    let (server_address, at_port) = match read_text(s, at_address) {
        Ok(v) => v,
        Err(e) => return Err(e),
    };
    let (server_port, at_state) = match read_u16(s, at_port) {
        Ok(v) => v,
        Err(e) => return Err(e),
    };
    let (next_state, end_pos) = match read_varint(s, at_state) {
        Ok(v) => v,
        Err(e) => return Err(e),
    };
    Ok((ServerboundPacket::Handshake { protocol_version, server_address, server_port, next_state }, end_pos))
}

/// Reads the packet that a frame's payload holds in `state`. The whole
/// payload must be used: bytes left over are an error.
pub fn parse_packet(input: &[u8], connection_state: ConnectionState) -> (r: Result<ServerboundPacket, PacketError>)
    ensures
        match spec_parse_packet(input@, connection_state) {
            Ok(m) => r matches Ok(pk) && pk@ == m,
            Err(e) => r matches Err(f) && f == e,
        },
{
    let len = input.len();
    let (id, p) = match read_varint(input, 0) {
        Ok(v) => v,
        Err(e) => return Err(e),
    };
    let (packet, end) = match connection_state {
        ConnectionState::Handshaking => {
            if id == 0 {
                match read_handshake(input, p) {
                    Ok(v) => v,
                    Err(e) => return Err(e),
                }
            } else {
                return Err(PacketError::Unsupported { state: connection_state, id });
            }
        },
        ConnectionState::Status => {
            if id == 0 {
                (ServerboundPacket::StatusRequest, p)
            } else if id == 1 {
                let (payload, q) = match read_i64(input, p) {
                    Ok(v) => v,
                    Err(e) => return Err(e),
                };
                (ServerboundPacket::PingRequest { payload }, q)
            } else {
                return Err(PacketError::Unsupported { state: connection_state, id });
            }
        },
        ConnectionState::Login => {
            if id == 0 {
                let (username, q) = match read_text(input, p) {
                    Ok(v) => v,
                    Err(e) => return Err(e),
                };
                (ServerboundPacket::LoginStart { username }, q)
            } else {
                return Err(PacketError::Unsupported { state: connection_state, id });
            }
        },
        ConnectionState::Play => {
            return Err(PacketError::Unsupported { state: connection_state, id });
        },
    };
    if end != input.len() {
        return Err(PacketError::TrailingBytes);
    }
    Ok(packet)
}

/// A packet sent to a client.
pub enum ClientboundPacket {
    PingResponse { payload: i64 },
    StatusResponse { json_response: String },
    DisconnectResponse { reason: String },
}

/// Largest packet (id and payload) that a frame may carry.
pub const PACKET_MAX_SIZE: usize = 2097151;

/// The `n` low bytes of `x`, most significant first.
pub open spec fn be_bytes(x: nat, n: nat) -> Seq<u8>
    decreases n,
{
    if n == 0 {
        Seq::empty()
    } else {
        be_bytes(x / 256, (n - 1) as nat).push((x % 256) as u8)
    }
}

/// A text field: byte length, then the UTF-8 bytes.
pub open spec fn text_field(t: Seq<char>) -> Seq<u8> {
    varint_bytes(encode_utf8(t).len() as i32) + encode_utf8(t)
}

/// Packet id and payload of an outgoing packet.
pub open spec fn packet_body(p: ClientboundPacket) -> Seq<u8> {
    match p {
        ClientboundPacket::PingResponse { payload } => varint_bytes(1) + be_bytes((payload as u64) as nat, 8),
        ClientboundPacket::StatusResponse { json_response } => varint_bytes(0) + text_field(json_response@),
        ClientboundPacket::DisconnectResponse { reason } => varint_bytes(0) + text_field(reason@),
    }
}

/// A frame: the body's length, then the body.
pub open spec fn frame_of(body: Seq<u8>) -> Seq<u8> {
    varint_bytes(body.len() as i32) + body
}

fn push_all(buf: &mut Vec<u8>, bytes: &[u8])
    ensures
        final(buf)@ == old(buf)@ + bytes@,
{
    let mut i: usize = 0;
    while i < bytes.len()
        invariant
            i <= bytes@.len(),
            buf@ == old(buf)@ + bytes@.take(i as int),
        decreases bytes@.len() - i,
    {
        buf.push(bytes[i]);
        i = i + 1;
        assert(buf@ =~= old(buf)@ + bytes@.take(i as int));
    }
    assert(bytes@.take(i as int) =~= bytes@);
}

fn push_be(x: u64, n: usize, buf: &mut Vec<u8>)
    ensures
        final(buf)@ == old(buf)@ + be_bytes(x as nat, n as nat),
    decreases n,
{
    if n > 0 {
        push_be(x / 256, n - 1, buf);
        buf.push((x % 256) as u8);
        assert(buf@ =~= old(buf)@ + be_bytes(x as nat, n as nat));
    }
}

fn push_text(t: &String, buf: &mut Vec<u8>) -> (ok: bool)
    ensures
        ok == (encode_utf8(t@).len() <= PACKET_MAX_SIZE),
        ok ==> final(buf)@ == old(buf)@ + text_field(t@),
{
    let bytes = t.as_str().as_bytes();
    if bytes.len() > PACKET_MAX_SIZE {
        return false;
    }
    write_varint(bytes.len() as i32, buf);
    push_all(buf, bytes);
    assert(buf@ =~= old(buf)@ + text_field(t@));
    true
}

/// Encodes a packet as one frame. There is none where the body would exceed
/// the largest packet size.
pub fn write_packet(packet: ClientboundPacket) -> (r: Option<Vec<u8>>)
    ensures
        packet_body(packet).len() <= PACKET_MAX_SIZE ==> (r matches Some(f) && f@ == frame_of(packet_body(packet))),
        packet_body(packet).len() > PACKET_MAX_SIZE ==> r is None,
{
    let ghost body_spec = packet_body(packet);
    let mut body: Vec<u8> = Vec::new();
    let fits = match &packet {
        ClientboundPacket::PingResponse { payload } => {
            write_varint(1, &mut body);
            push_be(*payload as u64, 8, &mut body);
            true
        },
        ClientboundPacket::StatusResponse { json_response } => {
            write_varint(0, &mut body);
            push_text(json_response, &mut body)
        },
        ClientboundPacket::DisconnectResponse { reason } => {
            write_varint(0, &mut body);
            push_text(reason, &mut body)
        },
    };
    if !fits || body.len() > PACKET_MAX_SIZE {
        return None;
    }
    let mut frame: Vec<u8> = Vec::new();
    write_varint(body.len() as i32, &mut frame);
    push_all(&mut frame, body.as_slice());
    Some(frame)
}

proof fn lemma_decode_len(s: Seq<u8>)
    ensures
        decode_varint(s) matches Ok((v, n)) ==> n <= s.len(),
{
    crate::varint::lemma_decode_groups_len(s, 0);
}

} // verus!
