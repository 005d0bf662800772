use vstd::prelude::*;
use vstd::string::{StrSliceExecFns, StringExecFns};
use base64::Engine;
use crate::packet::{be_bytes, frame_of, packet_body, text_field, write_packet, ClientboundPacket, PACKET_MAX_SIZE};
use crate::varint::varint_bytes;
use crate::session::Reply;

verus! {

#[verifier::external_type_specification]
#[verifier::external_body]
pub struct ExJsonError(serde_json::Error);

/// Label of the server version shown in the status screen.
pub const VERSION_NAME: &'static str = "1.7.10";
/// Text shown in the status screen and in the disconnect message.
pub const MAINTENANCE_TEXT: &'static str = "Server is currently in maintenance";
/// Reason sent to a client that tries to log in.
pub const DISCONNECT_REASON: &'static str = "{\"text\": \"Server is currently in maintenance\"}";
/// Start of the favicon's data URI.
pub const FAVICON_PREFIX: &'static str = "data:image/png;base64,";
/// Characters per line of the favicon's base64 text.
pub const FAVICON_LINE_WIDTH: usize = 76;

/// Why a reply could not be built.
#[derive(Debug, Clone, Copy, PartialEq, Eq, Structural)]
pub enum ReplyError {
    /// A text could not be written as JSON.
    Json,
    /// The packet would exceed the largest packet size.
    TooLarge,
}

/// The standard, padded base64 text of some bytes.
pub uninterp spec fn base64_standard(b: Seq<u8>) -> Seq<char>;

/// The JSON string literal, quoted and escaped, that stands for a text.
pub uninterp spec fn json_string_literal(s: Seq<char>) -> Seq<char>;

/// Relies on base64's `STANDARD` engine `encode`: the padded base64 text of
/// the bytes, four characters for each started group of three bytes.
#[verifier::external_body]
fn base64_encode(b: &[u8]) -> (r: String)
    ensures
        r@ == base64_standard(b@),
        r@.len() == 4 * ((b@.len() + 2) / 3),
{
    base64::engine::general_purpose::STANDARD.encode(b)
}

/// Relies on `serde_json::to_string` on a `str`: the text as a JSON string
/// literal, which depends on the characters alone. A `str` is written into a
/// `Vec`, which cannot fail.
#[verifier::external_body]
fn json_quote(s: &str) -> (r: Result<String, serde_json::Error>)
    ensures
        r is Ok,
        r matches Ok(t) ==> t@ == json_string_literal(s@),
{
    serde_json::to_string(s)
}

/// Decimal digits of a value, with a leading minus sign when negative.
pub open spec fn decimal(n: int) -> Seq<char> {
    if n < 0 {
        seq!['-'] + digits((-n) as nat)
    } else {
        digits(n as nat)
    }
}

pub open spec fn digits(n: nat) -> Seq<char>
    decreases n,
{
    if n < 10 {
        seq![digit(n)]
    } else {
        digits(n / 10).push(digit(n % 10))
    }
}

pub open spec fn digit(d: nat) -> char {
    if d == 0 { '0' } else if d == 1 { '1' } else if d == 2 { '2' } else if d == 3 { '3' }
    else if d == 4 { '4' } else if d == 5 { '5' } else if d == 6 { '6' } else if d == 7 { '7' }
    else if d == 8 { '8' } else { '9' }
}

/// Relies on `i32`'s `to_string`: its decimal digits.
#[verifier::external_body]
pub(crate) fn decimal_text(n: i32) -> (r: String)
    ensures
        r@ == decimal(n as int),
{
    n.to_string()
}

/// `s` cut into lines of `w` characters joined by newlines; the last line
/// may be shorter.
pub open spec fn wrapped(s: Seq<char>, w: nat) -> Seq<char>
    decreases s.len(),
{
    if w == 0 || s.len() <= w {
        s
    } else {
        s.take(w as int) + seq!['\n'] + wrapped(s.skip(w as int), w)
    }
}

/// Cuts a text into lines of `width` characters.
pub fn wrap_lines(s: &str, width: usize) -> (r: String)
    ensures
        r@ == wrapped(s@, width as nat),
{
    if width == 0 {
        return String::from_str(s);
    }
    let n = s.unicode_len();
    let mut out = String::new();
    let mut pos: usize = 0;
    proof {
        reveal_strlit("\n");
        assert(s@.skip(0) =~= s@);
    }
    loop
        invariant
            width > 0,
            n == s@.len(),
            pos <= n,
            out@ + wrapped(s@.skip(pos as int), width as nat) == wrapped(s@, width as nat),
        decreases n - pos,
    {
        let rest = s.substring_char(pos, n);
        if n - pos <= width {
            out.append(rest);
            return out;
        }
        let line = s.substring_char(pos, pos + width);
        let ghost before = out@;
        out.append(line);
        out.append("\n");
        proof {
            reveal_strlit("\n");
            let t = s@.skip(pos as int);
            assert(t.take(width as int) =~= line@);
            assert(t.skip(width as int) =~= s@.skip(pos + width));
            assert(out@ =~= before + line@ + seq!['\n']);
            assert(out@ + wrapped(s@.skip(pos + width), width as nat) =~= before + wrapped(t, width as nat));
        }
        pos = pos + width;
    }
}

/// The favicon: a PNG data URI whose base64 text is cut into lines.
pub fn favicon_uri(icon: &[u8]) -> (r: String)
    ensures
        r@ == FAVICON_PREFIX@ + wrapped(base64_standard(icon@), FAVICON_LINE_WIDTH as nat),
{
    let encoded = base64_encode(icon);
    let lines = wrap_lines(encoded.as_str(), FAVICON_LINE_WIDTH);
    let mut out = String::from_str(FAVICON_PREFIX);
    out.append(lines.as_str());
    out
}

/// The status document, given its texts already written as JSON literals.
pub open spec fn status_document(
    protocol_version: i32,
    name_json: Seq<char>,
    text_json: Seq<char>,
    favicon_json: Seq<char>,
) -> Seq<char> {
    "{\"version\":{\"name\":"@ + name_json + ",\"protocol\":"@ + decimal(protocol_version as int)
        + "},\"description\":{\"text\":"@ + text_json + "},\"favicon\":"@ + favicon_json + "}"@
}

/// Writes the status document from its texts already written as JSON literals.
pub fn status_document_text(
    protocol_version: i32,
    name_json: &str,
    text_json: &str,
    favicon_json: &str,
) -> (r: String)
    ensures
        r@ == status_document(protocol_version, name_json@, text_json@, favicon_json@),
{
    let version = decimal_text(protocol_version);
    let mut out = String::from_str("{\"version\":{\"name\":");
    out.append(name_json);
    out.append(",\"protocol\":");
    out.append(version.as_str());
    out.append("},\"description\":{\"text\":");
    out.append(text_json);
    out.append("},\"favicon\":");
    out.append(favicon_json);
    out.append("}");
    out
}

/// The JSON status answer for a protocol version: fixed version label and
/// maintenance text, no players, and the icon as favicon.
pub fn status_json(protocol_version: i32, icon: &[u8]) -> (r: Result<String, ReplyError>)
    ensures
        r is Ok,
        r matches Ok(t) ==> t@ == status_document(
            protocol_version,
            json_string_literal(VERSION_NAME@),
            json_string_literal(MAINTENANCE_TEXT@),
            json_string_literal(FAVICON_PREFIX@ + wrapped(base64_standard(icon@), FAVICON_LINE_WIDTH as nat)),
        ),
{
    let favicon = favicon_uri(icon);
    let name_json = match json_quote(VERSION_NAME) {
        Ok(t) => t,
        Err(_) => return Err(ReplyError::Json),
    };
    let text_json = match json_quote(MAINTENANCE_TEXT) {
        Ok(t) => t,
        Err(_) => return Err(ReplyError::Json),
    };
    let favicon_json = match json_quote(favicon.as_str()) {
        Ok(t) => t,
        Err(_) => return Err(ReplyError::Json),
    };
    Ok(status_document_text(protocol_version, name_json.as_str(), text_json.as_str(), favicon_json.as_str()))
}

/// The status document that `status_json` writes when every text could be
/// written as JSON.
pub open spec fn status_text(protocol_version: i32, icon: Seq<u8>) -> Seq<char> {
    status_document(
        protocol_version,
        json_string_literal(VERSION_NAME@),
        json_string_literal(MAINTENANCE_TEXT@),
        json_string_literal(FAVICON_PREFIX@ + wrapped(base64_standard(icon), FAVICON_LINE_WIDTH as nat)),
    )
}

/// Packet id and payload of the packet that answers a reply.
pub open spec fn reply_body(reply: Reply, icon: Seq<u8>) -> Seq<u8> {
    match reply {
        Reply::Status { protocol_version } => varint_bytes(0) + text_field(status_text(protocol_version, icon)),
        Reply::Pong { payload } => varint_bytes(1) + be_bytes((payload as u64) as nat, 8),
        Reply::Disconnect => varint_bytes(0) + text_field(DISCONNECT_REASON@),
    }
}

/// The packet that answers a reply.
pub fn reply_packet(reply: Reply, icon: &[u8]) -> (r: Result<ClientboundPacket, ReplyError>)
    ensures
        r is Ok,
        r matches Ok(p) ==> packet_body(p) == reply_body(reply, icon@),
{
    match reply {
        Reply::Status { protocol_version } => match status_json(protocol_version, icon) {
            Ok(json_response) => Ok(ClientboundPacket::StatusResponse { json_response }),
            Err(e) => Err(e),
        },
        Reply::Pong { payload } => Ok(ClientboundPacket::PingResponse { payload }),
        Reply::Disconnect => Ok(ClientboundPacket::DisconnectResponse { reason: String::from_str(DISCONNECT_REASON) }),
    }
}

/// The frame that answers a reply.
pub fn encode_reply(reply: Reply, icon: &[u8]) -> (r: Result<Vec<u8>, ReplyError>)
    ensures
        r is Ok <==> reply_body(reply, icon@).len() <= PACKET_MAX_SIZE,
        r matches Ok(f) ==> f@ == frame_of(reply_body(reply, icon@)),
        r matches Err(e) ==> e == ReplyError::TooLarge,
{
    let packet = match reply_packet(reply, icon) {
        Ok(p) => p,
        Err(e) => return Err(e),
    };
    match write_packet(packet) {
        Some(f) => Ok(f),
        None => Err(ReplyError::TooLarge),
    }
}

} // verus!
