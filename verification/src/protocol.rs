//! Messages of the Barrier/Deskflow protocol: their four-byte codes, the
//! length-prefixed framing, the handshake and the messages the client sends.
use vstd::prelude::*;
use vstd::utf8::*;
use vstd::slice::slice_subrange;

use crate::helper::{get_edge_coordinate, get_mouse_position, get_warp_zone_size};
use crate::text::utf8_to_string;
use crate::wire::{
    be16, be32, i16_bytes, lemma_u32_roundtrip, push_bytes, push_i16_be, push_u16_be, push_u32_be,
    read_i16_be, read_u16_be, read_u32_be, signed16, u16_bytes, u32_bytes,
};

verus! {

// Four-byte message codes, read as big-endian numbers.
/// "QINF"
pub const CODE_QINF: u32 = 0x5149_4E46;
/// "CIAK"
pub const CODE_CIAK: u32 = 0x4349_414B;
/// "LSYN"
pub const CODE_LSYN: u32 = 0x4C53_594E;
/// "CROP"
pub const CODE_CROP: u32 = 0x4352_4F50;
/// "DSOP"
pub const CODE_DSOP: u32 = 0x4453_4F50;
/// "CCLP"
pub const CODE_CCLP: u32 = 0x4343_4C50;
/// "DCLP"
pub const CODE_DCLP: u32 = 0x4443_4C50;
/// "CALV"
pub const CODE_CALV: u32 = 0x4341_4C56;
/// "DMMV"
pub const CODE_DMMV: u32 = 0x444D_4D56;
/// "CINN"
pub const CODE_CINN: u32 = 0x4349_4E4E;
/// "DMDN"
pub const CODE_DMDN: u32 = 0x444D_444E;
/// "DMUP"
pub const CODE_DMUP: u32 = 0x444D_5550;
/// "DMWM"
pub const CODE_DMWM: u32 = 0x444D_574D;
/// "COUT"
pub const CODE_COUT: u32 = 0x434F_5554;
/// "EUNK"
pub const CODE_EUNK: u32 = 0x4555_4E4B;
/// "DKDL"
pub const CODE_DKDL: u32 = 0x444B_444C;
/// "DKUP"
pub const CODE_DKUP: u32 = 0x444B_5550;
/// "DKRP"
pub const CODE_DKRP: u32 = 0x444B_5250;
/// "DINF"
pub const CODE_DINF: u32 = 0x4449_4E46;

/// Major protocol version this client speaks.
pub const PROTOCOL_MAJOR: i16 = 1;

/// Minor protocol version this client speaks.
pub const PROTOCOL_MINOR: i16 = 8;

/// The code of a message: its first four bytes as a big-endian number.
pub open spec fn code_of(msg: Seq<u8>) -> int {
    be32(msg, 0)
}

/// The codes that `message_to_code` tells apart.
#[derive(Debug, Clone, Copy, PartialEq, Eq, Structural)]
pub enum ProtocolCode {
    LSYN,
    QINF,
    CALV,
    Unspecified,
}

/// Classifies a message by its four-byte code.
pub fn message_to_code(msg: &[u8]) -> (code: ProtocolCode)
    requires
        msg@.len() >= 4,
    ensures
        code == (if code_of(msg@) == CODE_QINF {
            ProtocolCode::QINF
        } else if code_of(msg@) == CODE_LSYN {
            ProtocolCode::LSYN
        } else if code_of(msg@) == CODE_CALV {
            ProtocolCode::CALV
        } else {
            ProtocolCode::Unspecified
        }),
{
    let c: u32 = read_u32_be(msg, 0);
    if c == CODE_QINF {
        ProtocolCode::QINF
    } else if c == CODE_LSYN {
        ProtocolCode::LSYN
    } else if c == CODE_CALV {
        ProtocolCode::CALV
    } else {
        ProtocolCode::Unspecified
    }
}

/// A message from the server, with the fields the client reads from it.
#[derive(Debug, Clone, Copy, PartialEq, Eq, Structural)]
pub enum ServerMessage {
    /// QINF: the server asks for the screen information.
    QueryInfo,
    /// CIAK: the server acknowledged the screen information.
    InfoAck,
    /// LSYN, CROP, DSOP: accepted and not acted upon.
    Ignored,
    /// CCLP: the server grabbed a clipboard.
    ClipboardGrab,
    /// DCLP: a chunk of clipboard data.
    ClipboardData,
    /// CALV: keep-alive.
    KeepAlive,
    /// DMMV: absolute mouse move.
    MouseMove { x: i16, y: i16 },
    /// CINN: the cursor enters this screen.
    EnterScreen { x: i16, y: i16, sequence: u32 },
    /// DMDN: mouse button pressed.
    MouseDown { button: u8 },
    /// DMUP: mouse button released.
    MouseUp { button: u8 },
    /// DMWM: mouse wheel.
    MouseWheel { horizontal: i16, vertical: i16 },
    /// COUT: the cursor leaves this screen.
    LeaveScreen,
    /// EUNK: the server does not know this client's name.
    UnknownClient,
    /// DKDL: key pressed, with its scancode.
    KeyDown { scancode: u16 },
    /// DKUP: key released, with its scancode.
    KeyUp { scancode: u16 },
    /// DKRP: key auto-repeat (the system repeats keys itself).
    KeyRepeat,
}

/// Errors in reading a server message.
#[derive(Debug, Clone, Copy, PartialEq, Eq, Structural)]
pub enum ProtocolError {
    /// The message code is not one the client knows.
    UnknownMessage,
}

/// True when the message is long enough for every field its code carries.
pub open spec fn well_sized(msg: Seq<u8>) -> bool {
    &&& msg.len() >= 4
    &&& (code_of(msg) == CODE_DMDN || code_of(msg) == CODE_DMUP) ==> msg.len() >= 5
    &&& (code_of(msg) == CODE_DMMV || code_of(msg) == CODE_DMWM) ==> msg.len() >= 8
    &&& (code_of(msg) == CODE_DKDL || code_of(msg) == CODE_DKUP) ==> msg.len() >= 10
    &&& code_of(msg) == CODE_CINN ==> msg.len() >= 12
}

/// Tells whether a message is long enough to be read (see `well_sized`).
pub fn is_well_sized(msg: &[u8]) -> (res: bool)
    ensures
        res == well_sized(msg@),
{
    if msg.len() < 4 {
        return false;
    }
    let c: u32 = read_u32_be(msg, 0);
    if c == CODE_DMDN || c == CODE_DMUP {
        msg.len() >= 5
    } else if c == CODE_DMMV || c == CODE_DMWM {
        msg.len() >= 8
    } else if c == CODE_DKDL || c == CODE_DKUP {
        msg.len() >= 10
    } else if c == CODE_CINN {
        msg.len() >= 12
    } else {
        true
    }
}

/// The signed 16-bit field at `i`.
pub open spec fn field_i16(msg: Seq<u8>, i: int) -> i16 {
    signed16(be16(msg, i)) as i16
}

/// What a well-sized message says.
pub open spec fn spec_decode_message(msg: Seq<u8>) -> Result<ServerMessage, ProtocolError> {
    let c = code_of(msg);
    if c == CODE_QINF {
        Ok(ServerMessage::QueryInfo)
    } else if c == CODE_CIAK {
        Ok(ServerMessage::InfoAck)
    } else if c == CODE_LSYN || c == CODE_CROP || c == CODE_DSOP {
        Ok(ServerMessage::Ignored)
    } else if c == CODE_CCLP {
        Ok(ServerMessage::ClipboardGrab)
    } else if c == CODE_DCLP {
        Ok(ServerMessage::ClipboardData)
    } else if c == CODE_CALV {
        Ok(ServerMessage::KeepAlive)
    } else if c == CODE_DMMV {
        Ok(ServerMessage::MouseMove { x: field_i16(msg, 4), y: field_i16(msg, 6) })
    } else if c == CODE_CINN {
        Ok(
            ServerMessage::EnterScreen {
                x: field_i16(msg, 4),
                y: field_i16(msg, 6),
                sequence: be32(msg, 8) as u32,
            },
        )
    } else if c == CODE_DMDN {
        Ok(ServerMessage::MouseDown { button: msg[4] })
    } else if c == CODE_DMUP {
        Ok(ServerMessage::MouseUp { button: msg[4] })
    } else if c == CODE_DMWM {
        Ok(
            ServerMessage::MouseWheel {
                horizontal: field_i16(msg, 4),
                vertical: field_i16(msg, 6),
            },
        )
    } else if c == CODE_COUT {
        Ok(ServerMessage::LeaveScreen)
    } else if c == CODE_EUNK {
        Ok(ServerMessage::UnknownClient)
    } else if c == CODE_DKDL {
        Ok(ServerMessage::KeyDown { scancode: be16(msg, 8) as u16 })
    } else if c == CODE_DKUP {
        Ok(ServerMessage::KeyUp { scancode: be16(msg, 8) as u16 })
    } else if c == CODE_DKRP {
        Ok(ServerMessage::KeyRepeat)
    } else {
        Err(ProtocolError::UnknownMessage)
    }
}

/// Reads a server message.
pub fn decode_message(msg: &[u8]) -> (res: Result<ServerMessage, ProtocolError>)
    requires
        well_sized(msg@),
    ensures
        res == spec_decode_message(msg@),
{
    let c: u32 = read_u32_be(msg, 0);
    if c == CODE_QINF {
        Ok(ServerMessage::QueryInfo)
    } else if c == CODE_CIAK {
        Ok(ServerMessage::InfoAck)
    } else if c == CODE_LSYN || c == CODE_CROP || c == CODE_DSOP {
        Ok(ServerMessage::Ignored)
    } else if c == CODE_CCLP {
        Ok(ServerMessage::ClipboardGrab)
    } else if c == CODE_DCLP {
        Ok(ServerMessage::ClipboardData)
    } else if c == CODE_CALV {
        Ok(ServerMessage::KeepAlive)
    } else if c == CODE_DMMV {
        Ok(ServerMessage::MouseMove { x: read_i16_be(msg, 4), y: read_i16_be(msg, 6) })
    } else if c == CODE_CINN {
        Ok(
            ServerMessage::EnterScreen {
                x: read_i16_be(msg, 4),
                y: read_i16_be(msg, 6),
                sequence: read_u32_be(msg, 8),
            },
        )
    } else if c == CODE_DMDN {
        Ok(ServerMessage::MouseDown { button: msg[4] })
    } else if c == CODE_DMUP {
        Ok(ServerMessage::MouseUp { button: msg[4] })
    } else if c == CODE_DMWM {
        Ok(
            ServerMessage::MouseWheel {
                horizontal: read_i16_be(msg, 4),
                vertical: read_i16_be(msg, 6),
            },
        )
    } else if c == CODE_COUT {
        Ok(ServerMessage::LeaveScreen)
    } else if c == CODE_EUNK {
        Ok(ServerMessage::UnknownClient)
    } else if c == CODE_DKDL {
        Ok(ServerMessage::KeyDown { scancode: read_u16_be(msg, 8) })
    } else if c == CODE_DKUP {
        Ok(ServerMessage::KeyUp { scancode: read_u16_be(msg, 8) })
    } else if c == CODE_DKRP {
        Ok(ServerMessage::KeyRepeat)
    } else {
        Err(ProtocolError::UnknownMessage)
    }
}

/// A message as sent on the stream: its length as a big-endian `u32`
/// (truncated to 32 bits), then its bytes.
pub open spec fn framed(msg: Seq<u8>) -> Seq<u8> {
    u32_bytes((msg.len() as u32) as int) + msg
}

/// Puts the length prefix in front of a message.
pub fn frame_message(msg: &[u8]) -> (res: Vec<u8>)
    ensures
        res@ == framed(msg@),
{
    let mut out: Vec<u8> = Vec::new();
    push_u32_be(&mut out, msg.len() as u32);
    push_bytes(&mut out, msg);
    proof {
        assert(Seq::<u8>::empty() + u32_bytes((msg@.len() as u32) as int) =~= u32_bytes(
            (msg@.len() as u32) as int,
        ));
    }
    out
}

/// The body length announced by a four-byte frame header.
pub fn frame_length(header: &[u8]) -> (len: usize)
    requires
        header@.len() >= 4,
    ensures
        len as int == be32(header@, 0),
{
    read_u32_be(header, 0) as usize
}

/// A framed message announces its own length and carries its bytes.
pub proof fn lemma_frame_roundtrip(msg: Seq<u8>)
    requires
        msg.len() <= u32::MAX,
    ensures
        be32(framed(msg), 0) == msg.len(),
        framed(msg).subrange(4, framed(msg).len() as int) == msg,
{
    lemma_u32_roundtrip(msg.len() as int);
    let f = framed(msg);
    assert(f.subrange(0, 4) =~= u32_bytes(msg.len() as int));
    assert(f[0] == u32_bytes(msg.len() as int)[0]);
    assert(f[1] == u32_bytes(msg.len() as int)[1]);
    assert(f[2] == u32_bytes(msg.len() as int)[2]);
    assert(f[3] == u32_bytes(msg.len() as int)[3]);
    assert(f.subrange(4, f.len() as int) =~= msg);
}

/// The body of the server's hello.
#[derive(Debug)]
pub struct ServerHello {
    pub protocol_name: String,
    pub major: i16,
    pub minor: i16,
}

/// Errors in the handshake.
#[derive(Debug, Clone, Copy, PartialEq, Eq, Structural)]
pub enum HandshakeError {
    /// The protocol name in the server's hello is not UTF-8.
    InvalidProtocolName,
    /// The server speaks another major protocol version.
    IncompatibleVersion,
}

/// Reads the server's hello body: a seven-byte protocol name, then the
/// major and minor version as big-endian `i16`.
pub fn parse_server_hello(hello: &[u8]) -> (res: Result<ServerHello, HandshakeError>)
    requires
        hello@.len() >= 11,
    ensures
        !valid_utf8(hello@.subrange(0, 7)) ==> res == Err::<ServerHello, _>(
            HandshakeError::InvalidProtocolName,
        ),
        valid_utf8(hello@.subrange(0, 7)) ==> match res {
            Ok(h) => h.protocol_name@ == decode_utf8(hello@.subrange(0, 7)) && h.major as int
                == signed16(be16(hello@, 7)) && h.minor as int == signed16(be16(hello@, 9)),
            Err(_) => false,
        },
{
    let name = slice_subrange(hello, 0, 7);
    let protocol_name = match utf8_to_string(name) {
        Some(s) => s,
        None => return Err(HandshakeError::InvalidProtocolName),
    };
    let major: i16 = read_i16_be(hello, 7);
    let minor: i16 = read_i16_be(hello, 9);
    Ok(ServerHello { protocol_name, major, minor })
}

/// "Barrier", the protocol name the client announces.
pub open spec fn protocol_name_bytes() -> Seq<u8> {
    seq![0x42u8, 0x61, 0x72, 0x72, 0x69, 0x65, 0x72]
}

/// The hello reply body: the protocol name, the client's version, then the
/// client name as a string (its length as a big-endian `u32`, truncated to
/// 32 bits, then its bytes).
pub open spec fn hello_back(client_name: Seq<u8>) -> Seq<u8> {
    protocol_name_bytes() + i16_bytes(PROTOCOL_MAJOR as int) + i16_bytes(PROTOCOL_MINOR as int)
        + u32_bytes((client_name.len() as u32) as int) + client_name
}

/// Builds the hello reply body for `client_name`.
pub fn hello_back_message(client_name: &[u8]) -> (res: Vec<u8>)
    ensures
        res@ == hello_back(client_name@),
{
    let mut out: Vec<u8> = Vec::new();
    out.push(0x42);
    out.push(0x61);
    out.push(0x72);
    out.push(0x72);
    out.push(0x69);
    out.push(0x65);
    out.push(0x72);
    proof {
        assert(out@ =~= protocol_name_bytes());
    }
    push_i16_be(&mut out, PROTOCOL_MAJOR);
    push_i16_be(&mut out, PROTOCOL_MINOR);
    push_u32_be(&mut out, client_name.len() as u32);
    push_bytes(&mut out, client_name);
    out
}

/// What the client answers to the server's hello, or why it gives up.
pub open spec fn spec_handshake_reply(hello: Seq<u8>, client_name: Seq<u8>) -> Result<
    Seq<u8>,
    HandshakeError,
> {
    if !valid_utf8(hello.subrange(0, 7)) {
        Err(HandshakeError::InvalidProtocolName)
    } else if signed16(be16(hello, 7)) != PROTOCOL_MAJOR {
        Err(HandshakeError::IncompatibleVersion)
    } else {
        Ok(framed(hello_back(client_name)))
    }
}

/// Checks the server's hello and builds the framed reply to send.
pub fn handshake_reply(hello: &[u8], client_name: &str) -> (res: Result<Vec<u8>, HandshakeError>)
    requires
        hello@.len() >= 11,
    ensures
        match (res, spec_handshake_reply(hello@, encode_utf8(client_name@))) {
            (Ok(r), Ok(s)) => r@ == s,
            (Err(e), Err(f)) => e == f,
            _ => false,
        },
{
    let server = parse_server_hello(hello)?;
    if server.major != PROTOCOL_MAJOR {
        return Err(HandshakeError::IncompatibleVersion);
    }
    let body = hello_back_message(client_name.as_bytes());
    Ok(frame_message(body.as_slice()))
}

/// The handshake decides on the major version alone: a hello whose
/// protocol name is UTF-8 is accepted exactly when bytes 7 and 8 hold major
/// version 1, whatever minor version follows, and the answer is then the
/// framed hello reply for the client name; otherwise the hello is refused
/// with the reason.
pub proof fn lemma_handshake_decision(hello: Seq<u8>, client_name: Seq<u8>)
    requires
        hello.len() >= 11,
    ensures
        !valid_utf8(hello.subrange(0, 7)) ==> spec_handshake_reply(hello, client_name) == Err::<
            Seq<u8>,
            _,
        >(HandshakeError::InvalidProtocolName),
        valid_utf8(hello.subrange(0, 7)) && hello[7] == 0 && hello[8] == 1 ==> spec_handshake_reply(
            hello,
            client_name,
        ) == Ok::<_, HandshakeError>(framed(hello_back(client_name))),
        valid_utf8(hello.subrange(0, 7)) && !(hello[7] == 0 && hello[8] == 1)
            ==> spec_handshake_reply(hello, client_name) == Err::<Seq<u8>, _>(
            HandshakeError::IncompatibleVersion,
        ),
{
}

/// The minor version in the server's hello (bytes 9 and 10) changes
/// nothing in the handshake.
pub proof fn lemma_handshake_ignores_minor(hello: Seq<u8>, client_name: Seq<u8>, a: u8, b: u8)
    requires
        hello.len() >= 11,
    ensures
        spec_handshake_reply(hello.update(9, a).update(10, b), client_name)
            == spec_handshake_reply(hello, client_name),
{
    let h2 = hello.update(9, a).update(10, b);
    assert(h2.subrange(0, 7) =~= hello.subrange(0, 7));
    lemma_handshake_decision(hello, client_name);
    lemma_handshake_decision(h2, client_name);
}

/// The framed hello reply, byte by byte: the length of what follows
/// (15 plus the name's length), "Barrier", version 1.8, the name's length
/// and the name.
pub proof fn lemma_hello_reply_bytes(client_name: Seq<u8>)
    requires
        client_name.len() + 15 <= u32::MAX,
    ensures
        framed(hello_back(client_name)) == u32_bytes(15 + client_name.len() as int) + seq![
            0x42u8,
            0x61,
            0x72,
            0x72,
            0x69,
            0x65,
            0x72,
            0,
            1,
            0,
            8,
        ] + u32_bytes(client_name.len() as int) + client_name,
{
    let hb = hello_back(client_name);
    assert(hb.len() == 15 + client_name.len());
    assert(framed(hb) =~= u32_bytes(15 + client_name.len() as int) + seq![
        0x42u8,
        0x61,
        0x72,
        0x72,
        0x69,
        0x65,
        0x72,
        0,
        1,
        0,
        8,
    ] + u32_bytes(client_name.len() as int) + client_name);
}

/// The size of this client's screen in pixels.
#[derive(Debug, Clone, Copy, PartialEq, Eq, Structural)]
pub struct ScreenSize {
    pub x: u16,
    pub y: u16,
}

/// "DINF" as bytes.
pub open spec fn dinf_bytes() -> Seq<u8> {
    seq![0x44u8, 0x49, 0x4e, 0x46]
}

/// The screen information body: "DINF", the screen's top-left corner, its
/// size, the warp zone size and the cursor position, each big-endian.
pub open spec fn info_body(screen: ScreenSize) -> Seq<u8> {
    dinf_bytes() + i16_bytes(0) + i16_bytes(0) + u16_bytes(screen.x as int) + u16_bytes(
        screen.y as int,
    ) + u16_bytes(0) + i16_bytes(0) + i16_bytes(0)
}

/// Builds the screen information body sent in answer to QINF.
pub fn info_message(screen: ScreenSize) -> (res: Vec<u8>)
    ensures
        res@ == info_body(screen),
{
    let edge = get_edge_coordinate();
    let warp: u16 = get_warp_zone_size();
    let mouse = get_mouse_position();
    let mut out: Vec<u8> = Vec::new();
    out.push(0x44);
    out.push(0x49);
    out.push(0x4e);
    out.push(0x46);
    proof {
        assert(out@ =~= dinf_bytes());
    }
    push_i16_be(&mut out, edge.0);
    push_i16_be(&mut out, edge.1);
    push_u16_be(&mut out, screen.x);
    push_u16_be(&mut out, screen.y);
    push_u16_be(&mut out, warp);
    push_i16_be(&mut out, mouse.0);
    push_i16_be(&mut out, mouse.1);
    out
}

/// The keep-alive answer, already framed: length 4, then "CALV".
pub open spec fn keep_alive_bytes() -> Seq<u8> {
    seq![0u8, 0, 0, 4, 0x43, 0x41, 0x4c, 0x56]
}

/// Builds the keep-alive answer.
pub fn keep_alive_message() -> (res: Vec<u8>)
    ensures
        res@ == keep_alive_bytes(),
{
    let mut out: Vec<u8> = Vec::new();
    out.push(0);
    out.push(0);
    out.push(0);
    out.push(4);
    out.push(0x43);
    out.push(0x41);
    out.push(0x4c);
    out.push(0x56);
    proof {
        assert(out@ =~= keep_alive_bytes());
    }
    out
}

} // verus!
