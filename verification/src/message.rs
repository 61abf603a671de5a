//! Websocket messages as plain values, and where an outgoing one goes.
use vstd::prelude::*;
use vstd::string::*;

verus! {

/// The code and reason of a close message.
#[derive(Debug, PartialEq, Eq)]
pub struct CloseFrame {
    pub code: u16,
    pub reason: String,
}

/// A websocket message.
#[derive(Debug, PartialEq, Eq)]
pub enum WsMessage {
    Text(String),
    Binary(Vec<u8>),
    Ping(Vec<u8>),
    Pong(Vec<u8>),
    Close(Option<CloseFrame>),
    /// A raw frame, by its payload.
    Frame(Vec<u8>),
}

/// The mathematical value of a [`WsMessage`].
pub enum MessageView {
    Text(Seq<char>),
    Binary(Seq<u8>),
    Ping(Seq<u8>),
    Pong(Seq<u8>),
    Close(Option<(u16, Seq<char>)>),
    Frame(Seq<u8>),
}

impl View for WsMessage {
    type V = MessageView;

    open spec fn view(&self) -> MessageView {
        match self {
            WsMessage::Text(t) => MessageView::Text(t@),
            WsMessage::Binary(d) => MessageView::Binary(d@),
            WsMessage::Ping(d) => MessageView::Ping(d@),
            WsMessage::Pong(d) => MessageView::Pong(d@),
            WsMessage::Close(None) => MessageView::Close(None),
            WsMessage::Close(Some(f)) => MessageView::Close(Some((f.code, f.reason@))),
            WsMessage::Frame(d) => MessageView::Frame(d@),
        }
    }
}

/// Whether the payload of `m` begins with the byte 7. For text (and a close
/// reason) that is the character U+0007, the only character whose UTF-8
/// encoding begins with that byte.
pub open spec fn payload_starts_with_seven(m: MessageView) -> bool {
    match m {
        MessageView::Text(t) => t.len() > 0 && t[0] == '\u{7}',
        MessageView::Binary(d) => d.len() > 0 && d[0] == 7,
        MessageView::Ping(d) => d.len() > 0 && d[0] == 7,
        MessageView::Pong(d) => d.len() > 0 && d[0] == 7,
        MessageView::Close(None) => false,
        MessageView::Close(Some((_, r))) => r.len() > 0 && r[0] == '\u{7}',
        MessageView::Frame(d) => d.len() > 0 && d[0] == 7,
    }
}

fn text_starts_with(t: &String, c: char) -> (b: bool)
    ensures
        b == (t@.len() > 0 && t@[0] == c),
{
    let s = t.as_str();
    s.unicode_len() > 0 && s.get_char(0) == c
}

fn bytes_start_with_seven(d: &Vec<u8>) -> (b: bool)
    ensures
        b == (d@.len() > 0 && d@[0] == 7),
{
    d.len() > 0 && d[0] == 7
}

/// A copy of the bytes `d`.
pub fn copy_bytes(d: &Vec<u8>) -> (r: Vec<u8>)
    ensures
        r@ == d@,
{
    let r = d.clone();
    assert(r@ =~= d@);
    r
}

impl WsMessage {
    /// Whether the payload of this message begins with the byte 7.
    pub fn payload_starts_with_seven(&self) -> (b: bool)
        ensures
            b == payload_starts_with_seven(self@),
    {
        match self {
            WsMessage::Text(t) => text_starts_with(t, '\u{7}'),
            WsMessage::Binary(d) => bytes_start_with_seven(d),
            WsMessage::Ping(d) => bytes_start_with_seven(d),
            WsMessage::Pong(d) => bytes_start_with_seven(d),
            WsMessage::Close(None) => false,
            WsMessage::Close(Some(f)) => text_starts_with(&f.reason, '\u{7}'),
            WsMessage::Frame(d) => bytes_start_with_seven(d),
        }
    }

    /// A copy of this message.
    pub fn duplicate(&self) -> (r: WsMessage)
        ensures
            r@ == self@,
    {
        match self {
            WsMessage::Text(t) => WsMessage::Text(t.clone()),
            WsMessage::Binary(d) => WsMessage::Binary(copy_bytes(d)),
            WsMessage::Ping(d) => WsMessage::Ping(copy_bytes(d)),
            WsMessage::Pong(d) => WsMessage::Pong(copy_bytes(d)),
            WsMessage::Close(None) => WsMessage::Close(None),
            WsMessage::Close(Some(f)) => WsMessage::Close(
                Some(CloseFrame { code: f.code, reason: f.reason.clone() }),
            ),
            WsMessage::Frame(d) => WsMessage::Frame(copy_bytes(d)),
        }
    }
}

/// Where an outgoing message goes: to the session's own connection, or to the
/// player at an index of the room it is about.
#[derive(Clone, Copy, Debug, PartialEq, Eq, Structural)]
pub enum Recipient {
    Own,
    Player(usize),
}

/// A message to be sent.
#[derive(Debug, PartialEq, Eq)]
pub struct Outgoing {
    pub to: Recipient,
    pub msg: WsMessage,
}

/// The mathematical value of an [`Outgoing`].
pub struct OutgoingView {
    pub to: Recipient,
    pub msg: MessageView,
}

impl View for Outgoing {
    type V = OutgoingView;

    open spec fn view(&self) -> OutgoingView {
        OutgoingView { to: self.to, msg: self.msg@ }
    }
}

/// The values of the outgoing messages `os`, in order.
pub open spec fn outgoing_view(os: Seq<Outgoing>) -> Seq<OutgoingView> {
    os.map_values(|o: Outgoing| o@)
}

} // verus!
