//! Frames as they arrive from a client, and the messages that are relayed for
//! them.
//!
//! A label is text, so it is attached to text only. A text frame is relayed
//! as a text message that starts with the sender's label. A binary frame is
//! relayed as a binary message that holds the frame's bytes and nothing else:
//! its payload passes through untouched. A text frame whose bytes are not
//! well-formed text counts as a text frame with no text.

use crate::channel::{hyphenated, identity_text};
use vstd::prelude::*;
use vstd::string::*;

verus! {

/// One discrete unit of payload read from a client's stream.
#[derive(Debug, PartialEq, Eq)]
pub enum Frame {
    /// A text frame holding well-formed text.
    Text(String),
    /// A binary frame and its bytes.
    Binary(Vec<u8>),
    /// A frame whose text cannot be read.
    Malformed,
}

/// One message as it travels through a delivery channel to a client's stream.
#[derive(Debug, PartialEq, Eq)]
pub enum Message {
    /// A text message.
    Text(String),
    /// A binary message.
    Binary(Vec<u8>),
}

/// What a message holds.
pub enum Payload {
    Text(Seq<char>),
    Binary(Seq<u8>),
}

impl View for Message {
    type V = Payload;

    open spec fn view(&self) -> Payload {
        match *self {
            Message::Text(text) => Payload::Text(text@),
            Message::Binary(bytes) => Payload::Binary(bytes@),
        }
    }
}

/// Copies bytes one by one.
fn copy_bytes(bytes: &Vec<u8>) -> (copy: Vec<u8>)
    ensures
        copy@ == bytes@,
{
    let mut copy: Vec<u8> = Vec::new();
    let mut i: usize = 0;
    while i < bytes.len()
        invariant
            i <= bytes@.len(),
            copy@ == bytes@.take(i as int),
        decreases bytes@.len() - i,
    {
        copy.push(bytes[i]);
        proof {
            assert(bytes@.take(i as int + 1) =~= bytes@.take(i as int).push(bytes@[i as int]));
        }
        i += 1;
    }
    proof {
        assert(bytes@.take(i as int) =~= bytes@);
    }
    copy
}

impl Message {
    /// A second message that holds the same as this one.
    pub fn duplicate(&self) -> (copy: Message)
        ensures
            copy@ == self@,
    {
        match self {
            Message::Text(text) => Message::Text(text.clone()),
            Message::Binary(bytes) => Message::Binary(copy_bytes(bytes)),
        }
    }
}

/// What is relayed when the client labelled `label` sends `frame`: for a
/// binary frame its bytes, unchanged and unlabelled; for a text frame the
/// label, the separator and the frame's text; for a frame whose text cannot
/// be read the label and the separator, with no text behind them.
pub open spec fn relay_of(label: Seq<char>, frame: Frame) -> Payload {
    match frame {
        Frame::Text(text) => Payload::Text(rendered(label, text@)),
        Frame::Binary(bytes) => Payload::Binary(bytes@),
        Frame::Malformed => Payload::Text(rendered(label, Seq::empty())),
    }
}

/// What stands between a label and the payload.
pub open spec fn separator() -> Seq<char> {
    seq![':', ' ']
}

/// The relayed form of a payload sent by the client with the given label.
pub open spec fn rendered(label: Seq<char>, payload: Seq<char>) -> Seq<char> {
    label + separator() + payload
}

/// What every generated label starts with.
pub open spec fn label_prefix() -> Seq<char> {
    seq!['C', 'l', 'i', 'e', 'n', 't', '-']
}

/// The label of a client whose identity prints as `text`.
pub open spec fn label_for(text: Seq<char>) -> Seq<char> {
    label_prefix() + text
}

/// Renders the text that is relayed when the client labelled `label` sends
/// `text`: the label, a colon and a space, then the text.
pub fn render(label: &str, text: &str) -> (message: String)
    ensures
        message@ == rendered(label@, text@),
{
    let mut message = String::from_str(label);
    proof {
        reveal_strlit(": ");
        assert(": "@ =~= separator());
    }
    message.append(": ");
    message.append(text);
    message
}

/// Builds the message that is relayed when the client labelled `label` sends
/// `frame`. The label is rendered here, once; a binary frame's bytes are
/// carried over as they are.
pub fn relay(label: &str, frame: &Frame) -> (message: Message)
    ensures
        message@ == relay_of(label@, *frame),
{
    match frame {
        Frame::Text(text) => Message::Text(render(label, text.as_str())),
        Frame::Binary(bytes) => Message::Binary(copy_bytes(bytes)),
        Frame::Malformed => {
            proof {
                reveal_strlit("");
                assert(""@ =~= Seq::<char>::empty());
            }
            Message::Text(render(label, ""))
        },
    }
}

/// A binary frame is relayed byte for byte, whatever the sender's label, and
/// two binary frames that are relayed alike hold the same bytes.
pub proof fn lemma_binary_passes_through(label: Seq<char>, bytes: Vec<u8>, other: Vec<u8>)
    ensures
        relay_of(label, Frame::Binary(bytes)) == Payload::Binary(bytes@),
        relay_of(label, Frame::Binary(bytes)) == relay_of(label, Frame::Binary(other)) ==> bytes@
            == other@,
{
}

/// A relayed text message can be taken apart again: it starts with the sender's
/// label and the separator, and what follows is the payload, unchanged. So
/// two payloads that render alike under one label are the same payload.
pub proof fn lemma_rendering_is_faithful(label: Seq<char>, payload: Seq<char>, other: Seq<char>)
    ensures
        rendered(label, payload).len() == label.len() + 2 + payload.len(),
        rendered(label, payload).take(label.len() as int) == label,
        rendered(label, payload).skip(label.len() as int).take(2) == separator(),
        rendered(label, payload).skip(label.len() as int + 2) == payload,
        rendered(label, payload) == rendered(label, other) ==> payload == other,
{
    let whole = rendered(label, payload);
    let n = label.len() as int;
    assert(whole.take(n) =~= label);
    assert(whole.skip(n).take(2) =~= separator());
    assert(whole.skip(n + 2) =~= payload);
    assert(rendered(label, other).skip(n + 2) =~= other);
}

/// Builds a client's label from the printed form of its identity.
pub fn label_from_text(text: &str) -> (label: String)
    ensures
        label@ == label_for(text@),
{
    let mut label = String::from_str("Client-");
    proof {
        reveal_strlit("Client-");
        assert("Client-"@ =~= label_prefix());
    }
    label.append(text);
    label
}

/// The label a client with the given identity is registered under.
pub fn client_label(identity: u128) -> (label: String)
    ensures
        label@ == label_for(hyphenated(identity)),
{
    let text = identity_text(identity);
    label_from_text(text.as_str())
}

} // verus!
