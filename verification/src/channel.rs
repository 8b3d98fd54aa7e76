//! The outside pieces the hub is built on: tokio's unbounded delivery channel
//! and the random identities of the uuid crate.
//!
//! Nothing in this module is proved. Each contract below is a statement about
//! outside code, and each says only what that code guarantees on every call.

use crate::frame::Message;
use tokio::sync::mpsc::{UnboundedReceiver, UnboundedSender};
use vstd::prelude::*;

verus! {

/// The producer end of a tokio unbounded channel. Its contents are shared with
/// the consumer end and are not visible to specifications.
#[verifier::external_type_specification]
#[verifier::external_body]
#[verifier::reject_recursive_types(T)]
pub struct ExUnboundedSender<T>(tokio::sync::mpsc::UnboundedSender<T>);

/// The consumer end of a tokio unbounded channel.
#[verifier::external_type_specification]
#[verifier::external_body]
#[verifier::reject_recursive_types(T)]
pub struct ExUnboundedReceiver<T>(tokio::sync::mpsc::UnboundedReceiver<T>);

/// The hyphenated lower-case text that the uuid crate prints for the identity
/// with the given 128-bit value.
pub uninterp spec fn hyphenated(identity: u128) -> Seq<char>;

/// Calls `tokio::sync::mpsc::unbounded_channel`. The two ends belong to one
/// fresh channel; nothing about them is claimed.
#[verifier::external_body]
pub(crate) fn open_channel() -> (ends: (UnboundedSender<Message>, UnboundedReceiver<Message>)) {
    tokio::sync::mpsc::unbounded_channel()
}

/// Calls `UnboundedSender::send`, which never blocks. The answer says whether
/// the channel took the message; it depends on whether the consumer end is
/// still alive, so nothing is claimed about it.
#[verifier::external_body]
pub(crate) fn push(sender: &UnboundedSender<Message>, message: Message) -> (accepted: bool) {
    sender.send(message).is_ok()
}

/// Calls `Uuid::new_v4` and takes the value by `Uuid::as_u128`. The value is
/// random, so nothing is claimed about it.
#[verifier::external_body]
pub(crate) fn random_identity() -> (identity: u128) {
    uuid::Uuid::new_v4().as_u128()
}

/// Calls `Uuid::from_u128` and prints the value in the crate's hyphenated
/// form. The text depends on the value alone.
#[verifier::external_body]
pub(crate) fn identity_text(identity: u128) -> (text: String)
    ensures
        text@ == hyphenated(identity),
{
    uuid::Uuid::from_u128(identity).hyphenated().to_string()
}

} // verus!
