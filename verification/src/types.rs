//! The data exchanged between peers: chat messages, their encrypted mailbox
//! form, friends, and the requests and responses of the chat and mailbox
//! protocols.
//!
//! A message id is the 128-bit value of its UUID, and a peer is the byte
//! string of its peer id.
use vstd::prelude::*;

use crate::peers::{copy_key, PeerKey};

verus! {

/// The delivery status of a message.
#[derive(Clone, Copy, Debug, PartialEq, Eq, Structural)]
pub enum DeliveryStatus {
    /// The message is being sent.
    Sending,
    /// The message has been sent (to the network or the outbox).
    Sent,
    /// The message has reached the recipient or a mailbox.
    Delivered,
    /// The message has been read by the recipient.
    Read,
}

impl Default for DeliveryStatus {
    /// A message starts out being sent.
    fn default() -> (s: Self)
        ensures
            s == DeliveryStatus::Sending,
    {
        DeliveryStatus::Sending
    }
}

/// A chat message.
#[derive(Clone, Debug)]
pub struct Message {
    /// The message id.
    pub id: u128,
    /// The sender.
    pub sender: PeerKey,
    /// The recipient.
    pub recipient: PeerKey,
    /// When the message was created (ms since the Unix epoch).
    pub timestamp: i64,
    /// The content.
    pub content: Vec<u8>,
    /// A random nonce.
    pub nonce: u64,
    /// How far the delivery has come.
    pub delivery_status: DeliveryStatus,
}

/// What a message is, as plain values.
pub struct MessageView {
    pub id: u128,
    pub sender: Seq<u8>,
    pub recipient: Seq<u8>,
    pub timestamp: i64,
    pub content: Seq<u8>,
    pub nonce: u64,
    pub delivery_status: DeliveryStatus,
}

impl View for Message {
    type V = MessageView;

    open spec fn view(&self) -> MessageView {
        MessageView {
            id: self.id,
            sender: self.sender@,
            recipient: self.recipient@,
            timestamp: self.timestamp,
            content: self.content@,
            nonce: self.nonce,
            delivery_status: self.delivery_status,
        }
    }
}

impl Message {
    /// A copy of the message.
    pub fn duplicate(&self) -> (m: Message)
        ensures
            m@ == self@,
    {
        Message {
            id: self.id,
            sender: copy_key(&self.sender),
            recipient: copy_key(&self.recipient),
            timestamp: self.timestamp,
            content: copy_key(&self.content),
            nonce: self.nonce,
            delivery_status: self.delivery_status,
        }
    }
}

/// A friend.
#[derive(Clone, Debug)]
pub struct Friend {
    /// The friend's peer.
    pub peer_id: PeerKey,
    /// The friend's end-to-end public key.
    pub e2e_public_key: Vec<u8>,
    /// A nickname, if one was given.
    pub nickname: Option<String>,
}

/// A message as stored in a mailbox: its content is encrypted for the
/// recipient.
#[derive(Clone, Debug)]
pub struct EncryptedMessage {
    /// The message id.
    pub id: u128,
    /// The original sender.
    pub sender: PeerKey,
    /// The hash of the recipient's public key, under which mailboxes store it.
    pub recipient_hash: [u8; 32],
    /// The encrypted content.
    pub encrypted_content: Vec<u8>,
    /// When the message was created (ms since the Unix epoch).
    pub timestamp: i64,
    /// A random nonce.
    pub nonce: u64,
    /// The sender's end-to-end public key.
    pub sender_pub_key: Vec<u8>,
}

/// A confirmation that a message was delivered.
#[derive(Clone, Copy, Debug)]
pub struct DeliveryConfirmation {
    /// The id of the delivered message.
    pub original_message_id: u128,
    /// When the confirmation was made (ms since the Unix epoch).
    pub timestamp: i64,
}

/// A receipt that a message was read.
#[derive(Clone, Copy, Debug)]
pub struct ReadReceipt {
    /// The id of the read message.
    pub message_id: u128,
    /// When the message was read (ms since the Unix epoch).
    pub timestamp: i64,
}

/// A request of the chat protocol.
#[derive(Clone, Debug)]
pub enum ChatRequest {
    /// Delivers a message.
    SendMessage { message: Message },
    /// Confirms a delivery.
    DeliveryConfirmation { confirmation: DeliveryConfirmation },
    /// Reports that a message was read.
    ReadReceipt { receipt: ReadReceipt },
}

/// A response of the chat protocol.
#[derive(Clone, Debug)]
pub enum ChatResponse {
    /// The outcome of a message delivery.
    MessageResult { success: bool, message_id: Option<u128> },
}

/// A request to a mailbox.
#[derive(Clone, Debug)]
pub enum MailboxRequest {
    /// Stores a message for a recipient.
    Put { recipient: [u8; 32], message: EncryptedMessage },
    /// Fetches at most `limit` messages for a recipient.
    Fetch { recipient: [u8; 32], limit: usize },
    /// Deletes the given messages of a recipient.
    Ack { recipient: [u8; 32], msg_ids: Vec<u128> },
}

/// A response of a mailbox.
#[derive(Clone, Debug)]
pub enum MailboxResponse {
    /// Whether a message was stored.
    PutResult { success: bool },
    /// The fetched messages.
    Messages { items: Vec<EncryptedMessage> },
    /// How many messages were deleted.
    AckResult { deleted: usize },
}

/// The confirmation sent back for message `id` at clock reading `now` (ms
/// since the Unix epoch).
pub fn delivery_confirmation_request(id: u128, now: i64) -> (r: ChatRequest)
    ensures
        r == (ChatRequest::DeliveryConfirmation {
            confirmation: DeliveryConfirmation { original_message_id: id, timestamp: now },
        }),
{
    ChatRequest::DeliveryConfirmation {
        confirmation: DeliveryConfirmation { original_message_id: id, timestamp: now },
    }
}

} // verus!
