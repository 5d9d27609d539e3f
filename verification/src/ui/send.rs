//! The decisions of sending a message: the message that goes out, where it
//! may be forwarded, and when it leaves the outbox.
use vstd::prelude::*;

use crate::peers::PeerKey;
use crate::types::{DeliveryStatus, Message, MessageView};

verus! {

/// How delivering a new message went.
pub enum Delivery {
    /// The recipient took it directly.
    Direct,
    /// Forwarding to mailboxes ended; so many of them stored it.
    Mailboxes(usize),
    /// Forwarding to mailboxes failed with an error.
    MailboxError,
    /// There was no mailbox or connected peer to forward it to.
    NoMailboxes,
}

/// The message that `sender` sends to `recipient` at `timestamp` (ms since
/// the Unix epoch), with id `id`, encrypted content `content` and nonce
/// `nonce`: it starts as being sent.
pub fn outgoing_message(
    id: u128,
    sender: PeerKey,
    recipient: PeerKey,
    timestamp: i64,
    content: Vec<u8>,
    nonce: u64,
) -> (m: Message)
    ensures
        m@ == (MessageView {
            id,
            sender: sender@,
            recipient: recipient@,
            timestamp,
            content: content@,
            nonce,
            delivery_status: DeliveryStatus::Sending,
        }),
{
    Message { id, sender, recipient, timestamp, content, nonce, delivery_status: DeliveryStatus::Sending }
}

/// Whether the message leaves the outbox after `delivery`: when the
/// recipient took it or some mailbox stored it; otherwise it stays queued
/// for a retry.
pub fn removes_pending(delivery: &Delivery) -> (r: bool)
    ensures
        r == match delivery {
            Delivery::Direct => true,
            Delivery::Mailboxes(n) => *n > 0,
            Delivery::MailboxError => false,
            Delivery::NoMailboxes => false,
        },
{
    match delivery {
        Delivery::Direct => true,
        Delivery::Mailboxes(n) => *n > 0,
        Delivery::MailboxError => false,
        Delivery::NoMailboxes => false,
    }
}

/// Whether a discovery runs before forwarding: when no mailbox provider is
/// known (`known` of them are).
pub fn discover_before_forwarding(known: usize) -> (r: bool)
    ensures
        r == (known == 0),
{
    known == 0
}

} // verus!
