//! Messages as they wait for transmission, whatever their protocol.
use crate::pocsag;
use vstd::prelude::*;

verus! {

/// The protocol specific part of a message.
#[derive(Debug)]
pub enum ProtocolMessage {
    /// A POCSAG message.
    Pocsag(pocsag::Message),
    /// A message of any other protocol.
    Other,
}

/// A message that waits for transmission.
#[derive(Debug)]
pub struct Message {
    pub message: ProtocolMessage,
}

/// A source of messages.
///
/// Implemented by whoever schedules messages, such as a queue.
pub trait MessageProvider {
    /// Get the next message, `count` codewords after the transmission began.
    fn next(&mut self, count: usize) -> Option<Message>;
}

} // verus!
