//! The source of codewords for a transmitter.
use crate::message;
use crate::message::MessageProvider;
use crate::pocsag::framer;
use crate::pocsag::{Framer, Message};
use vstd::prelude::*;

verus! {

/// POCSAG Generator
///
/// Generates 32-bit POCSAG codewords from the messages of a provider.
pub struct Generator<'a, P: MessageProvider + ?Sized> {
    /// Message source
    pub messages: &'a mut P,
    /// Layout of the transmission
    pub framer: Framer,
}

/// The POCSAG message of a provider's reply. A reply of another protocol
/// counts as none.
pub fn select(reply: Option<message::Message>) -> (message: Option<Message>)
    ensures
        message == match reply {
            Some(message::Message { message: message::ProtocolMessage::Pocsag(m) }) => Some(m),
            _ => None,
        },
{
    match reply {
        Some(msg) => match msg.message {
            message::ProtocolMessage::Pocsag(pocsag_message) => Some(pocsag_message),
            _ => None,
        },
        None => None,
    }
}

impl<'a, P: MessageProvider + ?Sized> Generator<'a, P> {
    /// Create a new Generator
    pub fn new(messages: &'a mut P, first_msg: Message) -> (generator: Generator<'a, P>)
        ensures
            &*generator.messages == &*old(messages),
            &*final(generator.messages) == &*final(messages),
            generator.framer@ == framer::Progress::start(first_msg@),
            generator.framer@.wf(),
    {
        Generator { messages, framer: Framer::new(first_msg) }
    }

    /// Get the next message and continue with it.
    fn next_message(&mut self)
        requires
            old(self).framer@.wf(),
            !(old(self).framer@.phase is Preamble),
            old(self).framer@.count > 0,
        ensures
            &*final(final(self).messages) == &*final(old(self).messages),
            final(self).framer@.wf(),
            exists|provider: &mut P, reply: Option<message::Message>|
                {
                    &&& &*provider == &*old(self).messages
                    &&& &*final(provider) == &*final(self).messages
                    &&& #[trigger] call_ensures(
                        P::next,
                        (provider, (old(self).framer@.count - 1) as usize),
                        reply,
                    )
                    &&& final(self).framer@ == old(self).framer@.resumed(framer::page_of(reply))
                },
    {
        let reply: Option<message::Message> = self.messages.next(self.framer.count() - 1);
        self.framer.resume(select(reply));
    }

    /// Generate the next codeword, or `None` once the transmission is over.
    ///
    /// The provider is asked for a message when, and only when, the codeword
    /// is the last one of the current message. It is told the number of
    /// codewords before this one. What it replies, and what becomes of it, is
    /// whatever its `next` may do; the transmission goes on accordingly.
    pub fn next(&mut self) -> (word: Option<u32>)
        requires
            old(self).framer@.wf(),
            old(self).framer@.count < usize::MAX,
        ensures
            word == old(self).framer@.word(),
            final(self).framer@.wf(),
            &*final(final(self).messages) == &*final(old(self).messages),
            !old(self).framer@.completes_message() ==> {
                &&& &*final(self).messages == &*old(self).messages
                &&& final(self).framer@ == old(self).framer@.step(None)
            },
            old(self).framer@.completes_message() ==> exists|
                provider: &mut P,
                reply: Option<message::Message>,
            |
                {
                    &&& &*provider == &*old(self).messages
                    &&& &*final(provider) == &*final(self).messages
                    &&& #[trigger] call_ensures(
                        P::next,
                        (provider, old(self).framer@.count as usize),
                        reply,
                    )
                    &&& final(self).framer@ == old(self).framer@.step(framer::page_of(reply))
                },
    {
        let (word, completed): (Option<u32>, bool) = self.framer.emit();
        if completed {
            self.next_message();
        }
        word
    }
}

} // verus!
