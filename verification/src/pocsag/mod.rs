//! The POCSAG paging protocol.
use vstd::prelude::*;

pub mod codeword;
pub mod encoding;
pub mod framer;
pub mod generator;
pub mod layout;
pub mod transmission;

pub use crate::pocsag::encoding::Encoding;
pub use crate::pocsag::framer::Framer;
pub use crate::pocsag::generator::Generator;

verus! {

/// How the text of a message is encoded.
#[derive(Clone, Copy, Debug, PartialEq, Eq, Structural)]
pub enum MessageType {
    Numeric,
    AlphaNum,
}

impl MessageType {
    /// The encoding for messages of this type.
    pub open spec fn spec_encoding(self) -> Encoding {
        match self {
            MessageType::Numeric => encoding::NUMERIC,
            MessageType::AlphaNum => encoding::ALPHANUM,
        }
    }

    /// The encoding for messages of this type.
    pub fn encoding(self) -> (encoding: Encoding)
        ensures
            encoding == self.spec_encoding(),
    {
        match self {
            MessageType::Numeric => encoding::NUMERIC,
            MessageType::AlphaNum => encoding::ALPHANUM,
        }
    }
}

/// A POCSAG message.
#[derive(Debug)]
pub struct Message {
    /// Type of the message
    pub mtype: MessageType,
    /// Speed in baud
    pub speed: usize,
    /// Receiver identification code
    pub ric: u32,
    /// Function bits
    pub func: u8,
    /// Text of the message
    pub data: String,
}

/// What is sent of a message: its address, and its text as bytes.
pub struct Page {
    pub mtype: MessageType,
    pub ric: u32,
    pub func: u8,
    pub data: Seq<u8>,
}

impl View for Message {
    type V = Page;

    open spec fn view(&self) -> Page {
        Page {
            mtype: self.mtype,
            ric: self.ric,
            func: self.func,
            data: vstd::utf8::encode_utf8(self.data@),
        }
    }
}

/// A message is sent to its own address with its whole text, in the encoding
/// of its type.
pub proof fn law_whole_message_is_paged(message: Message)
    ensures
        message@.ric == message.ric,
        message@.func == message.func,
        message@.mtype == message.mtype,
        message@.data == vstd::utf8::encode_utf8(message.data@),
        message.mtype.spec_encoding() == if message.mtype is Numeric {
            encoding::NUMERIC
        } else {
            encoding::ALPHANUM
        },
{
}

} // verus!
