//! The order of codewords in a transmission.
//!
//! A transmission is a preamble followed by batches. A batch is a sync word
//! and sixteen codewords. The address word of a message stands at the place
//! in a batch that its receiver listens to, its message words follow, and
//! idle words fill what is left.
use crate::message;
use crate::pocsag::codeword;
use crate::pocsag::{Encoding, Message, Page};
use vstd::prelude::*;

verus! {

/// Preamble length in number of 32-bit codewords
pub const PREAMBLE_LENGTH: u8 = 18;

/// The codeword that the preamble repeats
pub const PREAMBLE_WORD: u32 = 0xAAAAAAAA;

/// The codeword that starts a batch
pub const SYNC_WORD: u32 = 0x7CD215D8;

/// The codeword that fills unused places of a batch
pub const IDLE_WORD: u32 = 0x7A89C197;

/// Number of codewords that follow the sync word in a batch
pub const BATCH_LENGTH: u8 = 16;

/// What a transmission does with the codewords that come.
pub enum Phase {
    /// Send the preamble.
    Preamble,
    /// Send idle words up to the place of the message, then its address.
    AddressWord,
    /// Send the text, from the bit at this position on.
    MessageWord(nat, Encoding),
    /// Fill the rest of the current batch with idle words.
    Completed,
    /// Fill a last batch with idle words, then end.
    Terminator,
}

/// Where a transmission stands.
pub struct Progress {
    pub phase: Phase,
    /// The message being sent.
    pub message: Option<Page>,
    /// The number of codewords left in the preamble or in the current batch.
    pub codewords: nat,
    /// The number of codewords asked for so far.
    pub count: nat,
}

/// The number of bits in the text of `page`.
pub open spec fn text_bits(page: Page) -> nat {
    page.data.len() * page.mtype.spec_encoding().spec_bits()
}

/// Symbol `k` of a text, or of what fills the last codeword after it.
pub open spec fn symbol(data: Seq<u8>, encoding: Encoding, k: nat) -> u8 {
    if k < data.len() {
        encoding.spec_encode(data[k as int])
    } else {
        encoding.spec_trailing()
    }
}

/// Bit `i` of a text: its symbols follow each other, each with the least
/// significant bit first.
pub open spec fn text_bit(data: Seq<u8>, encoding: Encoding, i: nat) -> u8 {
    (symbol(data, encoding, i / encoding.spec_bits()) >> ((i % encoding.spec_bits()) as u8)) & 1
}

/// The number whose binary digits are the `n` bits of a text from `pos` on.
pub open spec fn text_digits(data: Seq<u8>, encoding: Encoding, pos: nat, n: nat) -> nat
    decreases n,
{
    if n == 0 {
        0
    } else {
        2 * text_digits(data, encoding, pos, (n - 1) as nat) + text_bit(
            data,
            encoding,
            (pos + n - 1) as nat,
        ) as nat
    }
}

/// The message word for the twenty bits of a text from `pos` on.
pub open spec fn message_word(data: Seq<u8>, encoding: Encoding, pos: nat) -> u32 {
    codeword::sealed((0x80000000 + text_digits(data, encoding, pos, 20) * 0x800) as u32)
}

/// The address word of a message: eighteen bits of the RIC and two function
/// bits.
pub open spec fn address_word(ric: u32, func: u8) -> u32 {
    codeword::sealed((ric as int / 8 % 0x40000 * 0x2000 + func as int % 4 * 0x800) as u32)
}

/// The place of a message in a batch, which the lowest three bits of the RIC
/// select.
pub open spec fn address_slot(ric: u32) -> nat {
    2 * (ric as nat % 8)
}

/// The message that a provider handed out, if it is one to send.
pub open spec fn page_of(reply: Option<message::Message>) -> Option<Page> {
    match reply {
        Some(message::Message { message: message::ProtocolMessage::Pocsag(m) }) => Some(m@),
        _ => None,
    }
}

impl Progress {
    /// A transmission that begins with `page`.
    pub open spec fn start(page: Page) -> Progress {
        Progress {
            phase: Phase::Preamble,
            message: Some(page),
            codewords: PREAMBLE_LENGTH as nat,
            count: 0,
        }
    }

    /// The message being sent.
    pub open spec fn page(self) -> Page {
        self.message->0
    }

    /// What holds of every transmission.
    pub open spec fn wf(self) -> bool {
        &&& self.phase is Preamble ==> self.codewords <= PREAMBLE_LENGTH
        &&& !(self.phase is Preamble) ==> self.codewords <= BATCH_LENGTH
        &&& (self.phase is Preamble || self.phase is AddressWord || self.phase is MessageWord)
            ==> self.message is Some
        &&& self.phase matches Phase::MessageWord(pos, encoding) ==> {
            &&& encoding == self.page().mtype.spec_encoding()
            &&& 0 < self.page().data.len()
            &&& pos <= text_bits(self.page())
            &&& pos % 20 == 0
        }
    }

    /// The next codeword of the batch is the place of the message.
    pub open spec fn at_slot(self) -> bool {
        address_slot(self.page().ric) == BATCH_LENGTH - self.codewords
    }

    /// The transmission is over.
    pub open spec fn ended(self) -> bool {
        self.phase is Terminator && self.codewords == 0
    }

    /// The codeword that comes next, if the transmission is not over.
    pub open spec fn word(self) -> Option<u32> {
        if self.ended() {
            None
        } else if self.codewords == 0 {
            Some(SYNC_WORD)
        } else {
            match self.phase {
                Phase::Preamble => Some(PREAMBLE_WORD),
                Phase::AddressWord => Some(
                    if self.at_slot() {
                        address_word(self.page().ric, self.page().func)
                    } else {
                        IDLE_WORD
                    },
                ),
                Phase::MessageWord(pos, encoding) => Some(
                    message_word(self.page().data, encoding, pos),
                ),
                Phase::Completed | Phase::Terminator => Some(IDLE_WORD),
            }
        }
    }

    /// The codeword that comes next is the last one of the current message.
    pub open spec fn completes_message(self) -> bool {
        self.codewords > 0 && match self.phase {
            Phase::AddressWord => self.at_slot() && self.page().data.len() == 0,
            Phase::MessageWord(pos, encoding) => pos + 20 > text_bits(self.page()),
            _ => false,
        }
    }

    /// Where the transmission stands after the next codeword, not looking
    /// beyond the current message.
    pub open spec fn emitted(self) -> Progress {
        let s = Progress { count: self.count + 1, ..self };
        if self.codewords == 0 {
            match self.phase {
                Phase::Terminator => s,
                Phase::Completed => Progress {
                    phase: Phase::Terminator,
                    codewords: BATCH_LENGTH as nat,
                    ..s
                },
                Phase::Preamble => Progress {
                    phase: Phase::AddressWord,
                    codewords: BATCH_LENGTH as nat,
                    ..s
                },
                _ => Progress { codewords: BATCH_LENGTH as nat, ..s },
            }
        } else {
            let t = Progress { codewords: (self.codewords - 1) as nat, ..s };
            if self.completes_message() {
                t
            } else {
                match self.phase {
                    Phase::AddressWord => if self.at_slot() {
                        Progress {
                            phase: Phase::MessageWord(0, self.page().mtype.spec_encoding()),
                            ..t
                        }
                    } else {
                        t
                    },
                    Phase::MessageWord(pos, encoding) => Progress {
                        phase: Phase::MessageWord(pos + 20, encoding),
                        ..t
                    },
                    _ => t,
                }
            }
        }
    }

    /// The transmission goes on with `page`, or has no message left.
    pub open spec fn resumed(self, page: Option<Page>) -> Progress {
        Progress {
            phase: if page is Some {
                Phase::AddressWord
            } else {
                Phase::Completed
            },
            message: page,
            ..self
        }
    }

    /// Where the transmission stands after the next codeword, if `page` is
    /// what follows the current message.
    pub open spec fn step(self, page: Option<Page>) -> Progress {
        if self.completes_message() {
            self.emitted().resumed(page)
        } else {
            self.emitted()
        }
    }
}

// Current state of the state machine
#[derive(Clone, Copy, Debug)]
enum State {
    Preamble,
    AddressWord,
    // Position in bits. It can exceed the range of lengths, which are in
    // bytes.
    MessageWord(u128, Encoding),
    // Fill the rest of the current batch with idles, then transition to
    // Terminator on the batch boundary.
    Completed,
    // Emit idle words in a final batch following a trailing sync word, then
    // end the transmission. Guarantees that a full sync and idle batch
    // follows the last message word so receivers see a clear end of message
    // and the carrier stays up long enough to commit it.
    Terminator,
}

impl State {
    spec fn phase(self) -> Phase {
        match self {
            State::Preamble => Phase::Preamble,
            State::AddressWord => Phase::AddressWord,
            State::MessageWord(pos, encoding) => Phase::MessageWord(pos as nat, encoding),
            State::Completed => Phase::Completed,
            State::Terminator => Phase::Terminator,
        }
    }
}

/// Lays out messages as POCSAG codewords, one codeword at a time.
#[derive(Debug)]
pub struct Framer {
    // Current state of the state machine
    state: State,
    // Current message being sent
    message: Option<Message>,
    // Number of codewords left in current batch
    codewords: u8,
    // Number of codewords generated
    count: usize,
}

impl View for Framer {
    type V = Progress;

    closed spec fn view(&self) -> Progress {
        Progress {
            phase: self.state.phase(),
            message: match self.message {
                Some(m) => Some(m@),
                None => None,
            },
            codewords: self.codewords as nat,
            count: self.count as nat,
        }
    }
}

impl Framer {
    /// Create a new framer that begins with `first_msg`.
    pub fn new(first_msg: Message) -> (framer: Framer)
        ensures
            framer@ == Progress::start(first_msg@),
            framer@.wf(),
    {
        Framer {
            state: State::Preamble,
            message: Some(first_msg),
            codewords: PREAMBLE_LENGTH,
            count: 0,
        }
    }

    /// Number of codewords generated
    pub fn count(&self) -> (count: usize)
        ensures
            count == self@.count,
    {
        self.count
    }

    /// Continue with the next message, or fill up and end if there is none.
    pub fn resume(&mut self, message: Option<Message>)
        requires
            old(self)@.wf(),
            !(old(self)@.phase is Preamble),
        ensures
            final(self)@ == old(self)@.resumed(
                match message {
                    Some(m) => Some(m@),
                    None => None,
                },
            ),
            final(self)@.wf(),
            final(self)@.codewords == old(self)@.codewords,
            final(self)@.count == old(self)@.count,
            message matches Some(m) ==> final(self)@.phase is AddressWord && final(self)@.message
                == Some(m@),
            message is None ==> final(self)@.phase is Completed,
    {
        self.state = match message {
            Some(_) => State::AddressWord,
            None => State::Completed,
        };
        self.message = message;
    }

    /// Give the next codeword, and tell whether it is the last one of the
    /// current message. If it is, `resume` has to follow.
    pub fn emit(&mut self) -> (next: (Option<u32>, bool))
        requires
            old(self)@.wf(),
            old(self)@.count < usize::MAX,
        ensures
            next.0 == old(self)@.word(),
            next.1 == old(self)@.completes_message(),
            final(self)@ == old(self)@.emitted(),
            final(self)@.wf(),
    {
        self.count += 1;

        match (self.codewords, self.state) {
            // Terminator batch finished: the transmission is over.
            (0, State::Terminator) => (None, false),
            // End of the last batch with a pending message-end: emit the
            // trailing sync word and enter the terminator batch.
            (0, State::Completed) => {
                self.codewords = BATCH_LENGTH;
                self.state = State::Terminator;
                (Some(SYNC_WORD), false)
            },
            // The preamble is completed.
            // Send the sync word and start a new batch with 16 codewords.
            (0, State::Preamble) => {
                self.codewords = BATCH_LENGTH;
                self.state = State::AddressWord;
                (Some(SYNC_WORD), false)
            },
            // No codewords left in the current batch.
            // Send the sync word and start a new batch with 16 codewords.
            (0, _) => {
                self.codewords = BATCH_LENGTH;
                (Some(SYNC_WORD), false)
            },
            // There are still preamble codewords left to send.
            (_, State::Preamble) => {
                self.codewords -= 1;
                (Some(PREAMBLE_WORD), false)
            },
            // Send the address word for the current message
            (codeword, State::AddressWord) => {
                let message: &Message = self.message.as_ref().unwrap();
                let length: usize = message.data.as_str().as_bytes().len();
                let ric: u32 = message.ric;
                let func: u8 = message.func;
                let encoding: Encoding = message.mtype.encoding();

                self.codewords -= 1;

                // Send idle words until the current batch position
                // matches the position required by the subric.
                if is_slot(ric, BATCH_LENGTH - codeword) {
                    if length > 0 {
                        self.state = State::MessageWord(0, encoding);
                    }
                    (Some(encode_address(ric, func)), length == 0)
                } else {
                    (Some(IDLE_WORD), false)
                }
            },
            // Send the next message word of the current message.
            (_, State::MessageWord(pos, encoding)) => {
                let message: &Message = self.message.as_ref().unwrap();
                let text: &[u8] = message.data.as_str().as_bytes();
                let bits: u128 = encoding.bits() as u128;
                let length: u128 = text.len() as u128;
                assert(length * bits <= 7 * length) by (nonlinear_arith)
                    requires
                        bits <= 7,
                ;
                let word: u32 = encode_chunk(text_chunk(text, encoding, pos));
                let pos: u128 = pos + 20;

                self.codewords -= 1;

                // If no symbols are left, the message is completed.
                let completed: bool = pos > length * bits;
                if !completed {
                    self.state = State::MessageWord(pos, encoding);
                }
                (Some(word), completed)
            },
            // No more messages. Fill the rest of the current batch (Completed)
            // or the terminator batch (Terminator) with idle words.
            (_, State::Completed) | (_, State::Terminator) => {
                self.codewords -= 1;
                (Some(IDLE_WORD), false)
            },
        }
    }
}

/// Whether a place in a batch is the one that the RIC selects.
fn is_slot(ric: u32, place: u8) -> (here: bool)
    ensures
        here == (address_slot(ric) == place),
{
    assert((ric & 0b111) << 1 == 2 * (ric % 8)) by (bit_vector);
    ((ric & 0b111) << 1) as u8 == place
}

/// Encode the address word.
pub fn encode_address(ric: u32, func: u8) -> (word: u32)
    ensures
        word == address_word(ric, func),
{
    let addr: u32 = (ric & 0x001ffff8) << 10;
    let bits: u32 = (func as u32 & 0b11) << 11;
    assert(addr | bits == ric / 8 % 0x40000 * 0x2000 + func % 4 * 0x800) by (bit_vector)
        requires
            addr == (ric & 0x001ffff8) << 10,
            bits == (func as u32 & 0b11) << 11,
    ;
    codeword::parity(codeword::crc(addr | bits))
}

/// Encode a message word of twenty bits.
pub fn encode_chunk(chunk: u32) -> (word: u32)
    requires
        chunk < 0x100000,
    ensures
        word == codeword::sealed((0x80000000 + chunk * 0x800) as u32),
{
    assert(0x80000000 | (chunk << 11) == 0x80000000 + chunk * 0x800) by (bit_vector)
        requires
            chunk < 0x100000,
    ;
    codeword::parity(codeword::crc(0x80000000 | (chunk << 11)))
}

/// Symbol `k` of a text, or of what fills the last codeword after it.
fn symbol_at(text: &[u8], encoding: Encoding, k: u128) -> (sym: u8)
    ensures
        sym == symbol(text@, encoding, k as nat),
{
    if k < text.len() as u128 {
        encoding.encode(text[k as usize])
    } else {
        encoding.trailing()
    }
}

/// The twenty bits of `text` from bit `pos` on, the first of them in the most
/// significant place.
pub fn text_chunk(text: &[u8], encoding: Encoding, pos: u128) -> (chunk: u32)
    requires
        pos + 20 <= u128::MAX,
    ensures
        chunk == text_digits(text@, encoding, pos as nat, 20),
        chunk < 0x100000,
{
    let bits: u128 = encoding.bits() as u128;
    let start: u128 = pos;
    let mut pos: u128 = pos;
    let mut chunk: u32 = 0;

    // Get the next symbol and shift it to start with correct bit.
    let mut sym: u8 = symbol_at(text, encoding, pos / bits) >> (pos % bits) as u8;

    for i in 0u8..20
        invariant
            bits == encoding.spec_bits(),
            start + 20 <= u128::MAX,
            pos == start + i,
            sym == symbol(text@, encoding, pos as nat / bits as nat) >> ((pos as nat % bits as nat) as u8),
            chunk == text_digits(text@, encoding, start as nat, i as nat),
    {
        proof {
            lemma_text_digits_bound(text@, encoding, start as nat, i as nat);
            let whole = symbol(text@, encoding, pos as nat / bits as nat);
            let shift = (pos as nat % bits as nat) as u8;
            assert({
                &&& (chunk << 1) | (sym & 1) as u32 == 2 * chunk + (sym & 1)
                &&& sym >> 1 == whole >> (shift + 1) as u8
                &&& forall|any: u8| #[trigger] (any >> 0u8) == any
            }) by (bit_vector)
                requires
                    chunk < 0x80000,
                    shift < 7,
                    sym == whole >> shift,
            ;
        }
        // Add the next bit of the symbol to the codeword.
        chunk = (chunk << 1) | (sym & 1) as u32;

        pos += 1;

        // If all bits are sent, continue with the next symbol.
        if pos % bits == 0 {
            sym = symbol_at(text, encoding, pos / bits);
        } else {
            sym >>= 1;
        }
    }
    proof {
        lemma_text_digits_bound(text@, encoding, start as nat, 20);
    }
    chunk
}

/// A bit is zero or one.
pub proof fn lemma_text_bit_bound(data: Seq<u8>, encoding: Encoding, i: nat)
    ensures
        text_bit(data, encoding, i) <= 1,
{
    let shifted = symbol(data, encoding, i / encoding.spec_bits()) >> ((i
        % encoding.spec_bits()) as u8);
    assert(shifted & 1 <= 1) by (bit_vector);
}

/// A number of `n` binary digits is less than two to the power of `n`.
pub proof fn lemma_text_digits_bound(data: Seq<u8>, encoding: Encoding, pos: nat, n: nat)
    requires
        n <= 20,
    ensures
        text_digits(data, encoding, pos, n) < vstd::arithmetic::power2::pow2(n),
        n < 20 ==> text_digits(data, encoding, pos, n) < 0x80000,
        text_digits(data, encoding, pos, n) < 0x100000,
    decreases n,
{
    vstd::arithmetic::power2::lemma2_to64();
    if n > 0 {
        lemma_text_digits_bound(data, encoding, pos, (n - 1) as nat);
        vstd::arithmetic::power2::lemma_pow2_unfold(n);
        lemma_text_bit_bound(data, encoding, (pos + n - 1) as nat);
    }
    if n < 19 {
        vstd::arithmetic::power2::lemma_pow2_strictly_increases(n, 19);
    }
}

/// A POCSAG message that a provider hands out is sent as it is. A message of
/// another protocol is not sent, and ends the transmission as no message does.
pub proof fn law_pocsag_messages_are_sent(message: Message)
    ensures
        page_of(
            Some(message::Message { message: message::ProtocolMessage::Pocsag(message) }),
        ) == Some(message@),
        page_of(Some(message::Message { message: message::ProtocolMessage::Other })) is None,
        page_of(None) is None,
{
}

} // verus!
