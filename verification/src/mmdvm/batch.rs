//! Codewords on their way to a modem.
use crate::mmdvm::command;
use crate::mmdvm::command::MMDVM_POCSAG_DATA;
use crate::mmdvm::nack::MmdvmNackReason;
use crate::mmdvm::response::{ResponseCode, ResponseFailure};
use vstd::prelude::*;

verus! {

/// Number of POCSAG codewords in each complete batch
pub const POCSAG_CWS_PER_BATCH: usize = 17;

/// The four bytes of a codeword, the most significant byte first.
pub open spec fn be_bytes(word: u32) -> Seq<u8> {
    seq![
        (word / 0x1000000) as u8,
        (word / 0x10000 % 0x100) as u8,
        (word / 0x100 % 0x100) as u8,
        (word % 0x100) as u8,
    ]
}

/// The bytes of codewords that follow each other.
pub open spec fn payload_of(words: Seq<u32>) -> Seq<u8> {
    Seq::new(4 * words.len(), |i: int| be_bytes(words[i / 4])[i % 4])
}

/// The packet that carries codewords to the modem.
pub open spec fn packet_of(words: Seq<u32>) -> Seq<u8> {
    command::header(MMDVM_POCSAG_DATA, payload_of(words).len()) + payload_of(words)
}

/// The modem asks to send again because its buffer is full.
pub open spec fn is_buffer_full(result: Result<ResponseCode, ResponseFailure>) -> bool {
    result matches Err(ResponseFailure::Nack(_, MmdvmNackReason::BufferFull))
}

/// What to do next with a batch.
#[derive(Clone, Copy, Debug, PartialEq, Eq, Structural)]
pub enum Action {
    /// The batch is empty: there are no more codewords.
    Finish,
    /// Write the packet and read the response.
    Write,
    /// Go on to the next batch.
    NextBatch,
}

/// Where a batch stands.
pub struct BatchState {
    pub payload: Seq<u8>,
    /// The packet has to be written: it has not been yet, or the modem had
    /// no room for it.
    pub due: bool,
}

impl BatchState {
    /// What to do next with the batch.
    pub open spec fn action(self) -> Action {
        if self.payload.len() == 0 {
            Action::Finish
        } else if self.due {
            Action::Write
        } else {
            Action::NextBatch
        }
    }
}

/// A batch of codewords for a modem.
#[derive(Debug)]
pub struct Batch {
    payload: Vec<u8>,
    due: bool,
}

impl View for Batch {
    type V = BatchState;

    closed spec fn view(&self) -> BatchState {
        BatchState { payload: self.payload@, due: self.due }
    }
}

impl Batch {
    /// A batch of these codewords, with its packet due.
    pub fn new(words: &[u32]) -> (batch: Batch)
        ensures
            batch@ == (BatchState { payload: payload_of(words@), due: true }),
            words@.len() > 0 ==> batch@.action() == Action::Write,
            words@.len() == 0 ==> batch@.action() == Action::Finish,
    {
        let mut payload: Vec<u8> = Vec::with_capacity(252);
        for i in 0..words.len()
            invariant
                payload@ == payload_of(words@.take(i as int)),
        {
            let word: u32 = words[i];
            payload.push((word / 0x1000000) as u8);
            payload.push((word / 0x10000 % 0x100) as u8);
            payload.push((word / 0x100 % 0x100) as u8);
            payload.push((word % 0x100) as u8);
            assert(payload@ =~= payload_of(words@.take(i + 1)));
        }
        assert(words@.take(words@.len() as int) =~= words@);
        Batch { payload, due: true }
    }

    /// The header of the packet.
    pub fn header(&self) -> (header: [u8; 3])
        ensures
            header@ == command::header(MMDVM_POCSAG_DATA, self@.payload.len()),
    {
        command::frame_header(MMDVM_POCSAG_DATA, self.payload.as_slice())
    }

    /// What follows the header in the packet.
    pub fn payload(&self) -> (payload: &[u8])
        ensures
            payload@ == self@.payload,
    {
        self.payload.as_slice()
    }

    /// What to do next with the batch.
    pub fn action(&self) -> (action: Action)
        ensures
            action == self@.action(),
    {
        if self.payload.len() == 0 {
            Action::Finish
        } else if self.due {
            Action::Write
        } else {
            Action::NextBatch
        }
    }

    /// Take note of the response to the packet.
    pub fn record(&mut self, result: &Result<ResponseCode, ResponseFailure>)
        ensures
            final(self)@ == (BatchState { due: is_buffer_full(*result), ..old(self)@ }),
    {
        self.due = match result {
            Err(ResponseFailure::Nack(_, MmdvmNackReason::BufferFull)) => true,
            _ => false,
        };
    }
}

/// The modem gets back every codeword from the packet.
pub proof fn law_codewords_can_be_read_back(words: Seq<u32>, i: int)
    requires
        0 <= i < words.len(),
    ensures
        payload_of(words).len() == 4 * words.len(),
        payload_of(words)[4 * i] * 0x1000000 + payload_of(words)[4 * i + 1] * 0x10000 + payload_of(
            words,
        )[4 * i + 2] * 0x100 + payload_of(words)[4 * i + 3] == words[i],
{
    let bytes = be_bytes(words[i]);
    let payload = payload_of(words);
    assert(bytes[0] * 0x1000000 + bytes[1] * 0x10000 + bytes[2] * 0x100 + bytes[3] == words[i]);
    assert forall|j: int| 0 <= j < 4 implies #[trigger] bytes[j] == payload[4 * i + j] by {
        assert((4 * i + j) / 4 == i && (4 * i + j) % 4 == j);
    }
    assert(payload[4 * i + 0] == bytes[0]);
}

/// The length byte of a packet is the length of the packet.
pub proof fn law_length_byte_counts_packet(words: Seq<u32>)
    requires
        words.len() <= POCSAG_CWS_PER_BATCH,
    ensures
        ({
            let payload = payload_of(words);
            let header = command::header(MMDVM_POCSAG_DATA, payload.len());
            header[1] == (header + payload).len()
        }),
{
}

/// Every packet is written at least once. It is written again if, and only
/// if, the modem answers that its buffer is full.
pub proof fn law_every_packet_is_written(
    words: Seq<u32>,
    result: Result<ResponseCode, ResponseFailure>,
)
    requires
        words.len() > 0,
    ensures
        ({
            let state = BatchState { payload: payload_of(words), due: true };
            let next = BatchState { due: is_buffer_full(result), ..state };
            &&& state.action() == Action::Write
            &&& next.action() == Action::Write <==> (result matches Err(
                ResponseFailure::Nack(_, MmdvmNackReason::BufferFull),
            ))
            &&& next.action() != Action::Write ==> next.action() == Action::NextBatch
        }),
{
}

/// The modem asks to send again by one refusal, with the reason that its
/// buffer is full, and by nothing else.
pub proof fn law_full_buffer_is_one_reason(
    ftype: u8,
    reason: MmdvmNackReason,
    result: Result<ResponseCode, ResponseFailure>,
)
    ensures
        is_buffer_full(Err(ResponseFailure::Nack(ftype, reason))) <==> reason
            == MmdvmNackReason::BufferFull,
        result is Ok ==> !is_buffer_full(result),
        result matches Err(failure) && !(failure is Nack) ==> !is_buffer_full(result),
{
}

/// The data of a frame follows its header.
proof fn lemma_frame(cmd: u8, data: Seq<u8>, j: int)
    requires
        data.len() <= 252,
        0 <= j,
        j + 3 < data.len(),
    ensures
        ({
            let frame = command::header(cmd, data.len()) + data;
            &&& frame.len() == 3 + data.len()
            &&& frame[0] == 0xE0
            &&& frame[1] == 3 + data.len()
            &&& frame[2] == cmd
            &&& frame[3 + j] == data[j]
            &&& frame[4 + j] == data[j + 1]
            &&& frame[5 + j] == data[j + 2]
            &&& frame[6 + j] == data[j + 3]
            &&& frame.skip(3) == data
        }),
{
    command::law_header_names_command(cmd, data.len());
    assert((command::header(cmd, data.len()) + data).skip(3) =~= data);
}

/// A packet is a frame with the command for POCSAG data and with four bytes
/// for each codeword, the most significant byte first.
pub proof fn law_packet_carries_codewords(words: Seq<u32>, i: int)
    requires
        0 <= i < words.len() <= POCSAG_CWS_PER_BATCH,
    ensures
        packet_of(words).len() == 3 + 4 * words.len(),
        packet_of(words)[0] == 0xE0,
        packet_of(words)[1] == 3 + 4 * words.len(),
        packet_of(words)[2] == 0x50,
        packet_of(words)[3 + 4 * i] * 0x1000000 + packet_of(words)[4 + 4 * i] * 0x10000
            + packet_of(words)[5 + 4 * i] * 0x100 + packet_of(words)[6 + 4 * i] == words[i],
        packet_of(words).skip(3) == payload_of(words),
{
    law_codewords_can_be_read_back(words, i);
    lemma_frame(MMDVM_POCSAG_DATA, payload_of(words), 4 * i);
}

} // verus!
