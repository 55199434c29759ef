//! Responses of a modem.
use crate::mmdvm::command::{MMDVM_FRAME_START, MMDVM_GET_VERSION};
use crate::mmdvm::nack;
use crate::mmdvm::nack::MmdvmNackReason;
use vstd::prelude::*;

verus! {

// MMDVM command response codes
pub const MMDVM_ACK: u8 = 0x70;

pub const MMDVM_NACK: u8 = 0x7F;

/// Size of the buffer for a response
pub const BUFFER_SIZE: usize = 256;

/// Declares `std::io::Error`, the error of a failed read. Nothing is claimed
/// of it: a value is handed on as it came.
#[verifier::external_type_specification]
#[verifier::external_body]
pub struct ExIoError(std::io::Error);

/// What a modem answers to a command that it accepts.
#[derive(Debug, Clone, PartialEq, Eq)]
pub enum ResponseCode {
    Ack(u8),
    VersionString { desc: String, version: u8 },
}

/// Why there is no such answer.
#[derive(Debug)]
pub enum ResponseFailure {
    Nack(u8, MmdvmNackReason),
    InvalidData(Vec<u8>),
    IoError(std::io::Error),
    Timeout,
}

/// What the bytes received so far amount to.
pub enum Reading {
    /// More bytes are needed.
    Incomplete,
    /// A command has been accepted.
    Ack(u8),
    /// A command has been refused.
    Nack(u8, MmdvmNackReason),
    /// The protocol version, and the description in bytes.
    Version(u8, Seq<u8>),
    /// This is not a response.
    Invalid,
}

/// The buffer once `received` has been read into it. The rest of it is zero.
pub open spec fn buffer_of(received: Seq<u8>) -> Seq<u8> {
    Seq::new(
        BUFFER_SIZE as nat,
        |i: int|
            if i < received.len() {
                received[i]
            } else {
                0
            },
    )
}

/// A response starts with the frame start byte, its length and its code. The
/// length counts these three bytes.
pub open spec fn valid_header(received: Seq<u8>) -> bool {
    &&& received[0] == MMDVM_FRAME_START
    &&& received[1] >= 3
    &&& received[2] == MMDVM_ACK || received[2] == MMDVM_NACK || received[2] == MMDVM_GET_VERSION
}

/// The description in a version string: the rest of the frame, or the rest of
/// the buffer where the frame ends with the version.
pub open spec fn description_in(received: Seq<u8>) -> Seq<u8> {
    if received[1] == 4 {
        buffer_of(received).skip(4)
    } else {
        received.subrange(4, received[1] as int)
    }
}

/// What the bytes received so far amount to. A frame that holds a description
/// which is no text is not a response.
pub open spec fn reading(received: Seq<u8>) -> Reading {
    if received.len() < 3 {
        Reading::Incomplete
    } else if !valid_header(received) {
        Reading::Invalid
    } else if received.len() < received[1] {
        Reading::Incomplete
    } else if received[1] == 4 && received[2] == MMDVM_ACK {
        Reading::Ack(received[3])
    } else if received[1] == 5 && received[2] == MMDVM_NACK {
        Reading::Nack(received[3], nack::reason_of(received[4]))
    } else if received[2] == MMDVM_GET_VERSION && (received[1] == 4 || received[1] > 4
        && vstd::utf8::valid_utf8(description_in(received))) {
        Reading::Version(received[3], description_in(received))
    } else {
        Reading::Invalid
    }
}

/// `result` is what `received` amounts to.
pub open spec fn is_result(
    received: Seq<u8>,
    result: Result<ResponseCode, ResponseFailure>,
) -> bool {
    match reading(received) {
        Reading::Incomplete => false,
        Reading::Ack(ftype) => result == Ok::<_, ResponseFailure>(ResponseCode::Ack(ftype)),
        Reading::Nack(ftype, reason) => result == Err::<ResponseCode, _>(
            ResponseFailure::Nack(ftype, reason),
        ),
        Reading::Version(number, text) => {
            &&& result matches Ok(ResponseCode::VersionString { desc, version })
            &&& version == number
            &&& desc@ == vstd::utf8::decode_utf8(text)
        },
        Reading::Invalid => {
            &&& result matches Err(ResponseFailure::InvalidData(data))
            &&& data@ == buffer_of(received)
        },
    }
}

/// What has become of a response.
#[derive(Debug)]
pub enum Reception {
    /// More bytes are needed.
    Incomplete,
    /// The response is complete, or there is none.
    Complete(Result<ResponseCode, ResponseFailure>),
    /// A version has come, and what comes after it is no text.
    NotText,
}

/// `reception` is what has become of the response once `received` is all
/// that has come.
pub open spec fn is_reception(received: Seq<u8>, reception: Reception) -> bool {
    match reading(received) {
        Reading::Incomplete => reception is Incomplete,
        Reading::Version(_, text) if !vstd::utf8::valid_utf8(text) => reception is NotText,
        _ => reception matches Reception::Complete(result) && is_result(received, result),
    }
}

/// The text that is encoded in `bytes`.
///
/// This is `std::str::from_utf8`, which gives the text if, and only if, the
/// bytes are valid UTF-8.
#[verifier::external_body]
fn utf8_text(bytes: &[u8]) -> (text: Option<&str>)
    ensures
        text is Some <==> vstd::utf8::valid_utf8(bytes@),
        text matches Some(t) ==> t@ == vstd::utf8::decode_utf8(bytes@),
{
    std::str::from_utf8(bytes).ok()
}

/// Collects the bytes of one response.
#[derive(Debug)]
pub struct ResponseReader {
    received: Vec<u8>,
}

impl View for ResponseReader {
    type V = Seq<u8>;

    closed spec fn view(&self) -> Seq<u8> {
        self.received@
    }
}

impl ResponseReader {
    /// A reader that has received nothing yet.
    pub fn new() -> (reader: ResponseReader)
        ensures
            reader@ == Seq::<u8>::empty(),
    {
        ResponseReader { received: Vec::new() }
    }

    /// The number of bytes that the buffer has room for.
    pub fn room(&self) -> (room: usize)
        requires
            self@.len() <= BUFFER_SIZE,
        ensures
            room == BUFFER_SIZE - self@.len(),
    {
        BUFFER_SIZE - self.received.len()
    }

    /// The whole buffer, of which the rest is zero.
    fn buffer(&self) -> (buffer: Vec<u8>)
        requires
            self@.len() <= BUFFER_SIZE,
        ensures
            buffer@ == buffer_of(self@),
    {
        let mut buffer: Vec<u8> = Vec::with_capacity(BUFFER_SIZE);
        for i in 0..BUFFER_SIZE
            invariant
                buffer@ == buffer_of(self@).take(i as int),
        {
            buffer.push(
                if i < self.received.len() {
                    self.received[i]
                } else {
                    0
                },
            );
            assert(buffer@ =~= buffer_of(self@).take(i + 1));
        }
        assert(buffer@ =~= buffer_of(self@));
        buffer
    }

    /// The description in a version string, if it is text.
    fn description(&self) -> (text: Option<String>)
        requires
            4 <= self@.len() <= BUFFER_SIZE,
            4 <= self@[1] <= self@.len(),
        ensures
            text is Some <==> vstd::utf8::valid_utf8(description_in(self@)),
            text matches Some(t) ==> t@ == vstd::utf8::decode_utf8(description_in(self@)),
    {
        let bytes: &Vec<u8> = &self.received;
        let buffer: Vec<u8> = self.buffer();
        let end: usize = if bytes[1] == 4 {
            BUFFER_SIZE
        } else {
            bytes[1] as usize
        };
        assert(buffer@.subrange(4, end as int) =~= description_in(self@));
        match utf8_text(&buffer.as_slice()[4..end]) {
            Some(text) => Some(text.to_owned()),
            None => None,
        }
    }

    /// The result of a response that is complete.
    pub fn result(&self) -> (result: Result<ResponseCode, ResponseFailure>)
        requires
            self@.len() <= BUFFER_SIZE,
            !(reading(self@) is Incomplete),
            reading(self@) matches Reading::Version(_, text) ==> vstd::utf8::valid_utf8(text),
        ensures
            is_result(self@, result),
    {
        let bytes: &Vec<u8> = &self.received;
        if bytes[0] == MMDVM_FRAME_START && bytes[1] == 4 && bytes[2] == MMDVM_ACK {
            return Ok(ResponseCode::Ack(bytes[3]));
        }
        if bytes[0] == MMDVM_FRAME_START && bytes[1] == 5 && bytes[2] == MMDVM_NACK {
            return Err(ResponseFailure::Nack(bytes[3], MmdvmNackReason::from(bytes[4])));
        }
        if bytes[0] == MMDVM_FRAME_START && bytes[1] >= 4 && bytes[2] == MMDVM_GET_VERSION {
            if let Some(desc) = self.description() {
                return Ok(ResponseCode::VersionString { version: bytes[3], desc });
            }
        }
        Err(ResponseFailure::InvalidData(self.buffer()))
    }

    /// Take in the outcome of a read from the modem. A read that gives
    /// nothing has timed out.
    pub fn read(&mut self, outcome: Result<Vec<u8>, std::io::Error>) -> (reception: Reception)
        requires
            old(self)@.len() <= BUFFER_SIZE,
            outcome matches Ok(data) ==> old(self)@.len() + data@.len() <= BUFFER_SIZE,
        ensures
            match outcome {
                Ok(data) => {
                    &&& final(self)@ == old(self)@ + data@
                    &&& data@.len() == 0 ==> reception == Reception::Complete(
                        Err(ResponseFailure::Timeout),
                    )
                    &&& data@.len() > 0 ==> is_reception(final(self)@, reception)
                },
                Err(error) => {
                    &&& final(self)@ == old(self)@
                    &&& reception == Reception::Complete(Err(ResponseFailure::IoError(error)))
                },
            },
    {
        let mut data: Vec<u8> = match outcome {
            // One or more bytes received, or none
            Ok(data) => data,
            // I/O error
            Err(error) => return Reception::Complete(Err(ResponseFailure::IoError(error))),
        };
        // Probably a serial port timeout
        if data.len() == 0 {
            assert(self@ =~= old(self)@ + data@);
            return Reception::Complete(Err(ResponseFailure::Timeout));
        }
        self.received.append(&mut data);

        let bytes: &Vec<u8> = &self.received;
        if bytes.len() < 3 {
            return Reception::Incomplete;
        }
        // Check the magic number and packet type are valid.
        // If they are, then the length ought to be too.
        let valid: bool = bytes[0] == MMDVM_FRAME_START && bytes[1] >= 3 && (bytes[2] == MMDVM_ACK
            || bytes[2] == MMDVM_NACK || bytes[2] == MMDVM_GET_VERSION);
        if valid {
            if bytes.len() < bytes[1] as usize {
                return Reception::Incomplete;
            }
            if bytes[1] == 4 && bytes[2] == MMDVM_GET_VERSION && self.description().is_none() {
                return Reception::NotText;
            }
        }
        Reception::Complete(self.result())
    }
}

/// As long as a response is incomplete, the buffer has room for more of it,
/// so that a read of no bytes can only mean a timeout.
pub proof fn law_room_while_incomplete(received: Seq<u8>)
    requires
        reading(received) is Incomplete,
    ensures
        received.len() < BUFFER_SIZE,
{
}

/// A response may come in any pieces: nothing is made of it before its last
/// byte, and something is made of it then.
pub proof fn law_response_in_pieces(frame: Seq<u8>, n: int)
    requires
        3 <= frame.len(),
        valid_header(frame),
        frame.len() == frame[1],
        0 <= n < frame.len(),
    ensures
        reading(frame.take(n)) is Incomplete,
        !(reading(frame) is Incomplete),
{
}

/// An acknowledgement is read as such, whatever comes after it.
pub proof fn law_ack_is_read(ftype: u8, rest: Seq<u8>)
    ensures
        reading(seq![MMDVM_FRAME_START, 4u8, MMDVM_ACK, ftype] + rest) == Reading::Ack(ftype),
{
}

/// A refusal is read with the command and the reason that the modem gave,
/// whatever comes after it.
pub proof fn law_nack_is_read(ftype: u8, code: u8, rest: Seq<u8>)
    ensures
        reading(seq![MMDVM_FRAME_START, 5u8, MMDVM_NACK, ftype, code] + rest) == Reading::Nack(
            ftype,
            nack::reason_of(code),
        ),
{
}

/// The frame of a version string.
pub open spec fn version_frame(version: u8, text: Seq<u8>) -> Seq<u8> {
    seq![MMDVM_FRAME_START, (text.len() + 4) as u8, MMDVM_GET_VERSION, version] + text
}

/// The frame of a version string holds the version and the whole description,
/// and its length byte counts all of it.
pub proof fn law_version_frame_holds_text(version: u8, text: Seq<u8>)
    requires
        text.len() <= 251,
    ensures
        version_frame(version, text).take(4) == seq![
            0xE0u8,
            version_frame(version, text).len() as u8,
            0u8,
            version,
        ],
        version_frame(version, text).skip(4) == text,
{
    assert(version_frame(version, text).take(4) =~= seq![
        0xE0u8,
        version_frame(version, text).len() as u8,
        0u8,
        version,
    ]);
    assert(version_frame(version, text).skip(4) =~= text);
}

/// A version string is received with the version and the description that the
/// modem gave, whatever comes after it.
pub proof fn law_version_is_read(version: u8, text: Seq<u8>, rest: Seq<u8>, reception: Reception)
    requires
        0 < text.len() <= 251,
        vstd::utf8::valid_utf8(text),
        is_reception(version_frame(version, text) + rest, reception),
    ensures
        reading(version_frame(version, text) + rest) == Reading::Version(version, text),
        reception matches Reception::Complete(Ok(ResponseCode::VersionString { desc, version: v }))
            && v == version && desc@ == vstd::utf8::decode_utf8(text),
{
    let received = version_frame(version, text) + rest;
    assert(description_in(received) =~= text);
}

/// A version string whose description is no text is invalid data, whatever
/// comes after it.
pub proof fn law_version_needs_text(
    version: u8,
    text: Seq<u8>,
    rest: Seq<u8>,
    reception: Reception,
)
    requires
        0 < text.len() <= 251,
        !vstd::utf8::valid_utf8(text),
        is_reception(version_frame(version, text) + rest, reception),
    ensures
        reading(version_frame(version, text) + rest) is Invalid,
        reception matches Reception::Complete(Err(ResponseFailure::InvalidData(data))) && data@
            == buffer_of(version_frame(version, text) + rest),
{
    let received = version_frame(version, text) + rest;
    assert(description_in(received) =~= text);
}

/// Where a frame ends with the version, the description is what comes after
/// it, up to the end of the buffer.
pub proof fn law_description_follows_version(version: u8, rest: Seq<u8>)
    requires
        rest.len() <= 252,
    ensures
        reading(version_frame(version, seq![]) + rest) == Reading::Version(
            version,
            rest + Seq::new((252 - rest.len()) as nat, |i: int| 0u8),
        ),
{
    let received = version_frame(version, seq![]) + rest;
    assert(description_in(received) =~= rest + Seq::new(
        (252 - rest.len()) as nat,
        |i: int| 0u8,
    ));
}

/// A refusal without a reason is no response.
pub proof fn law_nack_needs_reason(ftype: u8, rest: Seq<u8>)
    ensures
        reading(seq![MMDVM_FRAME_START, 4u8, MMDVM_NACK, ftype] + rest) is Invalid,
{
}

/// What a reader reports of a complete response is what it has received.
pub proof fn law_result_is_reception(
    received: Seq<u8>,
    result: Result<ResponseCode, ResponseFailure>,
)
    requires
        reading(received) matches Reading::Version(_, text) ==> vstd::utf8::valid_utf8(text),
    ensures
        is_result(received, result) <==> is_reception(received, Reception::Complete(result)),
{
}

/// An acknowledgement is received with the command that was accepted,
/// whatever comes after it.
pub proof fn law_ack_is_received(ftype: u8, rest: Seq<u8>, reception: Reception)
    requires
        is_reception(seq![0xE0u8, 4u8, 0x70u8, ftype] + rest, reception),
    ensures
        reception == Reception::Complete(Ok(ResponseCode::Ack(ftype))),
{
    law_ack_is_read(ftype, rest);
}

/// A refusal is received with the command and the reason that the modem gave,
/// whatever comes after it.
pub proof fn law_nack_is_received(ftype: u8, code: u8, rest: Seq<u8>, reception: Reception)
    requires
        is_reception(seq![0xE0u8, 5u8, 0x7Fu8, ftype, code] + rest, reception),
    ensures
        code == 1 ==> reception == Reception::Complete(
            Err(ResponseFailure::Nack(ftype, MmdvmNackReason::BadCommand)),
        ),
        code == 2 ==> reception == Reception::Complete(
            Err(ResponseFailure::Nack(ftype, MmdvmNackReason::WrongMode)),
        ),
        code == 3 ==> reception == Reception::Complete(
            Err(ResponseFailure::Nack(ftype, MmdvmNackReason::CommandTooLong)),
        ),
        code == 4 ==> reception == Reception::Complete(
            Err(ResponseFailure::Nack(ftype, MmdvmNackReason::DataIncorrect)),
        ),
        code == 5 ==> reception == Reception::Complete(
            Err(ResponseFailure::Nack(ftype, MmdvmNackReason::BufferFull)),
        ),
        code == 0 || code > 5 ==> reception == Reception::Complete(
            Err(ResponseFailure::Nack(ftype, MmdvmNackReason::Unknown(code))),
        ),
{
    law_nack_is_read(ftype, code, rest);
}

/// The buffer holds what has been received, and zeros after it.
pub proof fn law_buffer_holds_received(received: Seq<u8>)
    requires
        received.len() <= 256,
    ensures
        buffer_of(received) == received + Seq::new((256 - received.len()) as nat, |i: int| 0u8),
{
    assert(buffer_of(received) =~= received + Seq::new(
        (256 - received.len()) as nat,
        |i: int| 0u8,
    ));
}

/// More bytes are needed until the header is there, and then, if it is one of
/// a response, until the length that it names is there. They are needed in no
/// other case.
pub proof fn law_reading_stops_at_frame_end(received: Seq<u8>, reception: Reception)
    requires
        is_reception(received, reception),
    ensures
        reception is Incomplete <==> received.len() < 3 || (received[0] == 0xE0 && 3 <= received[1]
            && received.len() < received[1] && (received[2] == 0x70 || received[2] == 0x7F
            || received[2] == 0)),
{
}

/// What does not start as a response does, and a response whose length is not
/// that of its kind, is invalid data. The whole buffer is reported.
pub proof fn law_anything_else_is_invalid(received: Seq<u8>, reception: Reception)
    requires
        3 <= received.len() <= 256,
        is_reception(received, reception),
        ({
            ||| received[0] != 0xE0
            ||| received[1] < 3
            ||| received[2] != 0x70 && received[2] != 0x7F && received[2] != 0
            ||| received[1] <= received.len() && received[2] == 0x70 && received[1] != 4
            ||| received[1] <= received.len() && received[2] == 0x7F && received[1] != 5
            ||| received[1] <= received.len() && received[2] == 0 && received[1] == 3
        }),
    ensures
        reception matches Reception::Complete(Err(ResponseFailure::InvalidData(data))) && data@
            == received + Seq::new((256 - received.len()) as nat, |i: int| 0u8),
{
    law_buffer_holds_received(received);
}

/// Where a frame ends with the version, what comes after it is the
/// description if it is text. If it is not, there is no response, and this is
/// the only case in which that is so.
pub proof fn law_text_after_version(received: Seq<u8>, reception: Reception)
    requires
        received.len() <= 256,
        is_reception(received, reception),
    ensures
        ({
            let short = received.len() >= 4 && received[0] == 0xE0 && received[1] == 4
                && received[2] == 0;
            let text = received.skip(4) + Seq::new((256 - received.len()) as nat, |i: int| 0u8);
            &&& reception is NotText <==> short && !vstd::utf8::valid_utf8(text)
            &&& short && vstd::utf8::valid_utf8(text) ==> {
                &&& reception matches Reception::Complete(
                    Ok(ResponseCode::VersionString { desc, version }),
                )
                &&& version == received[3]
                &&& desc@ == vstd::utf8::decode_utf8(text)
            }
        }),
{
    if received.len() >= 4 && received[1] == 4 {
        assert(description_in(received) =~= received.skip(4) + Seq::new(
            (256 - received.len()) as nat,
            |i: int| 0u8,
        ));
    }
}

} // verus!
