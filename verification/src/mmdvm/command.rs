//! Commands to a modem.
use vstd::prelude::*;

verus! {

/// Frame start byte
pub const MMDVM_FRAME_START: u8 = 0xE0;

// MMDVM command codes
pub const MMDVM_GET_VERSION: u8 = 0x00;

pub const MMDVM_SET_CONFIG: u8 = 0x02;

pub const MMDVM_SET_MODE: u8 = 0x03;

pub const MMDVM_SET_FREQ: u8 = 0x04;

pub const MMDVM_POCSAG_DATA: u8 = 0x50;

pub const MMDVM_MODE_IDLE: u8 = 0x00;

/// A command with its data.
#[derive(Debug)]
pub struct Command {
    pub cmd: u8,
    pub data: Vec<u8>,
}

/// The header of the frame for a command with `length` bytes of data. The
/// length byte counts the header too. It holds what fits.
pub open spec fn header(cmd: u8, length: nat) -> Seq<u8> {
    seq![MMDVM_FRAME_START, ((length + 3) % 256) as u8, cmd]
}

/// The header of the frame for a command with this data.
pub fn frame_header(cmd: u8, data: &[u8]) -> (bytes: [u8; 3])
    ensures
        bytes@ == header(cmd, data@.len()),
{
    let length: u8 = ((data.len() % 256 + 3) % 256) as u8;
    let bytes: [u8; 3] = [MMDVM_FRAME_START, length, cmd];
    assert(bytes@ =~= header(cmd, data@.len()));
    bytes
}

/// The data of the command that configures a modem for POCSAG.
pub open spec fn config_data(inverted: bool, level: u8) -> Seq<u8> {
    seq![
        if inverted { 0x90 } else { 0x80 },
        0x20,
        10,
        MMDVM_MODE_IDLE,
        0,
        0,
        0,
        0,
        128,
        0,
        0,
        0,
        0,
        0,
        0,
        0,
        0,
        level,
    ]
}

/// The data of the command that sets the frequencies.
pub open spec fn frequency_data() -> Seq<u8> {
    seq![
        0x0,
        0x2C,
        0xAD,
        0x39,
        0x1A,
        0x2C,
        0xAD,
        0x39,
        0x1A,
        0xFF,
        0x2C,
        0xAD,
        0x39,
        0x1A,
    ]
}

/// The command that asks for protocol version and description.
pub fn get_version() -> (command: Command)
    ensures
        command.cmd == MMDVM_GET_VERSION,
        command.data@ == Seq::<u8>::empty(),
{
    Command { cmd: MMDVM_GET_VERSION, data: Vec::new() }
}

/// The command that configures a modem for POCSAG.
pub fn set_config(inverted: bool, level: u8) -> (command: Command)
    ensures
        command.cmd == MMDVM_SET_CONFIG,
        command.data@ == config_data(inverted, level),
{
    let invert: u8 = if inverted { 1 } else { 0 };
    assert(1u8 << 4 | 0x80 == 0x90 && 0u8 << 4 | 0x80 == 0x80) by (bit_vector);
    let data: Vec<u8> = vec![
        // Invert, deviation and duplex settings
        invert << 4 | 0x80,
        // Enable POCSAG and disable all other modes
        0x20,
        // TXdelay in 10ms units
        10,
        // Idle mode
        MMDVM_MODE_IDLE,
        // RXLevel (not needed)
        0,
        // CW ID TX level (not needed)
        0,
        // DMR color code (not needed)
        0,
        // DMR delay (not needed)
        0,
        // Was OscOffset (not needed)
        128,
        // DStar TX Level (not needed)
        0,
        // DMR TX Level (not needed)
        0,
        // YSF TX Level (not needed)
        0,
        // P25 TX Level (not needed)
        0,
        // TX DC offset (not needed)
        0,
        // RX DC offset (not needed)
        0,
        // NXDN TX Level (not needed)
        0,
        // YSF TX hang time (not needed)
        0,
        // POCSAG TX level
        level,
    ];
    assert(data@ =~= config_data(inverted, level));
    Command { cmd: MMDVM_SET_CONFIG, data }
}

/// The command that sets the frequencies.
pub fn set_frequency() -> (command: Command)
    ensures
        command.cmd == MMDVM_SET_FREQ,
        command.data@ == frequency_data(),
{
    let data: Vec<u8> = vec![
        0x0,
        // freq_rx
        0x2C,
        0xAD,
        0x39,
        0x1A,
        // freq_tx
        0x2C,
        0xAD,
        0x39,
        0x1A,
        // rf_power,
        0xFF,
        // pocsag_freq_tx
        0x2C,
        0xAD,
        0x39,
        0x1A,
    ];
    assert(data@ =~= frequency_data());
    Command { cmd: MMDVM_SET_FREQ, data }
}

/// The command that puts a modem in idle mode.
pub fn set_idle() -> (command: Command)
    ensures
        command.cmd == MMDVM_SET_MODE,
        command.data@ == seq![MMDVM_MODE_IDLE],
{
    let data: Vec<u8> = vec![MMDVM_MODE_IDLE];
    assert(data@ =~= seq![MMDVM_MODE_IDLE]);
    Command { cmd: MMDVM_SET_MODE, data }
}

/// The commands that initialize a modem, in order. A response follows each.
pub fn init_commands(inverted: bool, level: u8) -> (commands: Vec<Command>)
    ensures
        commands@.len() == 3,
        commands@[0].cmd == MMDVM_GET_VERSION,
        commands@[0].data@ == Seq::<u8>::empty(),
        commands@[1].cmd == MMDVM_SET_CONFIG,
        commands@[1].data@ == config_data(inverted, level),
        commands@[2].cmd == MMDVM_SET_FREQ,
        commands@[2].data@ == frequency_data(),
{
    vec![get_version(), set_config(inverted, level), set_frequency()]
}

/// The length byte of a frame is the length of the frame, as long as a byte
/// can hold it.
pub proof fn law_length_byte_counts_frame(cmd: u8, data: Seq<u8>)
    requires
        data.len() <= 252,
    ensures
        header(cmd, data.len())[1] == (header(cmd, data.len()) + data).len(),
{
}

/// A frame starts with the frame start byte, and carries its length and its
/// command, whatever these are.
pub proof fn law_header_names_command(cmd: u8, length: nat)
    ensures
        header(cmd, length).len() == 3,
        header(cmd, length)[0] == 0xE0,
        header(cmd, length)[1] == (length + 3) % 256,
        header(cmd, length)[2] == cmd,
{
}

/// A modem is configured for POCSAG and nothing else, with a delay of 100 ms
/// and the given level. Whether its output is inverted is one bit of the first
/// byte, and nothing else depends on it.
pub proof fn law_config_enables_pocsag(inverted: bool, level: u8)
    ensures
        config_data(inverted, level).len() == 18,
        config_data(inverted, level)[0] == 0x80 + if inverted {
            0x10int
        } else {
            0int
        },
        config_data(inverted, level)[1] == 0x20,
        config_data(inverted, level)[2] == 10,
        config_data(inverted, level)[3] == 0,
        config_data(inverted, level)[8] == 128,
        config_data(inverted, level)[17] == level,
        forall|i: int|
            4 <= i < 17 && i != 8 ==> #[trigger] config_data(inverted, level)[i] == 0,
        config_data(inverted, level).skip(1) == config_data(!inverted, level).skip(1),
{
    assert(config_data(inverted, level).skip(1) =~= config_data(!inverted, level).skip(1));
}

/// The number that four bytes stand for, the least significant byte first.
pub open spec fn le_number(bytes: Seq<u8>) -> nat {
    (bytes[0] + bytes[1] * 0x100 + bytes[2] * 0x10000 + bytes[3] * 0x1000000) as nat
}

/// A modem receives, sends and pages on 439.9875 MHz, with full power.
pub proof fn law_frequencies_are_equal()
    ensures
        frequency_data().len() == 14,
        frequency_data()[0] == 0,
        le_number(frequency_data().subrange(1, 5)) == 439987500,
        le_number(frequency_data().subrange(5, 9)) == 439987500,
        frequency_data()[9] == 0xFF,
        le_number(frequency_data().subrange(10, 14)) == 439987500,
{
}

} // verus!
