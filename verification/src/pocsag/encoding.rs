//! The two encodings of message text.
use vstd::prelude::*;

verus! {

/// An encoding of message text into symbols of a few bits each.
#[derive(Clone, Copy, Debug, PartialEq, Eq, Structural)]
pub enum Encoding {
    /// Four bits per symbol: digits and a few special characters.
    Numeric,
    /// Seven bits per symbol: ASCII.
    AlphaNum,
}

/// Encoding of numeric messages
pub const NUMERIC: Encoding = Encoding::Numeric;

/// Encoding of alphanumeric messages
pub const ALPHANUM: Encoding = Encoding::AlphaNum;

impl Encoding {
    /// The number of bits per symbol.
    pub open spec fn spec_bits(self) -> nat {
        match self {
            Encoding::Numeric => 4,
            Encoding::AlphaNum => 7,
        }
    }

    /// The symbol that fills what the text leaves of the last codeword: a
    /// space in numeric messages, a null character in alphanumeric ones.
    pub open spec fn spec_trailing(self) -> u8 {
        match self {
            Encoding::Numeric => 0xC,
            Encoding::AlphaNum => 0x0,
        }
    }

    /// The symbol for one byte of text.
    pub open spec fn spec_encode(self, byte: u8) -> u8 {
        match self {
            Encoding::Numeric => numeric_symbol(byte),
            Encoding::AlphaNum => byte,
        }
    }

    /// Number of bits per symbol
    pub fn bits(self) -> (bits: u8)
        ensures
            bits == self.spec_bits(),
    {
        match self {
            Encoding::Numeric => 4,
            Encoding::AlphaNum => 7,
        }
    }

    /// Symbol that fills the rest of the last codeword
    pub fn trailing(self) -> (symbol: u8)
        ensures
            symbol == self.spec_trailing(),
    {
        match self {
            Encoding::Numeric => 0xC,
            Encoding::AlphaNum => 0x0,
        }
    }

    /// Encode one byte of text. Only the lowest `bits` bits of the symbol
    /// are sent, the least significant bit first.
    pub fn encode(self, byte: u8) -> (symbol: u8)
        ensures
            symbol == self.spec_encode(byte),
    {
        match self {
            Encoding::AlphaNum => byte,
            Encoding::Numeric => match byte {
                // 0 to 9
                0x30..=0x39 => byte - 0x30,
                // *
                0x2A => 0xA,
                // U
                0x55 => 0xB,
                // -
                0x2D => 0xD,
                // ) and ]
                0x29 | 0x5D => 0xE,
                // ( and [
                0x28 | 0x5B => 0xF,
                // Space, and in place of anything else
                _ => 0xC,
            },
        }
    }
}

/// The symbol for one character of a numeric message. What numeric pagers
/// cannot show becomes a space.
pub open spec fn numeric_symbol(byte: u8) -> u8 {
    if 0x30 <= byte <= 0x39 {
        (byte - 0x30) as u8
    } else if byte == 0x2A {
        0xA
    } else if byte == 0x55 {
        0xB
    } else if byte == 0x2D {
        0xD
    } else if byte == 0x29 || byte == 0x5D {
        0xE
    } else if byte == 0x28 || byte == 0x5B {
        0xF
    } else {
        0xC
    }
}

/// A numeric symbol tells its character: the digits stand for themselves, and
/// six more symbols for the special characters. All that has no symbol of its
/// own is sent as a space.
pub proof fn law_numeric_symbol_tells_character(byte: u8)
    ensures
        ({
            let symbol = NUMERIC.spec_encode(byte);
            &&& symbol < 16
            &&& symbol < 10 <==> '0' <= byte as char <= '9'
            &&& symbol < 10 ==> byte == '0' as int + symbol
            &&& symbol == 0xA <==> byte as char == '*'
            &&& symbol == 0xB <==> byte as char == 'U'
            &&& symbol == 0xD <==> byte as char == '-'
            &&& symbol == 0xE <==> byte as char == ')' || byte as char == ']'
            &&& symbol == 0xF <==> byte as char == '(' || byte as char == '['
            &&& symbol == 0xC <== byte as char == ' '
        }),
{
}

/// An alphanumeric symbol is the character itself.
pub proof fn law_alphanumeric_symbol_is_character(byte: u8)
    ensures
        ALPHANUM.spec_encode(byte) == byte,
{
}

/// A numeric symbol has four bits, and a space fills up a numeric message. An
/// alphanumeric symbol has seven bits, and a null character fills up an
/// alphanumeric message.
pub proof fn law_symbol_sizes()
    ensures
        NUMERIC.spec_bits() == 4,
        NUMERIC.spec_trailing() == NUMERIC.spec_encode(0x20),
        ALPHANUM.spec_bits() == 7,
        ALPHANUM.spec_trailing() == ALPHANUM.spec_encode(0),
        NUMERIC != ALPHANUM,
{
}

} // verus!
