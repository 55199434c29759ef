use pocsag_mmdvm::pocsag::codeword::{crc, parity};
use pocsag_mmdvm::pocsag::encoding::{ALPHANUM, NUMERIC};
use pocsag_mmdvm::pocsag::framer::{encode_address, encode_chunk};
use pocsag_mmdvm::pocsag::MessageType;

#[test]
fn check_bits() {
    assert_eq!(crc(0), 0);
    assert_eq!(crc(0x7A89C000), 0x7A89C196);
    assert_eq!(crc(0x7CD21000), 0x7CD215D8);
    assert_eq!(crc(0xFFFFF800), 0xFFFFFFFE);
    assert_eq!(crc(0x80000000), 0x80000768);
    assert_eq!(crc(0x12345800), 0x12345924);
}

// Remainder of the division by the generator polynomial.
fn remainder(mut x: u32) -> u32 {
    for shift in (0..22).rev() {
        if x >> (shift + 10) & 1 == 1 {
            x ^= 0x769 << shift;
        }
    }
    x
}

#[test]
fn checked_codewords_are_divisible() {
    for i in 0..2000u32 {
        let codeword = i.wrapping_mul(0x9E3779B1) & 0xFFFFF800;
        assert_eq!(crc(codeword) & 1, 0);
        assert_eq!(crc(codeword) >> 11, codeword >> 11);
        assert_eq!(remainder(crc(codeword) >> 1), 0);
        assert_eq!(parity(crc(codeword)).count_ones() % 2, 0);
    }
}

#[test]
fn parity_bit() {
    assert_eq!(parity(0), 0);
    assert_eq!(parity(0x80000000), 0x80000001);
    assert_eq!(parity(6), 6);
    assert_eq!(parity(0x7A89C196), 0x7A89C197);
    // The lowest bit is taken already.
    assert_eq!(parity(7), 7);
    for i in 0..2000u32 {
        let codeword = i.wrapping_mul(0x9E3779B1) & 0xFFFFFFFE;
        assert_eq!(parity(codeword).count_ones() % 2, 0);
    }
}

#[test]
fn address_words() {
    assert_eq!(encode_address(8, 0), 0x26EC);
    assert_eq!(encode_address(9, 1), 0x283F);
    assert_eq!(encode_address(1234567, 2), 0x4B5A14F6);
    // Only 21 bits of the RIC and two function bits are sent.
    assert_eq!(encode_address(0xFFE0_0008, 4), 0x26EC);
}

#[test]
fn message_words() {
    assert_eq!(encode_chunk(0), 0x80000769);
    assert_eq!(encode_chunk(0xFFFFF), 0xFFFFFFFF);
    assert_eq!(encode_chunk(0x33333), 0x99999F47);
}

#[test]
fn symbols() {
    assert_eq!(MessageType::Numeric.encoding(), NUMERIC);
    assert_eq!(MessageType::AlphaNum.encoding(), ALPHANUM);
    assert_eq!((NUMERIC.bits(), NUMERIC.trailing()), (4, 0xC));
    assert_eq!((ALPHANUM.bits(), ALPHANUM.trailing()), (7, 0));
    let symbols: Vec<u8> = b"0189*U -)]([x".iter().map(|&b| NUMERIC.encode(b)).collect();
    assert_eq!(symbols, [0, 1, 8, 9, 0xA, 0xB, 0xC, 0xD, 0xE, 0xE, 0xF, 0xF, 0xC]);
    assert_eq!(ALPHANUM.encode(b'A'), 0x41);
}
