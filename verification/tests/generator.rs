use pocsag_mmdvm::message::{Message as OuterMessage, MessageProvider, ProtocolMessage};
use pocsag_mmdvm::pocsag::framer::{encode_address, encode_chunk, text_chunk};
use pocsag_mmdvm::pocsag::framer::{IDLE_WORD, PREAMBLE_LENGTH, PREAMBLE_WORD, SYNC_WORD};
use pocsag_mmdvm::pocsag::generator::select;
use pocsag_mmdvm::pocsag::{encoding, Framer, Generator, Message, MessageType};

struct EmptyProvider;

impl MessageProvider for EmptyProvider {
    fn next(&mut self, _count: usize) -> Option<OuterMessage> {
        None
    }
}

// Hands out its messages from the back and remembers when it was asked.
struct StackProvider {
    messages: Vec<ProtocolMessage>,
    asked: Vec<usize>,
}

impl MessageProvider for StackProvider {
    fn next(&mut self, count: usize) -> Option<OuterMessage> {
        self.asked.push(count);
        self.messages.pop().map(|message| OuterMessage { message })
    }
}

fn message(mtype: MessageType, ric: u32, func: u8, data: &str) -> Message {
    Message { mtype, speed: 1200, ric, func, data: data.to_string() }
}

fn collect<P: MessageProvider + ?Sized>(provider: &mut P, first: Message) -> Vec<u32> {
    let mut generator = Generator::new(provider, first);
    let mut words = Vec::new();
    while let Some(word) = generator.next() {
        words.push(word);
    }
    words
}

fn collect_all(ric: u32, length: usize) -> Vec<u32> {
    let data: String = std::iter::repeat('A').take(length).collect();
    let msg = Message { mtype: MessageType::AlphaNum, speed: 1200, ric, func: 3, data };
    let mut provider = EmptyProvider;
    collect(&mut provider, msg)
}

#[test]
fn terminator_follows_last_message_word() {
    for length in 1..=60usize {
        for ric_lower in 0..=7u32 {
            // Build a RIC where the lower three bits vary; the upper bits
            // are arbitrary but valid.
            let ric = 0x0010_0000 | ric_lower;
            let cws = collect_all(ric, length);

            assert!(
                !cws.is_empty(),
                "no codewords produced (length={}, ric_lower={})",
                length,
                ric_lower
            );

            // The final codeword in the stream must not be a message word.
            let last = *cws.last().unwrap();
            assert_eq!(
                last & 0x80000000,
                0,
                "last codeword is a message word (length={}, ric_lower={}, last=0x{:08X})",
                length,
                ric_lower,
                last
            );

            // At least one IDLE_WORD must appear between the last message
            // word in the stream and the end.
            let last_msg_idx = cws
                .iter()
                .rposition(|&w| w & 0x80000000 != 0)
                .expect("stream must contain at least one message word");
            let after = &cws[last_msg_idx + 1..];
            assert!(
                after.iter().any(|&w| w == IDLE_WORD),
                "no idle word follows the last message word (length={}, ric_lower={}, tail_len={})",
                length,
                ric_lower,
                after.len()
            );
        }
    }
}

#[test]
fn short_alphanumeric_message() {
    let words = collect_all(0x0010_0000, 1);
    let mut expected = vec![0xAAAAAAAA; 18];
    expected.extend_from_slice(&[0x7CD215D8, 0x40001E10, 0xC100057F]);
    expected.extend(vec![0x7A89C197; 14]);
    expected.push(0x7CD215D8);
    expected.extend(vec![0x7A89C197; 16]);
    assert_eq!(words, expected);
}

#[test]
fn numeric_message_ends_with_filler_word() {
    let words = collect(&mut EmptyProvider, message(MessageType::Numeric, 8, 0, "12345"));
    assert_eq!(words.len(), 52);
    assert_eq!(&words[18..23], &[0x7CD215D8, 0x26EC, 0xC261572C, 0x99999F47, 0x7A89C197]);
}

#[test]
fn message_without_text_is_an_address_word() {
    let words = collect(&mut EmptyProvider, message(MessageType::Numeric, 9, 1, ""));
    assert_eq!(words.len(), 52);
    assert_eq!(&words[18..23], &[0x7CD215D8, 0x7A89C197, 0x7A89C197, 0x283F, 0x7A89C197]);
}

#[test]
fn several_messages_in_order() {
    let second = message(MessageType::Numeric, 2, 3, "0*U -)]([x");
    let mut provider =
        StackProvider { messages: vec![ProtocolMessage::Pocsag(second)], asked: Vec::new() };
    let first = message(MessageType::AlphaNum, 1234567, 2, "Hello, World!");
    let words = collect(&mut provider, first);
    assert_eq!(words.len(), 69);
    assert_eq!(
        &words[33..44],
        &[
            0x4B5A14F6, 0x89A668A5, 0x7CD215D8, 0xCDFB3413, 0xC0BAFA10, 0xB4E6C937, 0x9C200448,
            0x1DA5, 0x82E9DF41, 0xBBFF9F24, 0x99999F47,
        ]
    );
    assert!(words[44..52].iter().all(|&word| word == IDLE_WORD));
    assert_eq!(provider.asked, vec![39, 43]);
}

#[test]
fn other_protocol_ends_transmission() {
    let later = message(MessageType::Numeric, 2, 3, "1");
    let mut provider = StackProvider {
        messages: vec![ProtocolMessage::Pocsag(later), ProtocolMessage::Other],
        asked: Vec::new(),
    };
    let words = collect(&mut provider, message(MessageType::AlphaNum, 0x0010_0000, 3, "A"));
    assert_eq!(words, collect_all(0x0010_0000, 1));
    assert_eq!(provider.asked, vec![20]);
}

#[test]
fn batches_start_with_sync_word() {
    for ric in 0..8 {
        let words = collect_all(ric, 200);
        assert_eq!(words.len() % 17, PREAMBLE_LENGTH as usize % 17);
        assert!(words[..18].iter().all(|&word| word == PREAMBLE_WORD));
        assert!(words[18..].iter().step_by(17).all(|&word| word == SYNC_WORD));
        assert_eq!(words[19 + 2 * ric as usize], encode_address(ric, 3));
    }
}

#[test]
fn whole_text_is_sent() {
    let text = "The quick brown fox jumps over the lazy dog";
    let words = collect(&mut EmptyProvider, message(MessageType::AlphaNum, 5, 0, text));
    let mut bits = Vec::new();
    for word in words[18..].iter().filter(|&word| word & 0x80000000 != 0) {
        for i in 0..20 {
            bits.push(word >> (30 - i) & 1);
        }
    }
    assert_eq!(bits.len(), (text.len() * 7 / 20 + 1) * 20);
    for (k, byte) in text.bytes().enumerate() {
        let symbol: u32 = (0..7).map(|j| bits[7 * k + j] << j).sum();
        assert_eq!(symbol, byte as u32);
    }
}

#[test]
fn words_after_preamble_are_codewords() {
    for ric in 0..64 {
        for &word in &collect_all(ric * 0x7FFF, 23)[18..] {
            assert_eq!(word.count_ones() % 2, 0);
            let mut rest = word >> 1;
            for shift in (0..21).rev() {
                if rest >> (shift + 10) & 1 == 1 {
                    rest ^= 0x769 << shift;
                }
            }
            assert_eq!(rest, 0);
        }
    }
}

#[test]
fn end_is_final() {
    let mut provider = EmptyProvider;
    let mut generator = Generator::new(&mut provider, message(MessageType::Numeric, 0, 0, ""));
    for _ in 0..52 {
        assert!(generator.next().is_some());
    }
    assert_eq!(generator.next(), None);
    assert_eq!(generator.next(), None);
    assert_eq!(generator.framer.count(), 54);
}

#[test]
fn provider_may_be_a_trait_object() {
    let mut provider = EmptyProvider;
    let provider: &mut dyn MessageProvider = &mut provider;
    let words = collect(provider, message(MessageType::AlphaNum, 0x0010_0000, 3, "A"));
    assert_eq!(words, collect_all(0x0010_0000, 1));
}

#[test]
fn framer_waits_for_next_message() {
    let mut framer = Framer::new(message(MessageType::Numeric, 0, 0, ""));
    for _ in 0..18 {
        assert_eq!(framer.emit(), (Some(PREAMBLE_WORD), false));
    }
    assert_eq!(framer.emit(), (Some(SYNC_WORD), false));
    assert_eq!(framer.emit(), (Some(encode_address(0, 0)), true));
    framer.resume(Some(message(MessageType::Numeric, 1, 0, "1")));
    assert_eq!(framer.emit(), (Some(IDLE_WORD), false));
    assert_eq!(framer.emit(), (Some(encode_address(1, 0)), false));
    assert_eq!(framer.emit(), (Some(encode_chunk(0x83333)), true));
    framer.resume(None);
    assert_eq!(framer.emit(), (Some(IDLE_WORD), false));
    assert_eq!(framer.count(), 24);
}

#[test]
fn chunks_of_text() {
    // 0x48 and 0x69 with the least significant bits first, then filler.
    assert_eq!(text_chunk(b"Hi", encoding::ALPHANUM, 0), 0b0001001_1001011_000000);
    assert_eq!(text_chunk(b"Hi", encoding::ALPHANUM, 20), 0);
    assert_eq!(text_chunk(b"Hi!", encoding::ALPHANUM, 20), 0);
    assert_eq!(text_chunk(b"Hi?", encoding::ALPHANUM, 20), 0);
    assert_eq!(text_chunk(b"Hi\x7f", encoding::ALPHANUM, 20), 1 << 19);
    assert_eq!(text_chunk(b"1", encoding::NUMERIC, 0), 0b1000_0011_0011_0011_0011);
}

#[test]
fn only_pocsag_messages_are_selected() {
    assert!(select(None).is_none());
    assert!(select(Some(OuterMessage { message: ProtocolMessage::Other })).is_none());
    let pocsag = ProtocolMessage::Pocsag(message(MessageType::Numeric, 7, 1, "5"));
    let selected = select(Some(OuterMessage { message: pocsag })).unwrap();
    assert_eq!((selected.ric, selected.func, selected.data.as_str()), (7, 1, "5"));
}
