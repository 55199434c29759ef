# pocsag_mmdvm

A verified library for POCSAG paging transmitters that use an MMDVM modem.

- `src/message.rs`: messages and the trait for those who provide them.
- `src/pocsag/`: the protocol on air. `codeword` computes check bits and parity,
  `encoding` turns text into symbols, `framer` lays out messages as codewords,
  `generator` joins it to a message provider, and `transmission` states what
  holds of a transmission as a whole.
- `src/mmdvm/`: the protocol on the serial line. `command` builds commands,
  `response` reads responses, `nack` explains refusals, `batch` packs codewords,
  and `sender` decides what goes to the modem and when.
- `app/`: the transmitter that drives the serial port.
