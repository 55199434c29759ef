//! What holds of transmissions as a whole.
use crate::pocsag::codeword;
use crate::pocsag::framer;
use crate::pocsag::framer::{Phase, Progress};
use crate::pocsag::framer::{BATCH_LENGTH, IDLE_WORD, PREAMBLE_LENGTH, PREAMBLE_WORD, SYNC_WORD};
use crate::pocsag::{Encoding, Page};
use vstd::prelude::*;

verus! {

/// A transmission together with the messages that its provider has yet to
/// hand out. After them the provider has none.
pub struct Run {
    pub progress: Progress,
    pub queue: Seq<Page>,
}

impl Run {
    /// The transmission of `page` and then `queue`.
    pub open spec fn start(page: Page, queue: Seq<Page>) -> Run {
        Run { progress: Progress::start(page), queue }
    }

    /// The run after the next codeword.
    pub open spec fn step(self) -> Run {
        if self.progress.completes_message() && self.queue.len() > 0 {
            Run {
                progress: self.progress.step(Some(self.queue[0])),
                queue: self.queue.drop_first(),
            }
        } else {
            Run { progress: self.progress.step(None), queue: self.queue }
        }
    }

    /// The run after `n` codewords.
    pub open spec fn after(self, n: nat) -> Run
        decreases n,
    {
        if n == 0 {
            self
        } else {
            self.after((n - 1) as nat).step()
        }
    }

    /// The first `n` codewords.
    pub open spec fn words(self, n: nat) -> Seq<u32> {
        Seq::new(n, |i: int| self.after(i as nat).progress.word()->0)
    }

    /// The run is over after exactly `n` codewords.
    pub open spec fn has_length(self, n: nat) -> bool {
        &&& self.after(n).progress.ended()
        &&& forall|i: nat| i < n ==> !(#[trigger] self.after(i)).progress.ended()
    }
}

/// A transmission that is in order stays so, whatever message comes next.
pub proof fn law_progress_stays_well_formed(progress: Progress, page: Option<Page>)
    requires
        progress.wf(),
    ensures
        progress.step(page).wf(),
{
}

/// A transmission takes the same course as a run if its provider hands out
/// the messages of the run in order.
pub proof fn law_transmission_follows_run(run: Run, page: Option<Page>)
    requires
        run.progress.completes_message() ==> page == if run.queue.len() > 0 {
            Some(run.queue[0])
        } else {
            None
        },
    ensures
        run.progress.step(page) == run.step().progress,
        run.step().queue == if run.progress.completes_message() && run.queue.len() > 0 {
            run.queue.drop_first()
        } else {
            run.queue
        },
{
}

/// Every step of a transmission counts one codeword.
pub proof fn law_every_codeword_counts(progress: Progress, page: Option<Page>)
    ensures
        progress.step(page).count == progress.count + 1,
{
}

/// A transmission that is over stays over.
pub proof fn law_end_is_final(progress: Progress, page: Option<Page>)
    requires
        progress.ended(),
    ensures
        progress.word() is None,
        progress.step(page).ended(),
{
}

/// A transmission that is not over has a next codeword.
pub proof fn law_word_until_end(progress: Progress)
    ensures
        progress.word() is None <==> progress.ended(),
{
}

/// Where in its batch a run stands after `n` codewords.
proof fn lemma_position(page: Page, queue: Seq<Page>, n: nat)
    ensures
        ({
            let s = Run::start(page, queue).after(n).progress;
            &&& s.wf()
            &&& s.phase is Preamble <==> n <= PREAMBLE_LENGTH
            &&& s.phase is Preamble ==> n + s.codewords == PREAMBLE_LENGTH
            &&& !(s.phase is Preamble) && !s.ended() ==> (n - PREAMBLE_LENGTH) % 17 == (17
                - s.codewords) % 17
        }),
    decreases n,
{
    if n > 0 {
        lemma_position(page, queue, (n - 1) as nat);
    }
}

/// After the preamble of eighteen codewords every seventeenth codeword is a
/// sync word.
pub proof fn law_sync_word_starts_every_batch(page: Page, queue: Seq<Page>, n: nat)
    requires
        !Run::start(page, queue).after(n).progress.ended(),
    ensures
        n < PREAMBLE_LENGTH ==> Run::start(page, queue).after(n).progress.word() == Some(
            PREAMBLE_WORD,
        ),
        n >= PREAMBLE_LENGTH && (n - PREAMBLE_LENGTH) % 17 == 0 ==> Run::start(page, queue).after(
            n,
        ).progress.word() == Some(SYNC_WORD),
{
    lemma_position(page, queue, n);
}

/// The address word of a message stands where its receiver listens: in the
/// frame of its batch that the lowest three bits of the RIC select.
pub proof fn law_address_stands_in_its_frame(page: Page, queue: Seq<Page>, n: nat)
    requires
        ({
            let s = Run::start(page, queue).after(n).progress;
            s.phase is AddressWord && s.codewords > 0 && s.at_slot()
        }),
    ensures
        ({
            let s = Run::start(page, queue).after(n).progress;
            &&& s.word() == Some(framer::address_word(s.page().ric, s.page().func))
            &&& (n - PREAMBLE_LENGTH) % 17 == 1 + 2 * (s.page().ric % 8)
        }),
{
    lemma_position(page, queue, n);
}

/// How a run comes to an end: from the terminator batch on nothing but idle
/// words follows the sync word.
proof fn lemma_terminator(page: Page, queue: Seq<Page>, run: Run, n: nat)
    requires
        run == Run::start(page, queue),
        run.after(n).progress.phase is Terminator,
        forall|i: nat| i < n ==> !(#[trigger] run.after(i)).progress.ended(),
    ensures
        ({
            let c = run.after(n).progress.codewords;
            &&& n + c > BATCH_LENGTH
            &&& run.after((n + c - 17) as nat).progress.word() == Some(SYNC_WORD)
            &&& run.after((n + c - 17) as nat).progress.phase is Completed
            &&& forall|i: nat|
                n + c - 17 < i < n ==> (#[trigger] run.after(i)).progress.word() == Some(IDLE_WORD)
        }),
    decreases n,
{
    let m = (n - 1) as nat;
    lemma_position(page, queue, m);
    assert(!run.after(m).progress.ended());
    if run.after(m).progress.phase is Terminator {
        lemma_terminator(page, queue, run, m);
    }
}

/// A transmission that ends does so after a whole number of batches, with a
/// batch that holds a sync word and idle words only. No message word comes
/// later than that, and an idle word is the last codeword of all.
pub proof fn law_terminator_follows_last_message(page: Page, queue: Seq<Page>, n: nat)
    requires
        Run::start(page, queue).has_length(n),
    ensures
        n >= PREAMBLE_LENGTH + 2 * 17,
        (n - PREAMBLE_LENGTH) % 17 == 0,
        Run::start(page, queue).words(n).subrange(n - 17, n as int) == seq![SYNC_WORD] + Seq::new(
            16,
            |i: int| IDLE_WORD,
        ),
        forall|i: int|
            n - 17 <= i < n ==> #[trigger] Run::start(page, queue).words(n)[i] < 0x80000000,
{
    let run = Run::start(page, queue);
    lemma_position(page, queue, n);
    lemma_position(page, queue, (n - 1) as nat);
    lemma_position(page, queue, (n - 17) as nat);
    assert(!run.after((n - 1) as nat).progress.ended());
    lemma_terminator(page, queue, run, n);
    assert(run.words(n).subrange(n - 17, n as int) =~= seq![SYNC_WORD] + Seq::new(
        16,
        |i: int| IDLE_WORD,
    ));
}

/// A run takes the same course from its second codeword on.
proof fn lemma_after_step(run: Run, n: nat)
    ensures
        run.step().after(n) == run.after(n + 1),
    decreases n,
{
    if n == 0 {
        reveal_with_fuel(Run::after, 2);
    } else {
        lemma_after_step(run, (n - 1) as nat);
    }
}

/// The number of messages that a run has yet to complete.
spec fn messages_left(run: Run) -> nat {
    run.queue.len() + match run.progress.phase {
        Phase::Preamble | Phase::AddressWord | Phase::MessageWord(_, _) => 1nat,
        _ => 0nat,
    }
}

/// The phases in the order in which they follow each other.
spec fn phases_left(progress: Progress) -> nat {
    match progress.phase {
        Phase::Preamble => 4,
        Phase::AddressWord => 3,
        Phase::MessageWord(_, _) => 2,
        Phase::Completed => 1,
        Phase::Terminator => 0,
    }
}

/// What a phase has yet to do: the codewords up to the place of the address,
/// or the bits of text.
spec fn work_left(progress: Progress) -> nat {
    match progress.phase {
        Phase::AddressWord => {
            let place = BATCH_LENGTH - framer::address_slot(progress.page().ric);
            if progress.codewords >= place {
                (progress.codewords - place) as nat
            } else {
                (progress.codewords + 17 - place) as nat
            }
        },
        Phase::MessageWord(pos, _) => (framer::text_bits(progress.page()) - pos) as nat,
        _ => progress.codewords,
    }
}

/// A sync word stands between a run and its work.
spec fn sync_due(progress: Progress) -> nat {
    if progress.codewords == 0 {
        1
    } else {
        0
    }
}

/// How many codewords a run has left.
proof fn lemma_run_ends(run: Run) -> (n: nat)
    requires
        run.progress.wf(),
    ensures
        run.has_length(n),
    decreases
            messages_left(run),
            phases_left(run.progress),
            work_left(run.progress),
            sync_due(run.progress),
{
    if run.progress.ended() {
        0
    } else {
        let m = lemma_run_ends(run.step());
        lemma_after_step(run, m);
        assert forall|i: nat| i < m + 1 implies !(#[trigger] run.after(i)).progress.ended() by {
            if i > 0 {
                lemma_after_step(run, (i - 1) as nat);
                assert(!run.step().after((i - 1) as nat).progress.ended());
            }
        }
        m + 1
    }
}

/// Every transmission of finitely many messages comes to an end.
pub proof fn law_transmission_ends(page: Page, queue: Seq<Page>)
    ensures
        exists|n: nat| Run::start(page, queue).has_length(n),
{
    let n = lemma_run_ends(Run::start(page, queue));
    assert(Run::start(page, queue).has_length(n));
}

/// The codeword that comes next belongs to a message.
pub open spec fn carries_message(progress: Progress) -> bool {
    progress.codewords > 0 && match progress.phase {
        Phase::AddressWord => progress.at_slot(),
        Phase::MessageWord(_, _) => true,
        _ => false,
    }
}

/// Those of the first `n` codewords of a run that belong to messages.
pub open spec fn message_codewords(run: Run, n: nat) -> Seq<u32>
    decreases n,
{
    if n == 0 {
        seq![]
    } else {
        let progress = run.after((n - 1) as nat).progress;
        let before = message_codewords(run, (n - 1) as nat);
        if carries_message(progress) {
            before.push(progress.word()->0)
        } else {
            before
        }
    }
}

/// The message words for the text of `page` from bit `pos` on. The last of
/// them holds the first bit after the text.
pub open spec fn text_words(page: Page, pos: nat) -> Seq<u32> {
    Seq::new(
        if page.data.len() == 0 {
            0
        } else {
            ((framer::text_bits(page) - pos) / 20 + 1) as nat
        },
        |k: int| framer::message_word(page.data, page.mtype.spec_encoding(), (pos + 20 * k) as nat),
    )
}

/// The codewords of a message: its address word and its message words.
pub open spec fn page_words(page: Page) -> Seq<u32> {
    seq![framer::address_word(page.ric, page.func)] + text_words(page, 0)
}

/// The codewords of several messages, one message after the other.
pub open spec fn queue_words(queue: Seq<Page>) -> Seq<u32>
    decreases queue.len(),
{
    if queue.len() == 0 {
        seq![]
    } else {
        page_words(queue[0]) + queue_words(queue.drop_first())
    }
}

/// The codewords of messages that a run has yet to send.
spec fn outstanding(run: Run) -> Seq<u32> {
    match run.progress.phase {
        Phase::Preamble | Phase::AddressWord => page_words(run.progress.page()) + queue_words(
            run.queue,
        ),
        Phase::MessageWord(pos, _) => text_words(run.progress.page(), pos) + queue_words(run.queue),
        _ => seq![],
    }
}

/// One step sends the first outstanding codeword, or none.
proof fn lemma_outstanding_step(run: Run)
    requires
        run.progress.wf(),
    ensures
        carries_message(run.progress) ==> outstanding(run) == seq![run.progress.word()->0]
            + outstanding(run.step()),
        !carries_message(run.progress) ==> outstanding(run) == outstanding(run.step()),
{
    let page = run.progress.page();
    if carries_message(run.progress) {
        match run.progress.phase {
            Phase::AddressWord => {
                assert(outstanding(run) =~= seq![run.progress.word()->0] + outstanding(run.step()));
            },
            Phase::MessageWord(pos, _) => {
                let rest = if run.progress.completes_message() {
                    seq![]
                } else {
                    text_words(page, pos + 20)
                };
                assert(text_words(page, pos) =~= seq![run.progress.word()->0] + rest);
                assert(outstanding(run) =~= seq![run.progress.word()->0] + outstanding(run.step()));
            },
            _ => {},
        }
    }
}

/// What has been sent and what is outstanding make up the whole.
proof fn lemma_outstanding(page: Page, queue: Seq<Page>, n: nat)
    ensures
        message_codewords(Run::start(page, queue), n) + outstanding(
            Run::start(page, queue).after(n),
        ) == outstanding(Run::start(page, queue)),
    decreases n,
{
    let run = Run::start(page, queue);
    if n == 0 {
        assert(message_codewords(run, 0) + outstanding(run.after(0)) =~= outstanding(run));
    } else {
        let m = (n - 1) as nat;
        lemma_outstanding(page, queue, m);
        lemma_position(page, queue, m);
        lemma_outstanding_step(run.after(m));
        assert(message_codewords(run, n) + outstanding(run.after(n)) =~= message_codewords(run, m)
            + outstanding(run.after(m)));
    }
}

/// A complete transmission carries every message, in order, and nothing
/// else: the address word and all the message words of each.
pub proof fn law_every_message_is_sent(page: Page, queue: Seq<Page>, n: nat)
    requires
        Run::start(page, queue).has_length(n),
    ensures
        message_codewords(Run::start(page, queue), n) == page_words(page) + queue_words(queue),
{
    lemma_outstanding(page, queue, n);
    assert(message_codewords(Run::start(page, queue), n) =~= message_codewords(
        Run::start(page, queue),
        n,
    ) + outstanding(Run::start(page, queue).after(n)));
}

/// How often the provider is asked during the first `n` codewords of a run.
pub open spec fn requests(run: Run, n: nat) -> nat
    decreases n,
{
    if n == 0 {
        0
    } else {
        let before = requests(run, (n - 1) as nat);
        if run.after((n - 1) as nat).progress.completes_message() {
            before + 1
        } else {
            before
        }
    }
}

/// Every request completes a message, and a run fills up only when no message
/// is left.
proof fn lemma_requests(page: Page, queue: Seq<Page>, n: nat)
    ensures
        ({
            let run = Run::start(page, queue);
            let after = run.after(n);
            &&& requests(run, n) + messages_left(after) == 1 + queue.len()
            &&& after.progress.phase is Completed || after.progress.phase is Terminator
                ==> after.queue.len() == 0
        }),
    decreases n,
{
    if n > 0 {
        lemma_requests(page, queue, (n - 1) as nat);
    }
}

/// A complete transmission asks its provider once for every message: each
/// time for the message after the current one.
pub proof fn law_one_request_per_message(page: Page, queue: Seq<Page>, n: nat)
    requires
        Run::start(page, queue).has_length(n),
    ensures
        requests(Run::start(page, queue), n) == 1 + queue.len(),
        Run::start(page, queue).after(n).queue.len() == 0,
{
    lemma_requests(page, queue, n);
}

/// The twenty bits of a message word stand unchanged below its flag bit, and
/// the flag bit tells message words from address words.
pub proof fn law_message_word_holds_its_bits(data: Seq<u8>, encoding: Encoding, pos: nat)
    ensures
        framer::message_word(data, encoding, pos) >= 0x80000000,
        framer::message_word(data, encoding, pos) / 0x800 % 0x100000 == framer::text_digits(
            data,
            encoding,
            pos,
            20,
        ),
{
    framer::lemma_text_digits_bound(data, encoding, pos, 20);
    codeword::law_seal_keeps_data(
        (0x80000000 + framer::text_digits(data, encoding, pos, 20) * 0x800) as u32,
    );
}

/// An address word holds eighteen bits of the RIC and two function bits, and
/// its flag bit is clear.
pub proof fn law_address_word_holds_address(ric: u32, func: u8)
    ensures
        framer::address_word(ric, func) < 0x80000000,
        framer::address_word(ric, func) / 0x2000 == ric / 8 % 0x40000,
        framer::address_word(ric, func) / 0x800 % 4 == func % 4,
{
    codeword::law_seal_keeps_data(
        (ric as int / 8 % 0x40000 * 0x2000 + func as int % 4 * 0x800) as u32,
    );
}

/// An address word is a POCSAG codeword.
pub proof fn law_address_word_is_codeword(ric: u32, func: u8)
    ensures
        codeword::is_codeword(framer::address_word(ric, func)),
{
    codeword::law_sealed_data_is_codeword(
        (ric as int / 8 % 0x40000 * 0x2000 + func as int % 4 * 0x800) as u32,
    );
}

/// A message word is a POCSAG codeword.
pub proof fn law_message_word_is_codeword(data: Seq<u8>, encoding: Encoding, pos: nat)
    ensures
        codeword::is_codeword(framer::message_word(data, encoding, pos)),
{
    framer::lemma_text_digits_bound(data, encoding, pos, 20);
    codeword::law_sealed_data_is_codeword(
        (0x80000000 + framer::text_digits(data, encoding, pos, 20) * 0x800) as u32,
    );
}

/// The sync word and the idle word are POCSAG codewords: they are what their
/// own data bits are sealed to.
pub proof fn law_fixed_words_are_codewords()
    ensures
        codeword::sealed(0x7CD21000) == SYNC_WORD,
        codeword::sealed(0x7A89C000) == IDLE_WORD,
        codeword::is_codeword(SYNC_WORD),
        codeword::is_codeword(IDLE_WORD),
{
    assert({
        &&& codeword::with_check_bits(0x7CD21000) == SYNC_WORD
        &&& codeword::with_check_bits(0x7A89C000) == 0x7A89C196
        &&& SYNC_WORD | 0 == SYNC_WORD
        &&& 0x7A89C196u32 | 1 == IDLE_WORD
        &&& codeword::xor_bits(SYNC_WORD, 32) == 0
        &&& codeword::xor_bits(0x7A89C196, 32) == 1
        &&& 0x7CD215D8u64 < 1u64 << 32u64
    }) by (bit_vector);
    codeword::lemma_ones_xor(SYNC_WORD, 32);
    codeword::lemma_ones_xor(0x7A89C196, 32);
    codeword::law_sealed_data_is_codeword(0x7CD21000);
    codeword::law_sealed_data_is_codeword(0x7A89C000);
}

/// After the preamble a transmission consists of POCSAG codewords.
pub proof fn law_words_are_codewords(progress: Progress)
    requires
        progress.phase is Preamble ==> progress.codewords == 0,
    ensures
        progress.word() matches Some(word) ==> codeword::is_codeword(word),
{
    law_fixed_words_are_codewords();
    match progress.phase {
        Phase::AddressWord => {
            law_address_word_is_codeword(progress.page().ric, progress.page().func);
        },
        Phase::MessageWord(pos, encoding) => {
            law_message_word_is_codeword(progress.page().data, encoding, pos);
        },
        _ => {},
    }
}

/// A binary digit of a piece of text is a bit of the text.
proof fn lemma_digit(data: Seq<u8>, encoding: Encoding, pos: nat, n: nat, j: nat)
    requires
        j < n <= 20,
    ensures
        framer::text_digits(data, encoding, pos, n) / vstd::arithmetic::power2::pow2(
            (n - 1 - j) as nat,
        ) % 2 == framer::text_bit(data, encoding, pos + j),
    decreases n,
{
    let digits = framer::text_digits(data, encoding, pos, n);
    let before = framer::text_digits(data, encoding, pos, (n - 1) as nat);
    let bit = framer::text_bit(data, encoding, (pos + n - 1) as nat) as nat;
    framer::lemma_text_bit_bound(data, encoding, (pos + n - 1) as nat);
    if j == n - 1 {
        vstd::arithmetic::power2::lemma2_to64();
        assert(vstd::arithmetic::power2::pow2((n - 1 - j) as nat) == 1);
        vstd::arithmetic::div_mod::lemma_div_basics(digits as int);
        assert(digits % 2 == bit);
    } else {
        let k = (n - 2 - j) as nat;
        lemma_digit(data, encoding, pos, (n - 1) as nat, j);
        vstd::arithmetic::power2::lemma_pow2_unfold(k + 1);
        vstd::arithmetic::power2::lemma_pow2_pos(k);
        vstd::arithmetic::div_mod::lemma_div_denominator(
            digits as int,
            2,
            vstd::arithmetic::power2::pow2(k) as int,
        );
        assert(digits / 2 == before);
    }
}

/// Bit `i` of a text can be read off the message word that covers it, counted
/// from the bit after the flag bit.
pub proof fn law_text_bit_is_sent(data: Seq<u8>, encoding: Encoding, i: nat)
    ensures
        framer::message_word(data, encoding, (i / 20 * 20) as nat) as nat / 0x800 % 0x100000
            / vstd::arithmetic::power2::pow2((19 - i % 20) as nat) % 2 == framer::text_bit(
            data,
            encoding,
            i,
        ),
{
    let pos = (i / 20 * 20) as nat;
    law_message_word_holds_its_bits(data, encoding, pos);
    lemma_digit(data, encoding, pos, 20, i % 20);
}

/// Byte `k` of a text is sent as its symbol, the least significant bit first.
pub proof fn law_symbol_is_sent(data: Seq<u8>, encoding: Encoding, k: nat, j: nat)
    requires
        k < data.len(),
        j < encoding.spec_bits(),
    ensures
        framer::text_bit(data, encoding, k * encoding.spec_bits() + j) == (encoding.spec_encode(
            data[k as int],
        ) >> j as u8) & 1,
        k * encoding.spec_bits() + j < data.len() * encoding.spec_bits(),
{
}

/// A run starts with its first message and takes one step for each codeword.
pub proof fn law_run_takes_one_step_per_codeword(page: Page, queue: Seq<Page>, run: Run, n: nat)
    ensures
        Run::start(page, queue).progress == Progress::start(page),
        Run::start(page, queue).queue == queue,
        run.after(0) == run,
        run.after(n + 1) == run.after(n).step(),
        run.words(n).len() == n,
        forall|i: int|
            0 <= i < n && run.after(i as nat).progress.word() is Some ==> Some(
                #[trigger] run.words(n)[i],
            ) == run.after(i as nat).progress.word(),
{
}

/// After the preamble, a codeword that neither starts a batch nor belongs to a
/// message is an idle word.
pub proof fn law_unused_places_are_idle(page: Page, queue: Seq<Page>, n: nat)
    requires
        n > 18,
        (n - 18) % 17 != 0,
        !carries_message(Run::start(page, queue).after(n).progress),
        !Run::start(page, queue).after(n).progress.ended(),
    ensures
        Run::start(page, queue).after(n).progress.word() == Some(0x7A89C197u32),
{
    lemma_position(page, queue, n);
}

/// Every binary digit of a piece of text is a bit of the text, wherever the
/// piece begins.
pub proof fn law_digits_are_text_bits(data: Seq<u8>, encoding: Encoding, pos: nat, j: nat)
    requires
        j < 20,
    ensures
        framer::text_digits(data, encoding, pos, 20) < 0x100000,
        framer::text_digits(data, encoding, pos, 20) / vstd::arithmetic::power2::pow2(
            (19 - j) as nat,
        ) % 2 == framer::text_bit(data, encoding, pos + j),
{
    framer::lemma_text_digits_bound(data, encoding, pos, 20);
    lemma_digit(data, encoding, pos, 20, j);
}

/// The bits of a text are those of its characters, seven or four for each, the
/// least significant bit first. Null characters follow an alphanumeric text,
/// and spaces a numeric one.
pub proof fn law_bits_of_text(data: Seq<u8>, i: nat)
    ensures
        framer::text_bit(data, Encoding::AlphaNum, i) == if i / 7 < data.len() {
            (data[i as int / 7] >> (i % 7) as u8) & 1
        } else {
            0
        },
        framer::text_bit(data, Encoding::Numeric, i) == if i / 4 < data.len() {
            (Encoding::Numeric.spec_encode(data[i as int / 4]) >> (i % 4) as u8) & 1
        } else if i % 4 < 2 {
            0
        } else {
            1
        },
{
    let seventh = (i % 7) as u8;
    let fourth = (i % 4) as u8;
    assert({
        &&& (0u8 >> seventh) & 1 == 0
        &&& (0xCu8 >> fourth) & 1 == if fourth < 2 { 0u8 } else { 1u8 }
    }) by (bit_vector)
        requires
            seventh < 7,
            fourth < 4,
    ;
}

/// The codewords of a message are its address word and as many message words
/// as its whole text takes: twenty bits in each, and at least one bit left
/// over.
pub proof fn law_whole_text_has_words(page: Page)
    ensures
        page.data.len() == 0 ==> page_words(page).len() == 1,
        page.data.len() > 0 && page.mtype is Numeric ==> page_words(page).len() == 2
            + page.data.len() * 4 / 20,
        page.data.len() > 0 && page.mtype is AlphaNum ==> page_words(page).len() == 2
            + page.data.len() * 7 / 20,
        page_words(page)[0] < 0x80000000,
        page_words(page)[0] / 0x2000 == page.ric / 8 % 0x40000,
        page_words(page)[0] / 0x800 % 4 == page.func % 4,
        codeword::is_codeword(page_words(page)[0]),
{
    law_address_word_holds_address(page.ric, page.func);
    law_address_word_is_codeword(page.ric, page.func);
}

/// Every bit of every character of an alphanumeric text can be read off the
/// codewords of its message.
pub proof fn law_every_character_is_sent(page: Page, k: nat, j: nat)
    requires
        page.mtype is AlphaNum,
        k < page.data.len(),
        j < 7,
    ensures
        ({
            let i = 7 * k + j;
            &&& 1 + i / 20 < page_words(page).len()
            &&& page_words(page)[1 + i as int / 20] >= 0x80000000
            &&& page_words(page)[1 + i as int / 20] as nat / 0x800 % 0x100000
                / vstd::arithmetic::power2::pow2((19 - i % 20) as nat) % 2 == (page.data[k as int]
                >> j as u8) & 1
        }),
{
    let i = 7 * k + j;
    law_text_bit_is_sent(page.data, Encoding::AlphaNum, i);
    law_message_word_holds_its_bits(page.data, Encoding::AlphaNum, (i / 20 * 20) as nat);
    law_bits_of_text(page.data, i);
}

/// Every bit of the symbol of every character of a numeric text can be read
/// off the codewords of its message.
pub proof fn law_every_numeric_symbol_is_sent(page: Page, k: nat, j: nat)
    requires
        page.mtype is Numeric,
        k < page.data.len(),
        j < 4,
    ensures
        ({
            let i = 4 * k + j;
            &&& 1 + i / 20 < page_words(page).len()
            &&& page_words(page)[1 + i as int / 20] >= 0x80000000
            &&& page_words(page)[1 + i as int / 20] as nat / 0x800 % 0x100000
                / vstd::arithmetic::power2::pow2((19 - i % 20) as nat) % 2 == (
            Encoding::Numeric.spec_encode(page.data[k as int]) >> j as u8) & 1
        }),
{
    let i = 4 * k + j;
    law_text_bit_is_sent(page.data, Encoding::Numeric, i);
    law_message_word_holds_its_bits(page.data, Encoding::Numeric, (i / 20 * 20) as nat);
    law_bits_of_text(page.data, i);
}

/// The codewords of several messages are those of the first, and then those
/// of the others.
pub proof fn law_messages_follow_each_other(page: Page, queue: Seq<Page>)
    ensures
        queue_words(seq![]).len() == 0,
        queue_words(seq![page] + queue) == page_words(page) + queue_words(queue),
{
    assert((seq![page] + queue).drop_first() =~= queue);
}

/// A complete transmission of a single message consists of the codewords that
/// its whole text takes, and no others belong to it.
pub proof fn law_number_of_codewords(page: Page, n: nat)
    requires
        Run::start(page, seq![]).has_length(n),
    ensures
        page.data.len() == 0 ==> message_codewords(Run::start(page, seq![]), n).len() == 1,
        page.data.len() > 0 && page.mtype is Numeric ==> message_codewords(
            Run::start(page, seq![]),
            n,
        ).len() == 2 + page.data.len() * 4 / 20,
        page.data.len() > 0 && page.mtype is AlphaNum ==> message_codewords(
            Run::start(page, seq![]),
            n,
        ).len() == 2 + page.data.len() * 7 / 20,
{
    law_every_message_is_sent(page, seq![], n);
    law_whole_text_has_words(page);
}

} // verus!
