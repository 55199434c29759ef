//! The transmission of codewords by a modem.
use crate::mmdvm::batch;
use crate::mmdvm::batch::{Action, Batch, POCSAG_CWS_PER_BATCH};
use crate::mmdvm::command;
use crate::mmdvm::command::{MMDVM_MODE_IDLE, MMDVM_POCSAG_DATA, MMDVM_SET_MODE};
use crate::mmdvm::response::{ResponseCode, ResponseFailure};
use vstd::prelude::*;

verus! {

/// What to do next in a transmission.
#[derive(Clone, Copy, Debug, PartialEq, Eq, Structural)]
pub enum SendAction {
    /// Take the next codeword.
    Take,
    /// Write the packet of the batch and read the response.
    Write,
    /// Put the modem in idle mode and read the response.
    SetIdle,
    /// Nothing: the transmission is over.
    Done,
}

/// Where a transmission stands.
pub struct SenderState {
    pub action: SendAction,
    /// The codewords of the current batch.
    pub words: Seq<u32>,
}

/// The frame that puts a modem in idle mode.
pub open spec fn idle_frame() -> Seq<u8> {
    command::header(MMDVM_SET_MODE, 1) + seq![MMDVM_MODE_IDLE]
}

impl SenderState {
    /// A transmission that has not begun.
    pub open spec fn start() -> SenderState {
        SenderState { action: SendAction::Take, words: seq![] }
    }

    /// What holds of every transmission.
    pub open spec fn wf(self) -> bool {
        match self.action {
            SendAction::Take => self.words.len() < POCSAG_CWS_PER_BATCH,
            SendAction::Write => 0 < self.words.len() <= POCSAG_CWS_PER_BATCH,
            SendAction::SetIdle | SendAction::Done => self.words.len() == 0,
        }
    }

    /// Where the transmission stands after the next codeword, or after there
    /// was none.
    pub open spec fn took(self, word: Option<u32>) -> SenderState {
        match word {
            Some(w) => SenderState {
                action: if self.words.len() + 1 < POCSAG_CWS_PER_BATCH {
                    SendAction::Take
                } else {
                    SendAction::Write
                },
                words: self.words.push(w),
            },
            None => SenderState {
                action: if self.words.len() == 0 {
                    SendAction::SetIdle
                } else {
                    SendAction::Write
                },
                words: self.words,
            },
        }
    }

    /// Where the transmission stands after the response to what was written.
    pub open spec fn answered(self, buffer_full: bool) -> SenderState {
        match self.action {
            SendAction::Write => if buffer_full {
                self
            } else {
                SenderState::start()
            },
            SendAction::SetIdle => SenderState { action: SendAction::Done, words: seq![] },
            _ => self,
        }
    }

    /// The bytes to write.
    pub open spec fn bytes(self) -> Seq<u8> {
        match self.action {
            SendAction::Write => batch::packet_of(self.words),
            SendAction::SetIdle => idle_frame(),
            _ => seq![],
        }
    }
}

/// Sends codewords to a modem in complete POCSAG batches (see ITU-R M.584-2
/// Annex 1), and leaves it idle.
#[derive(Debug)]
pub struct Sender {
    action: SendAction,
    words: Vec<u32>,
    batch: Batch,
}

impl View for Sender {
    type V = SenderState;

    closed spec fn view(&self) -> SenderState {
        SenderState { action: self.action, words: self.words@ }
    }
}

impl Sender {
    /// What holds of every sender.
    pub closed spec fn wf(&self) -> bool {
        &&& self@.wf()
        &&& self.action is Write ==> {
            &&& self.batch@.payload == batch::payload_of(self.words@)
            &&& self.batch@.due
        }
    }

    /// Create a new sender.
    pub fn new() -> (sender: Sender)
        ensures
            sender@ == SenderState::start(),
            sender.wf(),
    {
        let words: Vec<u32> = Vec::new();
        let batch: Batch = Batch::new(words.as_slice());
        let sender: Sender = Sender { action: SendAction::Take, words, batch };
        assert(sender@.words =~= SenderState::start().words);
        sender
    }

    /// What to do next.
    pub fn action(&self) -> (action: SendAction)
        ensures
            action == self@.action,
    {
        self.action
    }

    /// The header of the packet to write.
    pub fn header(&self) -> (header: [u8; 3])
        requires
            self.wf(),
            self@.action is Write,
        ensures
            header@ == command::header(MMDVM_POCSAG_DATA, 4 * self@.words.len()),
            header@ == self@.bytes().take(3),
    {
        let header: [u8; 3] = self.batch.header();
        assert(header@ =~= self@.bytes().take(3));
        header
    }

    /// What follows the header in the packet to write.
    pub fn payload(&self) -> (payload: &[u8])
        requires
            self.wf(),
            self@.action is Write,
        ensures
            payload@ == batch::payload_of(self@.words),
            payload@ == self@.bytes().skip(3),
    {
        let payload: &[u8] = self.batch.payload();
        assert(payload@ =~= self@.bytes().skip(3));
        payload
    }

    /// Take in the next codeword, or that there is none.
    pub fn take_word(&mut self, word: Option<u32>)
        requires
            old(self).wf(),
            old(self)@.action is Take,
        ensures
            final(self)@ == old(self)@.took(word),
            final(self).wf(),
    {
        if let Some(word) = word {
            self.words.push(word);
            if self.words.len() < POCSAG_CWS_PER_BATCH {
                return;
            }
        }
        self.batch = Batch::new(self.words.as_slice());
        self.action = match self.batch.action() {
            Action::Finish => SendAction::SetIdle,
            _ => SendAction::Write,
        };
    }

    /// Take in the response to what was written.
    pub fn respond(&mut self, result: &Result<ResponseCode, ResponseFailure>)
        requires
            old(self).wf(),
            old(self)@.action is Write || old(self)@.action is SetIdle,
        ensures
            final(self)@ == old(self)@.answered(batch::is_buffer_full(*result)),
            final(self).wf(),
    {
        match self.action {
            SendAction::SetIdle => {
                self.action = SendAction::Done;
                assert(self@.words =~= seq![]);
            },
            _ => {
                self.batch.record(result);
                if self.batch.action() != Action::Write {
                    self.words.clear();
                    self.action = SendAction::Take;
                    assert(self@.words =~= seq![]);
                }
            },
        }
    }
}

/// A transmission together with the codewords that are yet to be taken, and
/// with how often the modem will have no room for each of the packets to
/// come. It has room for those after them.
pub struct SendRun {
    pub state: SenderState,
    pub rest: Seq<u32>,
    pub refusals: Seq<nat>,
}

/// How often the modem has no room for the next packet.
pub open spec fn refused(refusals: Seq<nat>) -> nat {
    if refusals.len() > 0 {
        refusals[0]
    } else {
        0
    }
}

/// The refusals of the packets after the next one.
pub open spec fn later(refusals: Seq<nat>) -> Seq<nat> {
    if refusals.len() > 0 {
        refusals.drop_first()
    } else {
        refusals
    }
}

impl SendRun {
    /// The transmission of `words`.
    pub open spec fn start(words: Seq<u32>, refusals: Seq<nat>) -> SendRun {
        SendRun { state: SenderState::start(), rest: words, refusals }
    }

    /// The run after the next action.
    pub open spec fn step(self) -> SendRun {
        match self.state.action {
            SendAction::Take => if self.rest.len() > 0 {
                SendRun {
                    state: self.state.took(Some(self.rest[0])),
                    rest: self.rest.drop_first(),
                    ..self
                }
            } else {
                SendRun { state: self.state.took(None), ..self }
            },
            SendAction::Write => if refused(self.refusals) > 0 {
                SendRun {
                    state: self.state.answered(true),
                    refusals: self.refusals.update(0, (self.refusals[0] - 1) as nat),
                    ..self
                }
            } else {
                SendRun {
                    state: self.state.answered(false),
                    refusals: later(self.refusals),
                    ..self
                }
            },
            _ => SendRun { state: self.state.answered(false), ..self },
        }
    }

    /// The run after `n` actions.
    pub open spec fn after(self, n: nat) -> SendRun
        decreases n,
    {
        if n == 0 {
            self
        } else {
            self.after((n - 1) as nat).step()
        }
    }

    /// The bytes written by the first `n` actions.
    pub open spec fn written(self, n: nat) -> Seq<u8>
        decreases n,
    {
        if n == 0 {
            seq![]
        } else {
            self.written((n - 1) as nat) + self.after((n - 1) as nat).state.bytes()
        }
    }
}

/// `n` times the same bytes.
pub open spec fn repeated(bytes: Seq<u8>, n: nat) -> Seq<u8>
    decreases n,
{
    if n == 0 {
        seq![]
    } else {
        bytes + repeated(bytes, (n - 1) as nat)
    }
}

/// The packets of the runs of seventeen codewords of `words`, of which the
/// last may be shorter, and then the idle frame. A packet is repeated as
/// often as it was refused.
pub open spec fn wire_bytes(words: Seq<u32>, refusals: Seq<nat>) -> Seq<u8>
    decreases words.len(),
{
    if words.len() == 0 {
        idle_frame()
    } else if words.len() <= POCSAG_CWS_PER_BATCH {
        repeated(batch::packet_of(words), refused(refusals) + 1) + idle_frame()
    } else {
        repeated(
            batch::packet_of(words.take(POCSAG_CWS_PER_BATCH as int)),
            refused(refusals) + 1,
        ) + wire_bytes(words.skip(POCSAG_CWS_PER_BATCH as int), later(refusals))
    }
}

/// The packets of the runs of seventeen codewords of `words`, of which the
/// last may be shorter.
pub open spec fn packets(words: Seq<u32>) -> Seq<u8>
    decreases words.len(),
{
    if words.len() == 0 {
        seq![]
    } else if words.len() <= POCSAG_CWS_PER_BATCH {
        batch::packet_of(words)
    } else {
        batch::packet_of(words.take(POCSAG_CWS_PER_BATCH as int)) + packets(
            words.skip(POCSAG_CWS_PER_BATCH as int),
        )
    }
}

/// A transmission that is in order stays so, whatever comes.
pub proof fn law_sender_stays_well_formed(state: SenderState, word: Option<u32>, full: bool)
    requires
        state.wf(),
    ensures
        state.action is Take ==> state.took(word).wf(),
        state.answered(full).wf(),
{
}

/// A packet for which the modem had no room stays due, and any other response
/// leads on to the next batch.
pub proof fn law_only_full_buffer_repeats(state: SenderState)
    requires
        state.action is Write,
    ensures
        state.answered(true) == state,
        state.answered(false).action is Take,
        state.answered(false).words.len() == 0,
{
}

/// The bytes that a run has yet to write.
spec fn outstanding(run: SendRun) -> Seq<u8> {
    match run.state.action {
        SendAction::Take => wire_bytes(run.state.words + run.rest, run.refusals),
        SendAction::Write => repeated(
            batch::packet_of(run.state.words),
            refused(run.refusals) + 1,
        ) + wire_bytes(run.rest, later(run.refusals)),
        SendAction::SetIdle => idle_frame(),
        SendAction::Done => seq![],
    }
}

/// One action writes the first of the outstanding bytes, or none.
proof fn lemma_outstanding_step(run: SendRun)
    requires
        run.state.wf(),
    ensures
        outstanding(run) == run.state.bytes() + outstanding(run.step()),
{
    let words = run.state.words;
    let next = run.step();
    match run.state.action {
        SendAction::Take => {
            let all = words + run.rest;
            if run.rest.len() > 0 {
                assert(next.state.words + next.rest =~= all);
                if next.state.action is Write {
                    assert(all.take(17) =~= next.state.words);
                    assert(all.skip(17) =~= next.rest);
                    if all.len() == 17 {
                        assert(all =~= next.state.words);
                    }
                }
            } else {
                assert(all =~= words);
            }
            assert(outstanding(run) =~= run.state.bytes() + outstanding(next));
        },
        SendAction::Write => {
            if refused(run.refusals) > 0 {
                assert(later(next.refusals) =~= later(run.refusals));
            } else {
                assert(next.state.words + next.rest =~= run.rest);
                assert(repeated(batch::packet_of(words), 0) =~= seq![]);
            }
            assert(outstanding(run) =~= run.state.bytes() + outstanding(next));
        },
        SendAction::SetIdle => {
            assert(outstanding(run) =~= run.state.bytes() + outstanding(next));
        },
        SendAction::Done => {
            assert(outstanding(run) =~= run.state.bytes() + outstanding(next));
        },
    }
}

/// What has been written and what is outstanding make up the whole.
proof fn lemma_outstanding(run: SendRun, n: nat)
    requires
        run.state.wf(),
    ensures
        run.after(n).state.wf(),
        run.written(n) + outstanding(run.after(n)) == outstanding(run),
    decreases n,
{
    if n == 0 {
        assert(run.written(0) + outstanding(run.after(0)) =~= outstanding(run));
    } else {
        let m = (n - 1) as nat;
        lemma_outstanding(run, m);
        lemma_outstanding_step(run.after(m));
        assert(run.written(n) + outstanding(run.after(n)) =~= run.written(m) + outstanding(
            run.after(m),
        ));
    }
}

/// A complete transmission writes the packets of all codewords, in order and
/// in runs of seventeen, each as often as the modem had no room for it and
/// once more, and then the idle frame.
pub proof fn law_bytes_on_the_wire(words: Seq<u32>, refusals: Seq<nat>, n: nat)
    requires
        SendRun::start(words, refusals).after(n).state.action is Done,
    ensures
        SendRun::start(words, refusals).written(n) == wire_bytes(words, refusals),
{
    let run = SendRun::start(words, refusals);
    lemma_outstanding(run, n);
    assert(run.written(n) + outstanding(run.after(n)) =~= run.written(n));
    assert(run.state.words + run.rest =~= words);
}

/// A complete transmission to a modem that accepts every packet writes each
/// packet once.
pub proof fn law_accepted_packets_are_written_once(words: Seq<u32>, n: nat)
    requires
        SendRun::start(words, seq![]).after(n).state.action is Done,
    ensures
        SendRun::start(words, seq![]).written(n) == packets(words) + seq![0xE0u8, 4u8, 3u8, 0u8],
{
    law_bytes_on_the_wire(words, seq![], n);
    lemma_accepted(words);
    assert(idle_frame() =~= seq![0xE0u8, 4u8, 3u8, 0u8]);
}

/// Without refusals no packet is repeated.
proof fn lemma_accepted(words: Seq<u32>)
    ensures
        wire_bytes(words, seq![]) == packets(words) + idle_frame(),
    decreases words.len(),
{
    reveal_with_fuel(repeated, 2);
    if words.len() > POCSAG_CWS_PER_BATCH {
        lemma_accepted(words.skip(POCSAG_CWS_PER_BATCH as int));
    }
    assert(wire_bytes(words, seq![]) =~= packets(words) + idle_frame());
}

/// The parts of a transmission in the order in which they follow each other.
spec fn parts_left(action: SendAction) -> nat {
    match action {
        SendAction::Take | SendAction::Write => 2,
        SendAction::SetIdle => 1,
        SendAction::Done => 0,
    }
}

/// A run takes the same course from its second action on.
proof fn lemma_after_step(run: SendRun, n: nat)
    ensures
        run.step().after(n) == run.after(n + 1),
    decreases n,
{
    if n == 0 {
        reveal_with_fuel(SendRun::after, 2);
    } else {
        lemma_after_step(run, (n - 1) as nat);
    }
}

/// How many actions a run has left.
proof fn lemma_run_ends(run: SendRun) -> (n: nat)
    requires
        run.state.wf(),
    ensures
        run.after(n).state.action is Done,
    decreases
            parts_left(run.state.action),
            run.rest.len(),
            run.state.words.len(),
            if run.state.action is Take {
                1nat
            } else {
                0nat
            },
            refused(run.refusals),
{
    if run.state.action is Done {
        0
    } else {
        let m = lemma_run_ends(run.step());
        lemma_after_step(run, m);
        m + 1
    }
}

/// Every transmission of finitely many codewords comes to an end, if the
/// modem has room for every packet at last.
pub proof fn law_sending_ends(words: Seq<u32>, refusals: Seq<nat>)
    ensures
        exists|n: nat| (#[trigger] SendRun::start(words, refusals).after(n)).state.action is Done,
{
    let n = lemma_run_ends(SendRun::start(words, refusals));
    assert(SendRun::start(words, refusals).after(n).state.action is Done);
}

/// Codewords are collected in order, seventeen to a batch. A batch is sent
/// before that only where there is no further codeword, and where there is
/// none at all the modem is left idle.
pub proof fn law_batches_are_filled(state: SenderState, word: u32)
    requires
        state.action is Take,
        state.words.len() < 17,
    ensures
        state.took(Some(word)).words == state.words.push(word),
        state.took(Some(word)).action is Write <==> state.words.len() == 16,
        state.took(Some(word)).action is Take <==> state.words.len() < 16,
        state.took(None).words == state.words,
        state.took(None).action is Write <==> state.words.len() > 0,
        state.took(None).action is SetIdle <==> state.words.len() == 0,
{
}

/// What is written is the packet of the batch, or the frame that sets the
/// mode to idle. After that frame nothing follows, whatever the response.
pub proof fn law_what_is_written(state: SenderState, full: bool)
    requires
        state.words.len() <= 17,
    ensures
        state.action is Write ==> state.bytes() == seq![
            0xE0u8,
            (3 + 4 * state.words.len()) as u8,
            0x50u8,
        ] + batch::payload_of(state.words),
        state.action is SetIdle ==> state.bytes() == seq![0xE0u8, 4u8, 3u8, 0u8],
        state.action is Take || state.action is Done ==> state.bytes().len() == 0,
        state.action is SetIdle ==> state.answered(full).action is Done,
        state.action is Done ==> state.answered(full) == state,
{
    if state.action is Write {
        assert(state.bytes() =~= seq![0xE0u8, (3 + 4 * state.words.len()) as u8, 0x50u8]
            + batch::payload_of(state.words));
    } else if state.action is SetIdle {
        assert(state.bytes() =~= seq![0xE0u8, 4u8, 3u8, 0u8]);
    }
}

/// A transmission begins with its first codeword, and has all of them yet to
/// take.
pub proof fn law_sending_starts_empty(words: Seq<u32>, refusals: Seq<nat>)
    ensures
        SenderState::start().action is Take,
        SenderState::start().words.len() == 0,
        SendRun::start(words, refusals).state == SenderState::start(),
        SendRun::start(words, refusals).rest == words,
        SendRun::start(words, refusals).refusals == refusals,
{
}

/// A run takes each codeword once and in order, and answers each packet: so
/// often with a full buffer as it was to be refused, and then otherwise. It
/// writes what each of its states has to write.
pub proof fn law_run_follows_sender(run: SendRun, n: nat)
    ensures
        run.after(0) == run,
        run.after(n + 1) == run.after(n).step(),
        run.written(0).len() == 0,
        run.written(n + 1) == run.written(n) + run.after(n).state.bytes(),
        run.state.action is Take && run.rest.len() > 0 ==> {
            &&& run.step().state == run.state.took(Some(run.rest[0]))
            &&& run.step().rest == run.rest.skip(1)
            &&& run.step().refusals == run.refusals
        },
        run.state.action is Take && run.rest.len() == 0 ==> {
            &&& run.step().state == run.state.took(None)
            &&& run.step().rest == run.rest
            &&& run.step().refusals == run.refusals
        },
        run.state.action is Write && run.refusals.len() > 0 && run.refusals[0] > 0 ==> {
            &&& run.step().state == run.state.answered(true)
            &&& run.step().rest == run.rest
            &&& run.step().refusals == run.refusals.update(0, (run.refusals[0] - 1) as nat)
        },
        run.state.action is Write && (run.refusals.len() == 0 || run.refusals[0] == 0) ==> {
            &&& run.step().state == run.state.answered(false)
            &&& run.step().rest == run.rest
            &&& run.step().refusals == if run.refusals.len() == 0 {
                run.refusals
            } else {
                run.refusals.skip(1)
            }
        },
{
    assert(run.rest.drop_first() =~= run.rest.skip(1));
    assert(run.refusals.drop_first() =~= run.refusals.skip(1));
}

/// Without codewords nothing is written but the frame that leaves the modem
/// idle.
pub proof fn law_no_codewords_no_packet(refusals: Seq<nat>, n: nat)
    requires
        SendRun::start(seq![], refusals).after(n).state.action is Done,
    ensures
        SendRun::start(seq![], refusals).written(n) == seq![0xE0u8, 4u8, 3u8, 0u8],
{
    law_bytes_on_the_wire(seq![], refusals, n);
    assert(idle_frame() =~= seq![0xE0u8, 4u8, 3u8, 0u8]);
}

/// The first packet carries the first seventeen codewords, or all if there
/// are fewer. If it is accepted, what follows is what is written for the rest.
pub proof fn law_packet_by_packet(words: Seq<u32>, refusals: Seq<nat>, n: nat, m: nat)
    requires
        words.len() > 0,
        refusals.len() > 0 ==> refusals[0] == 0,
        SendRun::start(words, refusals).after(n).state.action is Done,
        ({
            let rest = if words.len() <= 17 {
                seq![]
            } else {
                words.skip(17)
            };
            let later = if refusals.len() > 0 {
                refusals.skip(1)
            } else {
                refusals
            };
            SendRun::start(rest, later).after(m).state.action is Done
        }),
    ensures
        ({
            let first = if words.len() <= 17 {
                words
            } else {
                words.take(17)
            };
            let rest = if words.len() <= 17 {
                seq![]
            } else {
                words.skip(17)
            };
            let later = if refusals.len() > 0 {
                refusals.skip(1)
            } else {
                refusals
            };
            SendRun::start(words, refusals).written(n) == seq![
                0xE0u8,
                (3 + 4 * first.len()) as u8,
                0x50u8,
            ] + batch::payload_of(first) + SendRun::start(rest, later).written(m)
        }),
{
    let first = if words.len() <= 17 {
        words
    } else {
        words.take(17)
    };
    let rest = if words.len() <= 17 {
        seq![]
    } else {
        words.skip(17)
    };
    let after = if refusals.len() > 0 {
        refusals.skip(1)
    } else {
        refusals
    };
    law_bytes_on_the_wire(words, refusals, n);
    law_bytes_on_the_wire(rest, after, m);
    assert(later(refusals) =~= after);
    let packet = batch::packet_of(first);
    assert(packet =~= seq![0xE0u8, (3 + 4 * first.len()) as u8, 0x50u8] + batch::payload_of(first));
    reveal_with_fuel(repeated, 2);
    assert(repeated(packet, 1) =~= packet);
}

/// One more refusal of the first packet is one more copy of it, and changes
/// nothing else.
pub proof fn law_refusal_adds_one_copy(words: Seq<u32>, refusals: Seq<nat>, n: nat, m: nat)
    requires
        words.len() > 0,
        refusals.len() > 0,
        SendRun::start(words, refusals).after(n).state.action is Done,
        SendRun::start(words, refusals.update(0, refusals[0] + 1)).after(m).state.action is Done,
    ensures
        ({
            let first = if words.len() <= 17 {
                words
            } else {
                words.take(17)
            };
            SendRun::start(words, refusals.update(0, refusals[0] + 1)).written(m) == seq![
                0xE0u8,
                (3 + 4 * first.len()) as u8,
                0x50u8,
            ] + batch::payload_of(first) + SendRun::start(words, refusals).written(n)
        }),
{
    let more = refusals.update(0, refusals[0] + 1);
    let first = if words.len() <= 17 {
        words
    } else {
        words.take(17)
    };
    law_bytes_on_the_wire(words, refusals, n);
    law_bytes_on_the_wire(words, more, m);
    assert(later(more) =~= later(refusals));
    let packet = batch::packet_of(first);
    assert(packet =~= seq![0xE0u8, (3 + 4 * first.len()) as u8, 0x50u8] + batch::payload_of(first));
    assert(wire_bytes(words, more) =~= packet + wire_bytes(words, refusals));
}

} // verus!
