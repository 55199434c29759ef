//! Where each codeword of a transmission stands.
//!
//! The places of a transmission are numbered without the preamble and the
//! sync words: place `b` is the codeword with number
//! `18 + b / 16 * 17 + 1 + b % 16`, both numbers counted from zero.
use crate::pocsag::codeword;
use crate::pocsag::encoding;
use crate::pocsag::framer;
use crate::pocsag::framer::Phase;
use crate::pocsag::transmission;
use crate::pocsag::transmission::Run;
use crate::pocsag::Page;
use vstd::prelude::*;

verus! {

/// Message `k` of `pages` has its address at place `at[k]`, and its last
/// codeword just before place `end[k]`. Its address stands at the first place
/// after the message before it that its receiver listens to.
pub open spec fn placed(pages: Seq<Page>, at: Seq<nat>, end: Seq<nat>) -> bool {
    &&& pages.len() > 0
    &&& at.len() == pages.len()
    &&& end.len() == pages.len()
    &&& forall|k: int|
        0 <= k < pages.len() ==> {
            let free = if k == 0 {
                0
            } else {
                end[k - 1]
            };
            &&& free <= #[trigger] at[k] < free + 16
            &&& at[k] % 16 == 2 * (pages[k].ric % 8)
            &&& end[k] == at[k] + 1 + if pages[k].data.len() == 0 {
                0
            } else {
                pages[k].data.len() * (if pages[k].mtype is Numeric {
                    4nat
                } else {
                    7nat
                }) / 20 + 1
            }
        }
}

/// The number of codewords in a transmission whose last message ends before
/// place `end`: the batches up to that place, and one more.
#[verifier::opaque]
spec fn length(end: nat) -> nat {
    18 + 17 * ((end + 15) / 16 + 1)
}

/// The number of codewords left in the batch before codeword `i`.
#[verifier::opaque]
spec fn left(i: nat) -> nat {
    if (i - 18) % 17 == 0 {
        0
    } else {
        (17 - (i - 18) % 17) as nat
    }
}

/// The first place from codeword `i` on.
#[verifier::opaque]
spec fn place(i: nat) -> nat {
    ((i - 18) / 17 * 16 + if (i - 18) % 17 == 0 {
        0
    } else {
        (i - 18) % 17 - 1
    }) as nat
}

/// How places follow each other.
proof fn lemma_place(i: nat)
    requires
        i >= 18,
    ensures
        left(i) <= 16,
        place(18) == 0,
        left(18) == 0,
        left(i) == 0 ==> place(i + 1) == place(i) && left(i + 1) == 16 && place(i) % 16 == 0,
        left(i) > 0 ==> place(i + 1) == place(i) + 1 && left(i + 1) == left(i) - 1 && place(i) % 16
            == 16 - left(i),
{
    reveal(place);
    reveal(left);
}

/// How a transmission ends.
proof fn lemma_length(end: nat, i: nat)
    requires
        i > 18,
    ensures
        length(end) >= 18 + 17,
        place(i) < end ==> i < length(end) - 17,
        i == length(end) ==> left(i) == 0,
        i == length(end) - 17 ==> left(i) == 0,
        i > length(end) - 17 && i < length(end) ==> left(i) > 0,
        left(i) == 0 && end <= place(i) && i < length(end) ==> i == length(end) - 17,
{
    reveal(place);
    reveal(left);
    reveal(length);
}

/// A message ends before those after it.
proof fn lemma_order(pages: Seq<Page>, at: Seq<nat>, end: Seq<nat>, j: int, k: int)
    requires
        placed(pages, at, end),
        0 <= j <= k < pages.len(),
    ensures
        at[j] < end[j] <= end[k],
        j < k ==> end[j] <= at[k],
    decreases k - j,
{
    assert(at[k] < end[k]);
    if j < k {
        lemma_order(pages, at, end, j, k - 1);
    }
}

/// Before codeword `i`, which comes after the preamble and its sync word, the
/// transmission `run` is about to send message `k`, or is sending it, or has
/// sent all messages.
spec fn stands(pages: Seq<Page>, at: Seq<nat>, end: Seq<nat>, i: nat, run: Run, k: int) -> bool {
    let s = run.progress;
    let b = place(i);
    &&& s.codewords == left(i)
    &&& 0 <= k <= pages.len()
    &&& k > 0 ==> end[k - 1] <= b
    &&& k < pages.len() ==> {
        &&& s.message == Some(pages[k])
        &&& run.queue == pages.skip(k + 1)
        &&& b < end[k]
        &&& b <= at[k] ==> s.phase is AddressWord
        &&& b > at[k] ==> s.phase == Phase::MessageWord(
            (20 * (b - at[k] - 1)) as nat,
            pages[k].mtype.spec_encoding(),
        )
    }
    &&& k == pages.len() ==> {
        &&& i <= length(end.last()) - 17 ==> s.phase is Completed
        &&& i > length(end.last()) - 17 ==> s.phase is Terminator
    }
}

/// What a transmission does at a place of message `k`.
proof fn lemma_at_place(pages: Seq<Page>, at: Seq<nat>, end: Seq<nat>, i: nat, run: Run, k: int)
    requires
        placed(pages, at, end),
        i > 18,
        stands(pages, at, end, i, run, k),
        k < pages.len(),
        left(i) > 0,
    ensures
        run.progress.phase is AddressWord ==> (run.progress.at_slot() <==> place(i) == at[k]),
        run.progress.completes_message() <==> place(i) + 1 == end[k],
{
    let page = pages[k];
    let s = run.progress;
    lemma_place(i);
    assert(at[k] < end[k]);
    assert(s.page() == page);
    assert(framer::text_bits(page) == page.data.len() * (if page.mtype is Numeric {
        4nat
    } else {
        7nat
    }));
}

/// The next codeword leads on to the next place.
proof fn lemma_next_place(
    pages: Seq<Page>,
    at: Seq<nat>,
    end: Seq<nat>,
    i: nat,
    run: Run,
    j: int,
) -> (k: int)
    requires
        placed(pages, at, end),
        18 < i < length(end.last()),
        stands(pages, at, end, i, run, j),
    ensures
        i + 1 < length(end.last()) ==> stands(pages, at, end, i + 1, run.step(), k),
        i + 1 == length(end.last()) ==> run.step().progress.ended(),
{
    let last = pages.len() - 1;
    lemma_place(i);
    lemma_length(end.last(), i);
    lemma_length(end.last(), i + 1);
    if j == pages.len() {
        j
    } else {
        lemma_order(pages, at, end, j, last);
        assert(at[j] < end[j]);
        if left(i) == 0 {
            j
        } else {
            lemma_at_place(pages, at, end, i, run, j);
            if place(i) + 1 == end[j] {
                if j < last {
                    assert(pages.skip(j + 1)[0] == pages[j + 1]);
                    assert(pages.skip(j + 1).drop_first() =~= pages.skip(j + 2));
                    lemma_order(pages, at, end, j, j + 1);
                }
                j + 1
            } else {
                j
            }
        }
    }
}

/// Where a transmission stands before codeword `i`.
proof fn lemma_layout(pages: Seq<Page>, at: Seq<nat>, end: Seq<nat>, i: nat) -> (k: int)
    requires
        placed(pages, at, end),
    ensures
        ({
            let run = Run::start(pages[0], pages.skip(1)).after(i);
            &&& run.progress.count == i
            &&& i <= 18 ==> {
                &&& run.progress.phase is Preamble
                &&& run.progress.codewords == 18 - i
                &&& run.progress.message == Some(pages[0])
                &&& run.queue == pages.skip(1)
            }
            &&& 18 < i < length(end.last()) ==> stands(pages, at, end, i, run, k)
            &&& i >= length(end.last()) ==> run.progress.ended()
        }),
    decreases i,
{
    lemma_length(end.last(), 19);
    if i == 0 {
        0
    } else {
        let h = (i - 1) as nat;
        let j = lemma_layout(pages, at, end, h);
        if h < 18 || h >= length(end.last()) {
            0
        } else if h == 18 {
            lemma_place(18);
            assert(at[0] < end[0]);
            0
        } else {
            lemma_next_place(pages, at, end, h, Run::start(pages[0], pages.skip(1)).after(h), j)
        }
    }
}

/// The places of messages are the first free ones where their receivers
/// listen, and every message takes as many places as its whole text needs.
pub proof fn law_places_are_first_free(pages: Seq<Page>, at: Seq<nat>, end: Seq<nat>)
    requires
        pages.len() > 0,
        at.len() == pages.len(),
        end.len() == pages.len(),
    ensures
        placed(pages, at, end) <==> {
            &&& at[0] == 2 * (pages[0].ric % 8)
            &&& forall|k: int|
                0 < k < pages.len() ==> end[k - 1] <= #[trigger] at[k] < end[k - 1] + 16 && at[k]
                    % 16 == 2 * (pages[k].ric % 8)
            &&& forall|k: int|
                0 <= k < pages.len() && pages[k].data.len() == 0 ==> #[trigger] end[k] == at[k] + 1
            &&& forall|k: int|
                0 <= k < pages.len() && pages[k].data.len() > 0 && pages[k].mtype is Numeric
                    ==> #[trigger] end[k] == at[k] + 2 + pages[k].data.len() * 4 / 20
            &&& forall|k: int|
                0 <= k < pages.len() && pages[k].data.len() > 0 && pages[k].mtype is AlphaNum
                    ==> #[trigger] end[k] == at[k] + 2 + pages[k].data.len() * 7 / 20
        },
{
    if placed(pages, at, end) {
        assert(0 <= at[0] < 16);
        assert forall|k: int| 0 <= k < pages.len() implies #[trigger] end[k] > at[k] by {
            assert(at[k] < end[k]);
        }
    }
}

/// Every message has its place.
pub proof fn law_every_message_has_a_place(pages: Seq<Page>)
    requires
        pages.len() > 0,
    ensures
        exists|at: Seq<nat>, end: Seq<nat>| placed(pages, at, end),
    decreases pages.len(),
{
    let last = pages.len() - 1;
    let page = pages[last];
    let (at, end) = if last == 0 {
        (seq![], seq![])
    } else {
        law_every_message_has_a_place(pages.drop_last());
        choose|at: Seq<nat>, end: Seq<nat>| placed(pages.drop_last(), at, end)
    };
    let free = if last == 0 {
        0
    } else {
        end[last - 1]
    };
    let place = (free + (2 * (page.ric % 8) + 16 - free % 16) % 16) as nat;
    let next = place + 1 + if page.data.len() == 0 {
        0
    } else {
        page.data.len() * (if page.mtype is Numeric {
            4nat
        } else {
            7nat
        }) / 20 + 1
    };
    let all_at = at.push(place);
    let all_end = end.push(next);
    assert forall|k: int| 0 <= k < last implies pages[k] == #[trigger] pages.drop_last()[k]
        && all_at[k] == at[k] && all_end[k] == end[k] by {
    }
    assert forall|k: int| 0 <= k < pages.len() implies {
        let free = if k == 0 {
            0
        } else {
            all_end[k - 1]
        };
        &&& free <= #[trigger] all_at[k] < free + 16
        &&& all_at[k] % 16 == 2 * (pages[k].ric % 8)
        &&& all_end[k] == all_at[k] + 1 + if pages[k].data.len() == 0 {
            0
        } else {
            pages[k].data.len() * (if pages[k].mtype is Numeric {
                4nat
            } else {
                7nat
            }) / 20 + 1
        }
    } by {
        if k < last {
            assert(at[k] == all_at[k]);
            assert(pages.drop_last()[k] == pages[k]);
        }
    }
    assert(placed(pages, all_at, all_end));
}

/// A transmission is a preamble of eighteen codewords and then whole batches,
/// each with a sync word at its start. After the batch in which the last
/// message ends there is one more, and nothing follows it.
pub proof fn law_transmission_is_preamble_and_batches(
    pages: Seq<Page>,
    at: Seq<nat>,
    end: Seq<nat>,
    i: nat,
)
    requires
        placed(pages, at, end),
    ensures
        ({
            let word = Run::start(pages[0], pages.skip(1)).after(i).progress.word();
            let n = 18 + 17 * ((end.last() + 15) / 16 + 1);
            &&& i < 18 ==> word == Some(0xAAAAAAAAu32)
            &&& 18 <= i < n && (i - 18) % 17 == 0 ==> word == Some(0x7CD215D8u32)
            &&& i < n <==> word is Some
        }),
{
    let k = lemma_layout(pages, at, end, i);
    reveal(length);
    reveal(left);
}

/// The codeword at a place of a message, and the codeword number of the place.
proof fn lemma_word_at_place(pages: Seq<Page>, at: Seq<nat>, end: Seq<nat>, k: int, b: nat)
    requires
        placed(pages, at, end),
        0 <= k < pages.len(),
        at[k] <= b < end[k],
    ensures
        ({
            let page = pages[k];
            let i = (18 + b / 16 * 17 + 1 + b % 16) as nat;
            let word = Run::start(pages[0], pages.skip(1)).after(i).progress.word();
            &&& b == at[k] ==> word == Some(framer::address_word(page.ric, page.func))
            &&& b > at[k] ==> word == Some(
                framer::message_word(
                    page.data,
                    page.mtype.spec_encoding(),
                    (20 * (b - at[k] - 1)) as nat,
                ),
            )
        }),
{
    let i = (18 + b / 16 * 17 + 1 + b % 16) as nat;
    let last = pages.len() - 1;
    assert(place(i) == b && left(i) > 0) by {
        reveal(place);
        reveal(left);
    }
    lemma_order(pages, at, end, k, last);
    lemma_length(end.last(), i);
    let j = lemma_layout(pages, at, end, i);
    let run = Run::start(pages[0], pages.skip(1)).after(i);
    if j > k {
        lemma_order(pages, at, end, k, j - 1);
    } else if j < k {
        lemma_order(pages, at, end, j, k);
    }
    assert(j == k);
    lemma_at_place(pages, at, end, i, run, k);
}

/// The address of every message stands at its place.
pub proof fn law_address_stands_at_its_place(pages: Seq<Page>, at: Seq<nat>, end: Seq<nat>, k: int)
    requires
        placed(pages, at, end),
        0 <= k < pages.len(),
    ensures
        ({
            let i = (18 + at[k] / 16 * 17 + 1 + at[k] % 16) as nat;
            &&& Run::start(pages[0], pages.skip(1)).after(i).progress.word() matches Some(word)
            &&& word < 0x80000000
            &&& word / 0x2000 == pages[k].ric / 8 % 0x40000
            &&& word / 0x800 % 4 == pages[k].func % 4
            &&& codeword::is_codeword(word)
        }),
{
    assert(at[k] < end[k]);
    lemma_word_at_place(pages, at, end, k, at[k]);
    transmission::law_address_word_holds_address(pages[k].ric, pages[k].func);
    transmission::law_address_word_is_codeword(pages[k].ric, pages[k].func);
}

/// The text of every message follows its address bit by bit, with twenty bits
/// in each codeword, and with filler after it.
pub proof fn law_text_stands_after_its_address(
    pages: Seq<Page>,
    at: Seq<nat>,
    end: Seq<nat>,
    k: int,
    p: nat,
)
    requires
        placed(pages, at, end),
        0 <= k < pages.len(),
        at[k] + 1 + p / 20 < end[k],
    ensures
        ({
            let data = pages[k].data;
            let b = at[k] + 1 + p / 20;
            let i = (18 + b / 16 * 17 + 1 + b % 16) as nat;
            &&& Run::start(pages[0], pages.skip(1)).after(i).progress.word() matches Some(word)
            &&& word >= 0x80000000
            &&& codeword::is_codeword(word)
            &&& word as nat / 0x800 % 0x100000 / vstd::arithmetic::power2::pow2(
                (19 - p % 20) as nat,
            ) % 2 == if pages[k].mtype is AlphaNum {
                if p / 7 < data.len() {
                    (data[p as int / 7] >> (p % 7) as u8) & 1
                } else {
                    0
                }
            } else {
                if p / 4 < data.len() {
                    (encoding::NUMERIC.spec_encode(data[p as int / 4]) >> (p % 4) as u8) & 1
                } else if p % 4 < 2 {
                    0
                } else {
                    1
                }
            }
        }),
{
    let data = pages[k].data;
    let b = at[k] + 1 + p / 20;
    let encoding = pages[k].mtype.spec_encoding();
    lemma_word_at_place(pages, at, end, k, b);
    assert(20 * (b - at[k] - 1) == p / 20 * 20);
    transmission::law_text_bit_is_sent(data, encoding, p);
    transmission::law_message_word_holds_its_bits(data, encoding, (p / 20 * 20) as nat);
    transmission::law_message_word_is_codeword(data, encoding, (p / 20 * 20) as nat);
    transmission::law_bits_of_text(data, p);
}

/// Idle words stand at all places that no message takes.
pub proof fn law_all_other_places_are_idle(pages: Seq<Page>, at: Seq<nat>, end: Seq<nat>, b: nat)
    requires
        placed(pages, at, end),
        b < 16 * ((end.last() + 15) / 16 + 1),
        forall|k: int| 0 <= k < pages.len() ==> !(#[trigger] at[k] <= b < end[k]),
    ensures
        ({
            let i = (18 + b / 16 * 17 + 1 + b % 16) as nat;
            Run::start(pages[0], pages.skip(1)).after(i).progress.word() == Some(0x7A89C197u32)
        }),
{
    let i = (18 + b / 16 * 17 + 1 + b % 16) as nat;
    assert(place(i) == b && left(i) > 0 && i < length(end.last())) by {
        reveal(place);
        reveal(left);
        reveal(length);
    }
    let k = lemma_layout(pages, at, end, i);
    let run = Run::start(pages[0], pages.skip(1)).after(i);
    if k < pages.len() {
        assert(at[k] <= at[k]);
        assert(b < at[k]);
        lemma_at_place(pages, at, end, i, run, k);
    }
}

/// The provider is asked for another message at the last codeword of each
/// message and at no other codeword, and is told how many codewords came
/// before it.
pub proof fn law_provider_is_asked_at_message_ends(
    pages: Seq<Page>,
    at: Seq<nat>,
    end: Seq<nat>,
    i: nat,
)
    requires
        placed(pages, at, end),
    ensures
        ({
            let s = Run::start(pages[0], pages.skip(1)).after(i).progress;
            &&& s.count == i
            &&& s.completes_message() <==> exists|k: int|
                0 <= k < pages.len() && i == 18 + (#[trigger] end[k] - 1) / 16 * 17 + 1 + (end[k]
                    - 1) % 16
        }),
{
    let s = Run::start(pages[0], pages.skip(1)).after(i).progress;
    let j = lemma_layout(pages, at, end, i);
    let run = Run::start(pages[0], pages.skip(1)).after(i);
    let last = pages.len() - 1;
    if 18 < i < length(end.last()) && j < pages.len() && left(i) > 0 {
        lemma_at_place(pages, at, end, i, run, j);
        if place(i) + 1 == end[j] {
            assert(i == 18 + (end[j] - 1) / 16 * 17 + 1 + (end[j] - 1) % 16) by {
                reveal(place);
                reveal(left);
            }
        }
    }
    assert forall|k: int|
        0 <= k < pages.len() && i == 18 + (#[trigger] end[k] - 1) / 16 * 17 + 1 + (end[k] - 1)
            % 16 implies s.completes_message() by {
        lemma_order(pages, at, end, k, last);
        assert(place(i) + 1 == end[k] && left(i) > 0) by {
            reveal(place);
            reveal(left);
        }
        lemma_length(end.last(), i);
        if j > k {
            lemma_order(pages, at, end, k, j - 1);
        } else if j < k {
            lemma_order(pages, at, end, j, k);
        }
    }
}

} // verus!
