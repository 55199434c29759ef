//! Check bits of a POCSAG codeword.
use vstd::prelude::*;

verus! {

/// The generator polynomial x^10 + x^9 + x^8 + x^6 + x^5 + x^3 + 1, aligned
/// to the most significant bit of a codeword.
pub const GENERATOR: u32 = 0xED200000;

/// One step of the long division over GF(2): if bit `31 - i` of the running
/// remainder is set, subtract the generator polynomial aligned to that bit.
pub open spec fn division_step(remainder: u32, i: u32) -> u32 {
    if remainder & (0x80000000u32 >> i) != 0 {
        remainder ^ (GENERATOR >> i)
    } else {
        remainder
    }
}

/// What is left of `codeword` after the first `steps` steps of the division
/// by the generator polynomial.
pub open spec fn remainder(codeword: u32, steps: nat) -> u32
    decreases steps,
{
    if steps == 0 {
        codeword
    } else {
        division_step(remainder(codeword, (steps - 1) as nat), (steps - 1) as u32)
    }
}

/// `codeword` together with its check bits: the remainder of the complete
/// division, in bits 10 to 1. Bit 0 is left to the parity.
pub open spec fn with_check_bits(codeword: u32) -> u32 {
    codeword | remainder(codeword, 21)
}

/// The number of one bits of `x`.
pub open spec fn ones(x: u32) -> nat
    decreases x,
{
    if x == 0 {
        0
    } else {
        (x % 2) as nat + ones(x / 2)
    }
}

/// `codeword` with the lowest bit set if the number of its one bits is odd.
pub open spec fn with_parity_bit(codeword: u32) -> u32 {
    codeword | (ones(codeword) % 2) as u32
}

/// `codeword` as it goes on air, with check bits and parity bit.
pub open spec fn sealed(codeword: u32) -> u32 {
    with_parity_bit(with_check_bits(codeword))
}

/// The product over GF(2) of the polynomial with coefficients `q` and the
/// generator polynomial.
pub open spec fn times_generator(q: u32) -> u32
    decreases q,
{
    if q == 0 {
        0
    } else {
        (if q % 2 == 1 {
            0x769u32
        } else {
            0u32
        }) ^ (times_generator(q / 2) << 1)
    }
}

/// `x`, as a polynomial over GF(2), is a multiple of the generator polynomial.
pub open spec fn divisible(x: u32) -> bool {
    exists|q: u32| q < 0x400000 && #[trigger] times_generator(q) == x
}

/// `word` is a POCSAG codeword: the number of its one bits is even, and
/// without the parity bit it is a multiple of the generator polynomial.
pub open spec fn is_codeword(word: u32) -> bool {
    &&& ones(word) % 2 == 0
    &&& divisible(word / 2)
}

/// Exclusive or of the lowest `n` bits of `x`.
pub open spec fn xor_bits(x: u32, n: nat) -> u32
    decreases n,
{
    if n == 0 {
        0
    } else {
        (x & 1) ^ xor_bits(x >> 1, (n - 1) as nat)
    }
}

/// Calculate the CRC for a codeword and return the updated codeword.
pub fn crc(codeword: u32) -> (coded: u32)
    ensures
        coded == with_check_bits(codeword),
{
    let mut crc: u32 = codeword;
    for i in 0u32..21
        invariant
            crc == remainder(codeword, i as nat),
    {
        if (crc & (0x80000000u32 >> i)) != 0 {
            crc ^= GENERATOR >> i;
        }
    }
    codeword | crc
}

/// Calculate the parity bit for a codeword and return the updated codeword.
pub fn parity(codeword: u32) -> (coded: u32)
    ensures
        coded == with_parity_bit(codeword),
{
    let mut parity: u32 = codeword ^ (codeword >> 1);
    parity ^= parity >> 2;
    parity ^= parity >> 4;
    parity ^= parity >> 8;
    parity ^= parity >> 16;
    proof {
        let a = codeword ^ (codeword >> 1);
        let b = a ^ (a >> 2);
        let c = b ^ (b >> 4);
        let d = c ^ (c >> 8);
        let e = d ^ (d >> 16);
        assert((codeword as u64) < 1u64 << 32u64 && e & 1 == xor_bits(codeword, 32)) by (bit_vector)
            requires
                a == codeword ^ (codeword >> 1),
                b == a ^ (a >> 2),
                c == b ^ (b >> 4),
                d == c ^ (c >> 8),
                e == d ^ (d >> 16),
        ;
        lemma_ones_xor(codeword, 32);
    }
    codeword | (parity & 1)
}

/// The parity of the one bits is the exclusive or of the bits.
pub proof fn lemma_ones_xor(x: u32, n: nat)
    requires
        n <= 32,
        (x as u64) < (1u64 << n as u64),
    ensures
        ones(x) % 2 == xor_bits(x, n),
        xor_bits(x, n) <= 1,
    decreases n,
{
    let k = n as u64;
    let h = xor_bits(x >> 1, (n - 1) as nat);
    assert({
        &&& k == 0 ==> x == 0
        &&& k > 0 ==> ((x >> 1) as u64) < 1u64 << (k - 1) as u64
        &&& x >> 1 == x / 2
        &&& x & 1 == x % 2
        &&& h <= 1 ==> (x % 2) ^ h == (x % 2 + h) % 2
    }) by (bit_vector)
        requires
            k <= 32,
            (x as u64) < 1u64 << k,
    ;
    if n > 0 {
        lemma_ones_xor(x >> 1, (n - 1) as nat);
        if x == 0 {
            assert(ones(0) == 0);
        }
    }
}

/// Multiplication by the generator polynomial is additive.
proof fn lemma_times_generator_xor(a: u32, b: u32)
    ensures
        times_generator(a ^ b) == times_generator(a) ^ times_generator(b),
    decreases a + b,
{
    let c = a ^ b;
    let pa = times_generator(a);
    let pb = times_generator(b);
    let ta = times_generator(a / 2);
    let tb = times_generator(b / 2);
    let tc = times_generator(c / 2);
    assert({
        &&& a == 0 ==> c == b && 0u32 ^ pb == pb
        &&& b == 0 ==> c == a && pa ^ 0u32 == pa
        &&& c / 2 == (a / 2) ^ (b / 2)
        &&& tc == ta ^ tb ==> (if c % 2 == 1 { 0x769u32 } else { 0u32 }) ^ (tc << 1)
            == (if a % 2 == 1 { 0x769u32 } else { 0u32 }) ^ (ta << 1)
            ^ ((if b % 2 == 1 { 0x769u32 } else { 0u32 }) ^ (tb << 1))
        &&& c == 0 && tc == 0 ==> (if c % 2 == 1 { 0x769u32 } else { 0u32 }) ^ (tc << 1) == 0
    }) by (bit_vector)
        requires
            c == a ^ b,
    ;
    assert(times_generator(0) == 0);
    if a != 0 && b != 0 {
        lemma_times_generator_xor(a / 2, b / 2);
    }
}

/// A shifted generator polynomial is the product with a single power.
proof fn lemma_times_generator_power(m: u32)
    requires
        m <= 21,
    ensures
        times_generator(1u32 << m) == 0x769u32 << m,
    decreases m,
{
    let l = (m - 1) as u32;
    assert({
        &&& m == 0 ==> 1u32 << m == 1 && 0x769u32 ^ (0u32 << 1) == 0x769u32 << m
        &&& m > 0 && l + 1 == m ==> 1u32 << m != 0 && (1u32 << m) % 2 == 0 && (1u32 << m) / 2 == 1u32
            << l && 0u32 ^ ((0x769u32 << l) << 1) == 0x769u32 << m
    }) by (bit_vector)
        requires
            m <= 21,
    ;
    if m == 0 {
        assert(times_generator(0) == 0);
        assert(times_generator(1) == 0x769u32 ^ (times_generator(0) << 1));
    } else {
        lemma_times_generator_power(l);
    }
}

/// A product with a polynomial other than zero has degree ten at least.
proof fn lemma_times_generator_range(q: u32, k: u32)
    requires
        0 < q < 1u32 << k,
        k <= 22,
    ensures
        1024 <= times_generator(q),
        (times_generator(q) as u64) < 1024u64 << k as u64,
    decreases k,
{
    let l = (k - 1) as u32;
    let h = q / 2;
    let t = times_generator(h);
    let r = (if q % 2 == 1 { 0x769u32 } else { 0u32 }) ^ (t << 1);
    assert({
        &&& k > 0
        &&& l + 1 == k ==> h < 1u32 << l
        &&& (l + 1 == k && (h == 0 ==> t == 0) && (h > 0 ==> 1024 <= t && (t as u64) < 1024u64
            << l as u64)) ==> 1024 <= r && (r as u64) < 1024u64 << k as u64
    }) by (bit_vector)
        requires
            0 < q < 1u32 << k,
            k <= 22,
            h == q / 2,
            r == (if q % 2 == 1 { 0x769u32 } else { 0u32 }) ^ (t << 1),
    ;
    if h > 0 {
        lemma_times_generator_range(h, l);
    } else {
        assert(times_generator(0) == 0);
    }
}

/// After `steps` division steps the quotient so far times the generator
/// polynomial is what has been subtracted. The parity bit has no part in it.
proof fn lemma_division(codeword: u32, steps: nat) -> (q: u32)
    requires
        steps <= 21,
    ensures
        q < 0x200000,
        times_generator(q) == (codeword ^ remainder(codeword, steps)) / 2,
        remainder(codeword, steps) % 2 == codeword % 2,
        steps > 0 ==> remainder(codeword, steps) < 0x80000000u32 >> (steps - 1) as u32,
    decreases steps,
{
    if steps == 0 {
        assert(codeword ^ codeword == 0) by (bit_vector);
        assert(times_generator(0) == 0);
        0
    } else {
        let q = lemma_division(codeword, (steps - 1) as nat);
        let r = remainder(codeword, (steps - 1) as nat);
        let t = times_generator(q);
        let i = (steps - 1) as u32;
        let j = (i - 1) as u32;
        let m = (20 - i) as u32;
        assert({
            &&& division_step(r, i) < 0x80000000u32 >> i
            &&& division_step(r, i) % 2 == codeword % 2
            &&& (q ^ (1u32 << m)) < 0x200000
            &&& t ^ (0x769u32 << m) == (codeword ^ (r ^ (GENERATOR >> i))) / 2
        }) by (bit_vector)
            requires
                i == 0 || (i == j + 1 && r < 0x80000000u32 >> j),
                i <= 20,
                m == 20 - i,
                q < 0x200000,
                t == (codeword ^ r) / 2,
                r % 2 == codeword % 2,
        ;
        if r & (0x80000000u32 >> i) != 0 {
            lemma_times_generator_power(m);
            lemma_times_generator_xor(q, 1u32 << m);
            q ^ (1u32 << m)
        } else {
            q
        }
    }
}

/// The check bits of a codeword are the remainder modulo the generator
/// polynomial of the codeword without its parity bit: ten bits that differ
/// from it by a multiple of the polynomial. The parity bit stays as it is.
pub proof fn law_check_bits_are_remainder(codeword: u32)
    ensures
        remainder(codeword, 21) / 2 < 1024,
        remainder(codeword, 21) % 2 == codeword % 2,
        divisible((codeword / 2) ^ (remainder(codeword, 21) / 2)),
{
    let q = lemma_division(codeword, 21);
    let r = remainder(codeword, 21);
    assert(0x80000000u32 >> 20u32 == 0x800 && (codeword ^ r) / 2 == (codeword / 2) ^ (r / 2))
        by (bit_vector);
    assert(times_generator(q) == (codeword / 2) ^ (r / 2));
}

/// There is only one remainder: ten bits that differ from a codeword without
/// its parity bit by a multiple of the generator polynomial are its check
/// bits.
pub proof fn law_remainder_is_unique(codeword: u32, check: u32)
    requires
        check < 1024,
        divisible((codeword / 2) ^ check),
    ensures
        check == remainder(codeword, 21) / 2,
{
    let c = codeword / 2;
    let r = remainder(codeword, 21) / 2;
    law_check_bits_are_remainder(codeword);
    let p = choose|q: u32| q < 0x400000 && #[trigger] times_generator(q) == c ^ r;
    let q = choose|q: u32| q < 0x400000 && #[trigger] times_generator(q) == c ^ check;
    lemma_times_generator_xor(p, q);
    let d = p ^ q;
    assert({
        &&& d < 1u32 << 22u32
        &&& (c ^ r) ^ (c ^ check) == r ^ check
        &&& (r ^ check) < 1024
        &&& r ^ check == 0 ==> r == check
    }) by (bit_vector)
        requires
            d == p ^ q,
            p < 0x400000,
            q < 0x400000,
            r < 1024,
            check < 1024,
    ;
    if d > 0 {
        lemma_times_generator_range(d, 22);
    }
    assert(times_generator(0) == 0);
}

/// Sealing a codeword leaves everything above the lowest eleven bits as it
/// was.
pub proof fn law_seal_keeps_data(codeword: u32)
    ensures
        sealed(codeword) / 0x800 == codeword / 0x800,
{
    law_check_bits_are_remainder(codeword);
    let r = remainder(codeword, 21);
    let p = (ones(with_check_bits(codeword)) % 2) as u32;
    assert(((codeword | r) | p) / 0x800 == codeword / 0x800) by (bit_vector)
        requires
            r / 2 < 1024,
            p < 2,
    ;
}

/// Twenty-one bits of data make a POCSAG codeword: the check bits stand below
/// the data and leave the lowest bit free, the data stays as it is, and what
/// is sealed is a multiple of the generator polynomial with even parity.
pub proof fn law_sealed_data_is_codeword(codeword: u32)
    requires
        codeword % 0x800 == 0,
    ensures
        with_check_bits(codeword) % 2 == 0,
        with_check_bits(codeword) / 0x800 == codeword / 0x800,
        divisible(with_check_bits(codeword) / 2),
        ones(sealed(codeword)) % 2 == 0,
        is_codeword(sealed(codeword)),
{
    law_check_bits_are_remainder(codeword);
    let r = remainder(codeword, 21);
    let c = with_check_bits(codeword);
    let p = (ones(c) % 2) as u32;
    assert({
        &&& c % 2 == 0
        &&& c / 0x800 == codeword / 0x800
        &&& c / 2 == (codeword / 2) ^ (r / 2)
        &&& (c | p) / 2 == c / 2
    }) by (bit_vector)
        requires
            c == codeword | r,
            codeword % 0x800 == 0,
            r / 2 < 1024,
            r % 2 == 0,
            p < 2,
    ;
    law_parity_is_even(c);
}

/// A codeword with its parity bit has an even number of one bits, unless it
/// had an odd number of them and its lowest bit was already taken.
pub proof fn law_parity_is_even(codeword: u32)
    ensures
        ones(with_parity_bit(codeword)) % 2 == 0 <==> (codeword % 2 == 0 || ones(codeword) % 2 == 0),
{
    assert({
        &&& codeword | 0 == codeword
        &&& codeword % 2 == 1 ==> codeword | 1 == codeword
        &&& codeword % 2 == 0 ==> (codeword | 1) / 2 == codeword / 2 && (codeword | 1) % 2 == 1
    }) by (bit_vector);
    assert(ones(codeword) == codeword % 2 + ones(codeword / 2)) by {
        if codeword == 0 {
            assert(ones(0) == 0);
        }
    }
}

/// The one bits of a number are those of its half and its lowest bit.
pub proof fn law_ones_of_half(x: u32)
    ensures
        ones(x) == ones(x / 2) + x % 2,
        ones(0) == 0,
{
    if x == 0 {
        assert(ones(0) == 0);
    }
}

/// The check bits of any word are added to it above its lowest bit, and
/// nothing else of it changes.
pub proof fn law_check_bits_are_added(codeword: u32, check: u32)
    requires
        check < 1024,
        divisible((codeword / 2) ^ check),
    ensures
        with_check_bits(codeword) == codeword | (2 * check) as u32,
{
    law_check_bits_are_remainder(codeword);
    law_remainder_is_unique(codeword, check);
    let r = remainder(codeword, 21);
    assert(codeword | r == codeword | (2 * check) as u32) by (bit_vector)
        requires
            check < 1024,
            r / 2 == check,
            r % 2 == codeword % 2,
    ;
}

/// The parity bit changes nothing but the lowest bit, and only sets it where
/// the number of one bits is odd.
pub proof fn law_parity_bit_is_lowest_bit(codeword: u32)
    ensures
        with_parity_bit(codeword) / 2 == codeword / 2,
        with_parity_bit(codeword) % 2 == 1 <==> codeword % 2 == 1 || ones(codeword) % 2 == 1,
{
    let p = (ones(codeword) % 2) as u32;
    assert({
        &&& (codeword | p) / 2 == codeword / 2
        &&& (codeword | p) % 2 == 1 <==> codeword % 2 == 1 || p == 1
    }) by (bit_vector)
        requires
            p < 2,
    ;
}

/// For every twenty-one bits of data there is only one POCSAG codeword, and
/// sealing gives it.
pub proof fn law_sealed_codeword_is_unique(codeword: u32, word: u32)
    requires
        codeword % 0x800 == 0,
        word / 0x800 == codeword / 0x800,
        is_codeword(word),
    ensures
        word == sealed(codeword),
{
    let check = word / 2 % 1024;
    assert((codeword / 2) ^ check == word / 2) by (bit_vector)
        requires
            codeword % 0x800 == 0,
            word / 0x800 == codeword / 0x800,
            check == word / 2 % 1024,
    ;
    law_check_bits_are_added(codeword, check);
    law_sealed_data_is_codeword(codeword);
    let c = with_check_bits(codeword);
    assert(c / 2 == word / 2) by (bit_vector)
        requires
            c == codeword | (2 * check) as u32,
            codeword % 0x800 == 0,
            word / 0x800 == codeword / 0x800,
            check == word / 2 % 1024,
    ;
    law_parity_bit_is_lowest_bit(c);
    law_ones_of_half(word);
    law_ones_of_half(sealed(codeword));
}

} // verus!
