use vstd::prelude::*;

verus! {

use vstd::std_specs::bits::{u64_trailing_zeros, axiom_u64_trailing_zeros};

/// Whether bit `i` of the bitboard `b` is set.
pub open spec fn bit(b: u64, i: u64) -> bool {
    (b >> i) & 1u64 == 1u64
}

/// The number of set bits among the lowest `n` bits of `b`.
pub open spec fn popcount_below(b: u64, n: nat) -> nat
    decreases n,
{
    if n == 0 {
        0
    } else {
        popcount_below(b, (n - 1) as nat) + if bit(b, (n - 1) as u64) { 1nat } else { 0nat }
    }
}

/// The number of set bits of `b`.
pub open spec fn popcount(b: u64) -> nat {
    popcount_below(b, 64)
}

/// Returns `bitboard` masked to its `bit_index`-th bit.
pub fn get_bit(bitboard: u64, bit_index: u8) -> (r: u64)
    requires
        bit_index < 64,
    ensures
        r == bitboard & (1u64 << bit_index),
        (r != 0) == bit(bitboard, bit_index as u64),
{
    proof {
        lemma_single_bit(bitboard, bit_index as u64);
    }
    bitboard & (1u64 << bit_index)
}

/// Sets the `bit_index`-th bit of `bitboard`.
pub fn set_bit(bitboard: &mut u64, bit_index: u8)
    requires
        bit_index < 64,
    ensures
        *final(bitboard) == *old(bitboard) | (1u64 << bit_index),
{
    *bitboard = *bitboard | (1u64 << bit_index);
}

/// Clears the `bit_index`-th bit of `bitboard`.
pub fn clear_bit(bitboard: &mut u64, bit_index: u8)
    requires
        bit_index < 64,
    ensures
        *final(bitboard) == *old(bitboard) & !(1u64 << bit_index),
{
    *bitboard = *bitboard & !(1u64 << bit_index);
}

/// The index of the lowest set bit of `bitboard` (64 when it is empty).
pub fn get_lsb(bitboard: u64) -> (r: u8)
    ensures
        r as u32 == u64_trailing_zeros(bitboard),
        r <= 64,
        (r == 64) == (bitboard == 0),
        r < 64 ==> bit(bitboard, r as u64),
        forall|j: u64| j < r ==> !bit(bitboard, j),
{
    proof {
        axiom_u64_trailing_zeros(bitboard);
    }
    let t = bitboard.trailing_zeros();
    proof {
        assert forall|j: u64| j < t implies !bit(bitboard, j) by {
            assert((bitboard >> j) & 1u64 == 0u64);
        }
    }
    t as u8
}

/// Removes the lowest set bit of `bitboard` and returns its index.
pub fn pop_lsb(bitboard: &mut u64) -> (r: u8)
    requires
        *old(bitboard) != 0,
    ensures
        r < 64,
        r as u32 == u64_trailing_zeros(*old(bitboard)),
        bit(*old(bitboard), r as u64),
        forall|j: u64| j < r ==> !bit(*old(bitboard), j),
        *final(bitboard) == *old(bitboard) & !(1u64 << r),
        *final(bitboard) == *old(bitboard) & ((*old(bitboard) - 1) as u64),
        *final(bitboard) < *old(bitboard),
{
    let lsb = get_lsb(*bitboard);
    let b = *bitboard;
    proof {
        let t = lsb as u64;
        let mask = ((1u64 << t) - 1u64) as u64;
        assert forall|j: u64| j < 64 implies bit(b & mask, j) == bit(0u64, j) by {
            lemma_bit_ops(b, mask, j);
            lemma_bit_ops(0u64, 0u64, j);
            lemma_low_mask(t, j);
        }
        lemma_bits_ext(b & mask, 0u64);
        assert(t < 64 && (b >> t) & 1u64 == 1u64 && (b & (((1u64 << t) - 1u64) as u64)) == 0u64
            ==> b & ((b - 1u64) as u64) == b & !(1u64 << t)) by (bit_vector);
        assert(b != 0u64 ==> b & ((b - 1u64) as u64) < b) by (bit_vector);
    }
    *bitboard = b & (b - 1);
    lsb
}

/// Counts the set bits of `bitboard`.
pub fn count_bits(bitboard: u64) -> (r: u64)
    ensures
        r == popcount(bitboard),
        r <= 64,
{
    let mut count: u64 = 0;
    let mut temp_bitboard = bitboard;
    proof {
        lemma_popcount_below_bound(bitboard, 64);
    }
    while temp_bitboard != 0
        invariant
            count + popcount(temp_bitboard) == popcount(bitboard),
            popcount(bitboard) <= 64,
        decreases temp_bitboard,
    {
        let old_t = temp_bitboard;
        let sq = pop_lsb(&mut temp_bitboard);
        proof {
            lemma_popcount_clear(old_t, sq as u64);
        }
        count = count + 1;
    }
    proof {
        lemma_popcount_zero();
    }
    count
}

/// Advances the xorshift state once.
pub open spec fn xorshift32(n: u32) -> u32 {
    let a = n ^ (n << 13u32);
    let b = a ^ (a >> 17u32);
    b ^ (b << 5u32)
}

/// Draws a 32-bit pseudorandom number by advancing the xorshift state.
pub fn get_pseudorandom_number_u32(state: &mut u32) -> (r: u32)
    ensures
        r == xorshift32(*old(state)),
        *final(state) == r,
{
    let mut number = *state;
    number = number ^ (number << 13u32);
    number = number ^ (number >> 17u32);
    number = number ^ (number << 5u32);
    *state = number;
    number
}

/// The 64-bit number built from four successive 16-bit draws starting at `s`.
pub open spec fn random_u64_from(s: u32) -> u64 {
    let x1 = xorshift32(s);
    let x2 = xorshift32(x1);
    let x3 = xorshift32(x2);
    let x4 = xorshift32(x3);
    ((x1 as u64) & 0xFFFFu64) | (((x2 as u64) & 0xFFFFu64) << 16u64) | (((x3 as u64) & 0xFFFFu64)
        << 32u64) | (((x4 as u64) & 0xFFFFu64) << 48u64)
}

/// The state after one 64-bit draw.
pub open spec fn random_u64_next_state(s: u32) -> u32 {
    xorshift32(xorshift32(xorshift32(xorshift32(s))))
}

/// Draws a 64-bit pseudorandom number from four 16-bit slices of successive draws.
pub fn get_pseudorandom_number_u64(state: &mut u32) -> (r: u64)
    ensures
        r == random_u64_from(*old(state)),
        *final(state) == random_u64_next_state(*old(state)),
{
    let n1 = (get_pseudorandom_number_u32(state) as u64) & 0xFFFF;
    let n2 = (get_pseudorandom_number_u32(state) as u64) & 0xFFFF;
    let n3 = (get_pseudorandom_number_u32(state) as u64) & 0xFFFF;
    let n4 = (get_pseudorandom_number_u32(state) as u64) & 0xFFFF;
    n1 | (n2 << 16u64) | (n3 << 32u64) | (n4 << 48u64)
}

/// Calls `String::push`: the string afterwards holds its characters followed by `c`, as the
/// documentation of `String::push` says.
#[verifier::external_body]
pub(crate) fn string_push(s: &mut String, c: char)
    ensures
        final(s)@ == old(s)@.push(c),
{
    s.push(c);
}

// ---------------------------------------------------------------- lemmas

/// `b & (1 << i)` is non-zero exactly when bit `i` of `b` is set.
pub proof fn lemma_single_bit(b: u64, i: u64)
    requires
        i < 64,
    ensures
        ((b & (1u64 << i)) != 0) == bit(b, i),
{
    assert(i < 64 ==> (((b & (1u64 << i)) != 0u64) == ((b >> i) & 1u64 == 1u64))) by (bit_vector);
}

/// Facts about single bits of the basic bitwise operations.
pub proof fn lemma_bit_ops(a: u64, b: u64, i: u64)
    by (bit_vector)
    requires
        i < 64,
    ensures
        bit(a | b, i) == (bit(a, i) || bit(b, i)),
        bit(a & b, i) == (bit(a, i) && bit(b, i)),
        bit(a ^ b, i) == (bit(a, i) != bit(b, i)),
        bit(!a, i) == !bit(a, i),
        bit(0u64, i) == false,
{
}

/// Bit `i` of `1 << j` is set exactly when `i == j`.
pub proof fn lemma_bit_single(i: u64, j: u64)
    requires
        i < 64,
        j < 64,
    ensures
        bit(1u64 << j, i) == (i == j),
{
    assert(i < 64 && j < 64 ==> ((((1u64 << j) >> i) & 1u64 == 1u64) == (i == j))) by (bit_vector);
}

/// Bit `j` of the mask of the lowest `t` bits is set exactly when `j < t`.
pub proof fn lemma_low_mask(t: u64, j: u64)
    requires
        t < 64,
        j < 64,
    ensures
        bit(((1u64 << t) - 1u64) as u64, j) == (j < t),
{
    assert(t < 64 && j < 64 ==> ((((((1u64 << t) - 1u64) as u64) >> j) & 1u64 == 1u64) == (j < t)))
        by (bit_vector);
}

/// Two bitboards that agree on every bit are equal.
pub proof fn lemma_bits_ext(a: u64, b: u64)
    requires
        forall|i: u64| i < 64 ==> bit(a, i) == bit(b, i),
    ensures
        a == b,
{
    assert(bit(a, 0u64) == bit(b, 0u64));
    assert(bit(a, 1u64) == bit(b, 1u64));
    assert(bit(a, 2u64) == bit(b, 2u64));
    assert(bit(a, 3u64) == bit(b, 3u64));
    assert(bit(a, 4u64) == bit(b, 4u64));
    assert(bit(a, 5u64) == bit(b, 5u64));
    assert(bit(a, 6u64) == bit(b, 6u64));
    assert(bit(a, 7u64) == bit(b, 7u64));
    assert(bit(a, 8u64) == bit(b, 8u64));
    assert(bit(a, 9u64) == bit(b, 9u64));
    assert(bit(a, 10u64) == bit(b, 10u64));
    assert(bit(a, 11u64) == bit(b, 11u64));
    assert(bit(a, 12u64) == bit(b, 12u64));
    assert(bit(a, 13u64) == bit(b, 13u64));
    assert(bit(a, 14u64) == bit(b, 14u64));
    assert(bit(a, 15u64) == bit(b, 15u64));
    assert(bit(a, 16u64) == bit(b, 16u64));
    assert(bit(a, 17u64) == bit(b, 17u64));
    assert(bit(a, 18u64) == bit(b, 18u64));
    assert(bit(a, 19u64) == bit(b, 19u64));
    assert(bit(a, 20u64) == bit(b, 20u64));
    assert(bit(a, 21u64) == bit(b, 21u64));
    assert(bit(a, 22u64) == bit(b, 22u64));
    assert(bit(a, 23u64) == bit(b, 23u64));
    assert(bit(a, 24u64) == bit(b, 24u64));
    assert(bit(a, 25u64) == bit(b, 25u64));
    assert(bit(a, 26u64) == bit(b, 26u64));
    assert(bit(a, 27u64) == bit(b, 27u64));
    assert(bit(a, 28u64) == bit(b, 28u64));
    assert(bit(a, 29u64) == bit(b, 29u64));
    assert(bit(a, 30u64) == bit(b, 30u64));
    assert(bit(a, 31u64) == bit(b, 31u64));
    assert(bit(a, 32u64) == bit(b, 32u64));
    assert(bit(a, 33u64) == bit(b, 33u64));
    assert(bit(a, 34u64) == bit(b, 34u64));
    assert(bit(a, 35u64) == bit(b, 35u64));
    assert(bit(a, 36u64) == bit(b, 36u64));
    assert(bit(a, 37u64) == bit(b, 37u64));
    assert(bit(a, 38u64) == bit(b, 38u64));
    assert(bit(a, 39u64) == bit(b, 39u64));
    assert(bit(a, 40u64) == bit(b, 40u64));
    assert(bit(a, 41u64) == bit(b, 41u64));
    assert(bit(a, 42u64) == bit(b, 42u64));
    assert(bit(a, 43u64) == bit(b, 43u64));
    assert(bit(a, 44u64) == bit(b, 44u64));
    assert(bit(a, 45u64) == bit(b, 45u64));
    assert(bit(a, 46u64) == bit(b, 46u64));
    assert(bit(a, 47u64) == bit(b, 47u64));
    assert(bit(a, 48u64) == bit(b, 48u64));
    assert(bit(a, 49u64) == bit(b, 49u64));
    assert(bit(a, 50u64) == bit(b, 50u64));
    assert(bit(a, 51u64) == bit(b, 51u64));
    assert(bit(a, 52u64) == bit(b, 52u64));
    assert(bit(a, 53u64) == bit(b, 53u64));
    assert(bit(a, 54u64) == bit(b, 54u64));
    assert(bit(a, 55u64) == bit(b, 55u64));
    assert(bit(a, 56u64) == bit(b, 56u64));
    assert(bit(a, 57u64) == bit(b, 57u64));
    assert(bit(a, 58u64) == bit(b, 58u64));
    assert(bit(a, 59u64) == bit(b, 59u64));
    assert(bit(a, 60u64) == bit(b, 60u64));
    assert(bit(a, 61u64) == bit(b, 61u64));
    assert(bit(a, 62u64) == bit(b, 62u64));
    assert(bit(a, 63u64) == bit(b, 63u64));
    assert(a == b) by (bit_vector)
        requires
            ((a >> 0u64) & 1u64 == 1u64) == ((b >> 0u64) & 1u64 == 1u64),
            ((a >> 1u64) & 1u64 == 1u64) == ((b >> 1u64) & 1u64 == 1u64),
            ((a >> 2u64) & 1u64 == 1u64) == ((b >> 2u64) & 1u64 == 1u64),
            ((a >> 3u64) & 1u64 == 1u64) == ((b >> 3u64) & 1u64 == 1u64),
            ((a >> 4u64) & 1u64 == 1u64) == ((b >> 4u64) & 1u64 == 1u64),
            ((a >> 5u64) & 1u64 == 1u64) == ((b >> 5u64) & 1u64 == 1u64),
            ((a >> 6u64) & 1u64 == 1u64) == ((b >> 6u64) & 1u64 == 1u64),
            ((a >> 7u64) & 1u64 == 1u64) == ((b >> 7u64) & 1u64 == 1u64),
            ((a >> 8u64) & 1u64 == 1u64) == ((b >> 8u64) & 1u64 == 1u64),
            ((a >> 9u64) & 1u64 == 1u64) == ((b >> 9u64) & 1u64 == 1u64),
            ((a >> 10u64) & 1u64 == 1u64) == ((b >> 10u64) & 1u64 == 1u64),
            ((a >> 11u64) & 1u64 == 1u64) == ((b >> 11u64) & 1u64 == 1u64),
            ((a >> 12u64) & 1u64 == 1u64) == ((b >> 12u64) & 1u64 == 1u64),
            ((a >> 13u64) & 1u64 == 1u64) == ((b >> 13u64) & 1u64 == 1u64),
            ((a >> 14u64) & 1u64 == 1u64) == ((b >> 14u64) & 1u64 == 1u64),
            ((a >> 15u64) & 1u64 == 1u64) == ((b >> 15u64) & 1u64 == 1u64),
            ((a >> 16u64) & 1u64 == 1u64) == ((b >> 16u64) & 1u64 == 1u64),
            ((a >> 17u64) & 1u64 == 1u64) == ((b >> 17u64) & 1u64 == 1u64),
            ((a >> 18u64) & 1u64 == 1u64) == ((b >> 18u64) & 1u64 == 1u64),
            ((a >> 19u64) & 1u64 == 1u64) == ((b >> 19u64) & 1u64 == 1u64),
            ((a >> 20u64) & 1u64 == 1u64) == ((b >> 20u64) & 1u64 == 1u64),
            ((a >> 21u64) & 1u64 == 1u64) == ((b >> 21u64) & 1u64 == 1u64),
            ((a >> 22u64) & 1u64 == 1u64) == ((b >> 22u64) & 1u64 == 1u64),
            ((a >> 23u64) & 1u64 == 1u64) == ((b >> 23u64) & 1u64 == 1u64),
            ((a >> 24u64) & 1u64 == 1u64) == ((b >> 24u64) & 1u64 == 1u64),
            ((a >> 25u64) & 1u64 == 1u64) == ((b >> 25u64) & 1u64 == 1u64),
            ((a >> 26u64) & 1u64 == 1u64) == ((b >> 26u64) & 1u64 == 1u64),
            ((a >> 27u64) & 1u64 == 1u64) == ((b >> 27u64) & 1u64 == 1u64),
            ((a >> 28u64) & 1u64 == 1u64) == ((b >> 28u64) & 1u64 == 1u64),
            ((a >> 29u64) & 1u64 == 1u64) == ((b >> 29u64) & 1u64 == 1u64),
            ((a >> 30u64) & 1u64 == 1u64) == ((b >> 30u64) & 1u64 == 1u64),
            ((a >> 31u64) & 1u64 == 1u64) == ((b >> 31u64) & 1u64 == 1u64),
            ((a >> 32u64) & 1u64 == 1u64) == ((b >> 32u64) & 1u64 == 1u64),
            ((a >> 33u64) & 1u64 == 1u64) == ((b >> 33u64) & 1u64 == 1u64),
            ((a >> 34u64) & 1u64 == 1u64) == ((b >> 34u64) & 1u64 == 1u64),
            ((a >> 35u64) & 1u64 == 1u64) == ((b >> 35u64) & 1u64 == 1u64),
            ((a >> 36u64) & 1u64 == 1u64) == ((b >> 36u64) & 1u64 == 1u64),
            ((a >> 37u64) & 1u64 == 1u64) == ((b >> 37u64) & 1u64 == 1u64),
            ((a >> 38u64) & 1u64 == 1u64) == ((b >> 38u64) & 1u64 == 1u64),
            ((a >> 39u64) & 1u64 == 1u64) == ((b >> 39u64) & 1u64 == 1u64),
            ((a >> 40u64) & 1u64 == 1u64) == ((b >> 40u64) & 1u64 == 1u64),
            ((a >> 41u64) & 1u64 == 1u64) == ((b >> 41u64) & 1u64 == 1u64),
            ((a >> 42u64) & 1u64 == 1u64) == ((b >> 42u64) & 1u64 == 1u64),
            ((a >> 43u64) & 1u64 == 1u64) == ((b >> 43u64) & 1u64 == 1u64),
            ((a >> 44u64) & 1u64 == 1u64) == ((b >> 44u64) & 1u64 == 1u64),
            ((a >> 45u64) & 1u64 == 1u64) == ((b >> 45u64) & 1u64 == 1u64),
            ((a >> 46u64) & 1u64 == 1u64) == ((b >> 46u64) & 1u64 == 1u64),
            ((a >> 47u64) & 1u64 == 1u64) == ((b >> 47u64) & 1u64 == 1u64),
            ((a >> 48u64) & 1u64 == 1u64) == ((b >> 48u64) & 1u64 == 1u64),
            ((a >> 49u64) & 1u64 == 1u64) == ((b >> 49u64) & 1u64 == 1u64),
            ((a >> 50u64) & 1u64 == 1u64) == ((b >> 50u64) & 1u64 == 1u64),
            ((a >> 51u64) & 1u64 == 1u64) == ((b >> 51u64) & 1u64 == 1u64),
            ((a >> 52u64) & 1u64 == 1u64) == ((b >> 52u64) & 1u64 == 1u64),
            ((a >> 53u64) & 1u64 == 1u64) == ((b >> 53u64) & 1u64 == 1u64),
            ((a >> 54u64) & 1u64 == 1u64) == ((b >> 54u64) & 1u64 == 1u64),
            ((a >> 55u64) & 1u64 == 1u64) == ((b >> 55u64) & 1u64 == 1u64),
            ((a >> 56u64) & 1u64 == 1u64) == ((b >> 56u64) & 1u64 == 1u64),
            ((a >> 57u64) & 1u64 == 1u64) == ((b >> 57u64) & 1u64 == 1u64),
            ((a >> 58u64) & 1u64 == 1u64) == ((b >> 58u64) & 1u64 == 1u64),
            ((a >> 59u64) & 1u64 == 1u64) == ((b >> 59u64) & 1u64 == 1u64),
            ((a >> 60u64) & 1u64 == 1u64) == ((b >> 60u64) & 1u64 == 1u64),
            ((a >> 61u64) & 1u64 == 1u64) == ((b >> 61u64) & 1u64 == 1u64),
            ((a >> 62u64) & 1u64 == 1u64) == ((b >> 62u64) & 1u64 == 1u64),
            ((a >> 63u64) & 1u64 == 1u64) == ((b >> 63u64) & 1u64 == 1u64),
    ;
}

/// At most `n` of the lowest `n` bits are set.
pub proof fn lemma_popcount_below_bound(b: u64, n: nat)
    ensures
        popcount_below(b, n) <= n,
    decreases n,
{
    if n > 0 {
        lemma_popcount_below_bound(b, (n - 1) as nat);
    }
}

proof fn lemma_popcount_below_clear(b: u64, i: u64, n: nat)
    requires
        i < 64,
        n <= 64,
        bit(b, i),
    ensures
        popcount_below(b, n) == popcount_below(b & !(1u64 << i), n) + if i < n { 1nat } else { 0nat },
    decreases n,
{
    if n > 0 {
        lemma_popcount_below_clear(b, i, (n - 1) as nat);
        let k = (n - 1) as u64;
        lemma_bit_ops(b, !(1u64 << i), k);
        lemma_bit_ops(1u64 << i, 0, k);
        lemma_bit_single(k, i);
    }
}

/// Clearing a set bit lowers the population count by one.
pub proof fn lemma_popcount_clear(b: u64, i: u64)
    requires
        i < 64,
        bit(b, i),
    ensures
        popcount(b) == popcount(b & !(1u64 << i)) + 1,
{
    lemma_popcount_below_clear(b, i, 64);
}

proof fn lemma_popcount_below_zero(n: nat)
    requires
        n <= 64,
    ensures
        popcount_below(0u64, n) == 0,
    decreases n,
{
    if n > 0 {
        lemma_popcount_below_zero((n - 1) as nat);
        lemma_bit_ops(0u64, 0u64, (n - 1) as u64);
    }
}

/// The empty bitboard has no set bits.
pub proof fn lemma_popcount_zero()
    ensures
        popcount(0u64) == 0,
{
    lemma_popcount_below_zero(64);
}

/// A bitboard without set bits is empty.
pub proof fn lemma_popcount_zero_empty(b: u64)
    requires
        popcount(b) == 0,
    ensures
        b == 0,
{
    if b != 0 {
        if forall|i: u64| i < 64 ==> !bit(b, i) {
            assert forall|i: u64| i < 64 implies bit(b, i) == bit(0u64, i) by {
                lemma_bit_ops(0u64, 0u64, i);
            }
            lemma_bits_ext(b, 0u64);
        }
        let i = choose|i: u64| i < 64 && bit(b, i);
        lemma_popcount_clear(b, i);
    }
}

/// `^` is associative and commutative, has `0` as its unit, and every value is its own inverse.
pub proof fn lemma_xor_facts(a: u64, b: u64, c: u64)
    by (bit_vector)
    ensures
        (a ^ b) ^ c == a ^ (b ^ c),
        a ^ b == b ^ a,
        a ^ 0u64 == a,
        0u64 ^ a == a,
        a ^ a == 0u64,
{
}


/// The square of the other color's side seen the same way: the rank flipped, the file kept.
pub open spec fn flip_square(j: u64) -> u64 {
    ((7 - j / 8) * 8 + j % 8) as u64
}

/// The sum of `f` over the squares below `n`.
pub open spec fn square_sum(f: spec_fn(u64) -> int, n: nat) -> int
    decreases n,
{
    if n == 0 {
        0
    } else {
        square_sum(f, (n - 1) as nat) + f((n - 1) as u64)
    }
}

/// The sum of `f` over the eight squares of rank row `r`.
pub open spec fn row_sum(f: spec_fn(u64) -> int, r: u64) -> int {
    f((8 * r) as u64) + f((8 * r + 1) as u64) + f((8 * r + 2) as u64) + f((8 * r + 3) as u64)
        + f((8 * r + 4) as u64) + f((8 * r + 5) as u64) + f((8 * r + 6) as u64) + f((8 * r + 7) as u64)
}

/// The sum over the first `r + 1` rows adds the row `r` to the sum over the first `r`.
proof fn lemma_square_sum_row(f: spec_fn(u64) -> int, r: u64)
    requires
        r < 8,
    ensures
        square_sum(f, (8 * r + 8) as nat) == square_sum(f, (8 * r) as nat) + row_sum(f, r),
{
    let b = (8 * r) as nat;
    assert(square_sum(f, b + 1) == square_sum(f, b) + f((8 * r) as u64));
    assert(square_sum(f, b + 2) == square_sum(f, b + 1) + f((8 * r + 1) as u64));
    assert(square_sum(f, b + 3) == square_sum(f, b + 2) + f((8 * r + 2) as u64));
    assert(square_sum(f, b + 4) == square_sum(f, b + 3) + f((8 * r + 3) as u64));
    assert(square_sum(f, b + 5) == square_sum(f, b + 4) + f((8 * r + 4) as u64));
    assert(square_sum(f, b + 6) == square_sum(f, b + 5) + f((8 * r + 5) as u64));
    assert(square_sum(f, b + 7) == square_sum(f, b + 6) + f((8 * r + 6) as u64));
    assert(square_sum(f, b + 8) == square_sum(f, b + 7) + f((8 * r + 7) as u64));
}

/// The sum over the board is the sum of its eight rows.
proof fn lemma_square_sum_rows(f: spec_fn(u64) -> int)
    ensures
        square_sum(f, 64) == row_sum(f, 0) + row_sum(f, 1) + row_sum(f, 2) + row_sum(f, 3) + row_sum(f, 4)
            + row_sum(f, 5) + row_sum(f, 6) + row_sum(f, 7),
{
    lemma_square_sum_row(f, 0);
    lemma_square_sum_row(f, 1);
    lemma_square_sum_row(f, 2);
    lemma_square_sum_row(f, 3);
    lemma_square_sum_row(f, 4);
    lemma_square_sum_row(f, 5);
    lemma_square_sum_row(f, 6);
    lemma_square_sum_row(f, 7);
}

/// A row of `f` is the flipped row of `g` when `f` reads `g` on the flipped squares.
proof fn lemma_row_sum_flip(f: spec_fn(u64) -> int, g: spec_fn(u64) -> int, r: u64)
    requires
        r < 8,
        forall|j: u64| j < 64 ==> #[trigger] f(j) == g(flip_square(j)),
    ensures
        row_sum(f, r) == row_sum(g, (7 - r) as u64),
{
    let q = (7 - r) as u64;
    assert(f((8 * r) as u64) == g((8 * q) as u64));
    assert(f((8 * r + 1) as u64) == g((8 * q + 1) as u64));
    assert(f((8 * r + 2) as u64) == g((8 * q + 2) as u64));
    assert(f((8 * r + 3) as u64) == g((8 * q + 3) as u64));
    assert(f((8 * r + 4) as u64) == g((8 * q + 4) as u64));
    assert(f((8 * r + 5) as u64) == g((8 * q + 5) as u64));
    assert(f((8 * r + 6) as u64) == g((8 * q + 6) as u64));
    assert(f((8 * r + 7) as u64) == g((8 * q + 7) as u64));
}

/// Summing over the board does not depend on the order of the squares: a function read on the
/// flipped squares has the same sum.
pub proof fn lemma_square_sum_flip(f: spec_fn(u64) -> int, g: spec_fn(u64) -> int)
    requires
        forall|j: u64| j < 64 ==> #[trigger] f(j) == g(flip_square(j)),
    ensures
        square_sum(f, 64) == square_sum(g, 64),
{
    lemma_square_sum_rows(f);
    lemma_square_sum_rows(g);
    lemma_row_sum_flip(f, g, 0);
    lemma_row_sum_flip(f, g, 1);
    lemma_row_sum_flip(f, g, 2);
    lemma_row_sum_flip(f, g, 3);
    lemma_row_sum_flip(f, g, 4);
    lemma_row_sum_flip(f, g, 5);
    lemma_row_sum_flip(f, g, 6);
    lemma_row_sum_flip(f, g, 7);
}

/// Flipping a square twice gives it back, and keeps it on the board.
pub proof fn lemma_flip_square(j: u64)
    requires
        j < 64,
    ensures
        flip_square(j) < 64,
        flip_square(flip_square(j)) == j,
        flip_square(j) % 8 == j % 8,
        flip_square(j) / 8 == 7 - j / 8,
{
}

/// The number of set bits is the sum of one over the set squares.
pub proof fn lemma_popcount_square_sum(b: u64, n: nat)
    ensures
        popcount_below(b, n) == square_sum(|j: u64| if bit(b, j) { 1int } else { 0int }, n),
    decreases n,
{
    if n > 0 {
        lemma_popcount_square_sum(b, (n - 1) as nat);
    }
}

} // verus!
