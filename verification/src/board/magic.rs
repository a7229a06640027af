use vstd::prelude::*;

verus! {

use crate::board::Position;
use crate::board::attacks::{bishop_mask, rook_mask, bishop_attacks, rook_attacks, occupancy_from, mask_bishop_attacks,
    mask_rook_attacks, generate_bishop_attacks_on_the_fly, generate_rook_attacks_on_the_fly, set_occupancy};
use crate::chess::square::Square;
use crate::utils::{count_bits, popcount, get_pseudorandom_number_u64, random_u64_from, random_u64_next_state};

/// The table index of an occupancy under a magic number keeping `bits` bits.
pub open spec fn magic_index(occupancy: u64, magic: u64, bits: u32) -> int {
    (occupancy.wrapping_mul(magic) >> ((64 - bits) as u64)) as int
}

/// The mask of the squares whose occupancy matters to a bishop (or rook) on `square`.
pub open spec fn slider_mask(square: int, is_bishop: bool) -> u64 {
    if is_bishop { bishop_mask(square) } else { rook_mask(square) }
}

/// The occupancy numbered `i` of the mask, and the attacks of the slider given it.
pub open spec fn numbered_occupancy(square: int, i: int, bits: u32, is_bishop: bool) -> u64 {
    occupancy_from(i as u32, 0, bits as nat, slider_mask(square, is_bishop))
}

/// The attacks of a bishop (or rook) on `square` given the numbered occupancy.
pub open spec fn numbered_attacks(square: int, i: int, bits: u32, is_bishop: bool) -> u64 {
    let occ = numbered_occupancy(square, i, bits, is_bishop);
    if is_bishop { bishop_attacks(square, occ) } else { rook_attacks(square, occ) }
}

/// Whether the magic number sends any two numbered occupancies with nonzero attack sets to the
/// same index only when their attack sets are equal.
pub open spec fn magic_works(square: int, bits: u32, is_bishop: bool, magic: u64) -> bool {
    forall|i: int, j: int| 0 <= i < (1u64 << bits) && 0 <= j < (1u64 << bits)
        && #[trigger] magic_index(numbered_occupancy(square, i, bits, is_bishop), magic, bits)
            == #[trigger] magic_index(numbered_occupancy(square, j, bits, is_bishop), magic, bits)
        && numbered_attacks(square, i, bits, is_bishop) != 0 && numbered_attacks(square, j, bits, is_bishop) != 0
        ==> numbered_attacks(square, i, bits, is_bishop) == numbered_attacks(square, j, bits, is_bishop)
}

/// The index of an occupancy keeping at most twelve bits is below 4096.
proof fn lemma_magic_index_bound(occupancy: u64, magic: u64, bits: u32)
    requires
        1 <= bits <= 12,
    ensures
        0 <= magic_index(occupancy, magic, bits) < 4096,
{
    let product = occupancy.wrapping_mul(magic);
    let shift = (64 - bits) as u64;
    assert(52u64 <= shift <= 63u64 ==> product >> shift < 4096u64) by (bit_vector);
}

/// The index of an occupancy under a magic number keeping `bits` bits.
fn index_of(occupancy: u64, magic: u64, bits: u32) -> (r: usize)
    requires
        1 <= bits <= 12,
    ensures
        r == magic_index(occupancy, magic, bits),
        r < 4096,
{
    let product = occupancy.wrapping_mul(magic);
    let shift = (64 - bits) as u64;
    let r = product >> shift;
    assert(r < 4096u64) by (bit_vector)
        requires
            r == product >> shift,
            52u64 <= shift <= 63u64,
    ;
    r as usize
}

/// A vector of `n` zeros.
fn zeros(n: usize) -> (v: Vec<u64>)
    ensures
        v@.len() == n,
        forall|i: int| 0 <= i < n ==> #[trigger] v@[i] == 0,
{
    let mut v: Vec<u64> = Vec::new();
    while v.len() < n
        invariant
            v@.len() <= n,
            forall|i: int| 0 <= i < v@.len() ==> #[trigger] v@[i] == 0,
        decreases n - v@.len(),
    {
        v.push(0);
    }
    v
}

impl Position {
    /// A candidate magic number: the and of three pseudorandom numbers, which has few bits set.
    pub fn _generate_magic_number(&mut self) -> (r: u64)
        ensures
            r == random_u64_from(old(self).rand_seed) & random_u64_from(random_u64_next_state(old(self).rand_seed))
                & random_u64_from(random_u64_next_state(random_u64_next_state(old(self).rand_seed))),
            final(self).rand_seed == random_u64_next_state(random_u64_next_state(random_u64_next_state(old(self).rand_seed))),
            final(self).bitboards == old(self).bitboards,
    {
        let a = get_pseudorandom_number_u64(&mut self.rand_seed);
        let b = get_pseudorandom_number_u64(&mut self.rand_seed);
        let c = get_pseudorandom_number_u64(&mut self.rand_seed);
        a & b & c
    }

    /// Searches pseudorandom candidates (up to ten million) for a magic number of a bishop (or
    /// rook) on `square` keeping `relevant_bits` bits: one whose product with the mask has at
    /// least six of its top eight bits set and that sends the occupancies of the mask to
    /// indices without mixing different attack sets. Returns zero when none is found.
    pub fn _find_magic_number(&mut self, square: Square, relevant_bits: u32, is_bishop: bool) -> (r: u64)
        requires
            square < 64,
            1 <= relevant_bits <= 12,
            relevant_bits <= popcount(slider_mask(square as int, is_bishop)),
        ensures
            r != 0 ==> magic_works(square as int, relevant_bits, is_bishop, r),
            final(self).bitboards == old(self).bitboards,
    {
        let mut occupancies: [u64; 4096] = [0u64; 4096];
        let mut attacks: [u64; 4096] = [0u64; 4096];
        let attack_mask = if is_bishop { mask_bishop_attacks(square) } else { mask_rook_attacks(square) };
        let occupancy_indices: u32 = 1u32 << relevant_bits;
        proof {
            assert(1u32 << relevant_bits <= 4096u32 && (1u32 << relevant_bits) as u64 == 1u64 << (relevant_bits as u64)) by (bit_vector)
                requires
                    1u32 <= relevant_bits <= 12u32,
            ;
        }
        let mut i: u32 = 0;
        while i < occupancy_indices
            invariant
                square < 64,
                1 <= relevant_bits <= 12,
                relevant_bits <= popcount(attack_mask),
                attack_mask == slider_mask(square as int, is_bishop),
                occupancy_indices <= 4096,
                occupancy_indices as u64 == 1u64 << (relevant_bits as u64),
                i <= occupancy_indices,
                forall|k: int| 0 <= k < i ==> #[trigger] occupancies[k] == numbered_occupancy(square as int, k, relevant_bits, is_bishop),
                forall|k: int| 0 <= k < i ==> #[trigger] attacks[k] == numbered_attacks(square as int, k, relevant_bits, is_bishop),
            decreases occupancy_indices - i,
        {
            let occupancy = set_occupancy(i, relevant_bits as u64, attack_mask);
            occupancies[i as usize] = occupancy;
            attacks[i as usize] = if is_bishop {
                generate_bishop_attacks_on_the_fly(square, occupancy)
            } else {
                generate_rook_attacks_on_the_fly(square, occupancy)
            };
            i = i + 1;
        }
        let mut tries: u32 = 0;
        while tries < 10000000
            invariant
                square < 64,
                1 <= relevant_bits <= 12,
                occupancy_indices <= 4096,
                occupancy_indices as u64 == 1u64 << (relevant_bits as u64),
                forall|k: int| 0 <= k < occupancy_indices ==> #[trigger] occupancies[k] == numbered_occupancy(square as int, k, relevant_bits, is_bishop),
                forall|k: int| 0 <= k < occupancy_indices ==> #[trigger] attacks[k] == numbered_attacks(square as int, k, relevant_bits, is_bishop),
                self.bitboards == old(self).bitboards,
            decreases 10000000 - tries,
        {
            tries = tries + 1;
            let magic_number = self._generate_magic_number();
            if count_bits(attack_mask.wrapping_mul(magic_number) & 0xFF00000000000000) < 6 {
                continue;
            }
            let mut used_attacks = zeros(8 * 4096);
            let mut index: u32 = 0;
            let mut fail = false;
            while index < occupancy_indices && !fail
                invariant
                    1 <= relevant_bits <= 12,
                    occupancy_indices <= 4096,
                    index <= occupancy_indices,
                    used_attacks@.len() == 8 * 4096,
                    !fail ==> forall|k: int| #![trigger attacks[k]] 0 <= k < index && attacks[k] != 0
                        ==> used_attacks@[magic_index(occupancies[k], magic_number, relevant_bits)] == attacks[k],
                decreases occupancy_indices - index + if fail { 0int } else { 1int },
            {
                let slot = index_of(occupancies[index as usize], magic_number, relevant_bits);
                let a = attacks[index as usize];
                let ghost before = used_attacks@;
                let ghost was_set = false;
                if used_attacks[slot] == 0 {
                    used_attacks.set(slot, a);
                    proof {
                        was_set = true;
                    }
                } else if used_attacks[slot] != a {
                    fail = true;
                }
                proof {
                    if !fail {
                        let ghost fact = forall|k: int| #![trigger attacks[k]] 0 <= k < index && attacks[k] != 0
                            ==> before[magic_index(occupancies[k], magic_number, relevant_bits)] == attacks[k];
                        assert(fact);
                        assert(before[slot as int] == 0 || before[slot as int] == a);
                        assert(a == attacks[index as int]);
                        assert(slot == magic_index(occupancies[index as int], magic_number, relevant_bits));
                        assert forall|k: int| #![trigger attacks[k]] 0 <= k < index + 1 && attacks[k] != 0
                            implies used_attacks@[magic_index(occupancies[k], magic_number, relevant_bits)] == attacks[k] by {
                            if k < index {
                                let mk = magic_index(occupancies[k], magic_number, relevant_bits);
                                lemma_magic_index_bound(occupancies[k], magic_number, relevant_bits);
                                assert(0 <= k < index && attacks[k] != 0);
                                assert(fact);
                                assert(before[mk] == attacks[k]);
                                if mk == slot as int {
                                    assert(before[slot as int] != 0);
                                    assert(!was_set);
                                    assert(used_attacks@ == before);
                                } else if was_set {
                                    assert(used_attacks@[mk] == before[mk]);
                                } else {
                                    assert(used_attacks@ == before);
                                }
                            } else {
                                assert(k == index);
                                if was_set {
                                    assert(used_attacks@[slot as int] == a);
                                } else {
                                    assert(used_attacks@ == before);
                                }
                            }
                        }
                    }
                }
                index = index + 1;
            }
            if !fail {
                proof {
                    assert forall|x: int, y: int| 0 <= x < (1u64 << relevant_bits) && 0 <= y < (1u64 << relevant_bits)
                        && #[trigger] magic_index(numbered_occupancy(square as int, x, relevant_bits, is_bishop), magic_number, relevant_bits)
                            == #[trigger] magic_index(numbered_occupancy(square as int, y, relevant_bits, is_bishop), magic_number, relevant_bits)
                        && numbered_attacks(square as int, x, relevant_bits, is_bishop) != 0
                        && numbered_attacks(square as int, y, relevant_bits, is_bishop) != 0
                        implies numbered_attacks(square as int, x, relevant_bits, is_bishop) == numbered_attacks(square as int, y, relevant_bits, is_bishop) by {
                        assert(occupancies[x] == numbered_occupancy(square as int, x, relevant_bits, is_bishop));
                        assert(occupancies[y] == numbered_occupancy(square as int, y, relevant_bits, is_bishop));
                        assert(attacks[x] == numbered_attacks(square as int, x, relevant_bits, is_bishop));
                        assert(attacks[y] == numbered_attacks(square as int, y, relevant_bits, is_bishop));
                        assert(used_attacks@[magic_index(occupancies[x], magic_number, relevant_bits)] == attacks[x]);
                        assert(used_attacks@[magic_index(occupancies[y], magic_number, relevant_bits)] == attacks[y]);
                    }
                }
                return magic_number;
            }
        }
        0
    }
}

} // verus!
