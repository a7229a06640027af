use vstd::prelude::*;

verus! {

use crate::utils::{get_pseudorandom_number_u64, random_u64_from, random_u64_next_state};

/// The seed of the pseudorandom stream that the Zobrist keys are drawn from.
pub const ZOBRIST_SEED: u32 = 1804289383;

/// The state of the pseudorandom stream after `k` 64-bit draws from `seed`.
pub open spec fn rand_state(seed: u32, k: nat) -> u32
    decreases k,
{
    if k == 0 {
        seed
    } else {
        random_u64_next_state(rand_state(seed, (k - 1) as nat))
    }
}

/// The `k`-th (0-based) 64-bit draw of the pseudorandom stream from `seed`.
pub open spec fn rand_draw(seed: u32, k: nat) -> u64 {
    random_u64_from(rand_state(seed, k))
}

/// The Zobrist keys: one per piece and square, one per en passant square,
/// one per castling-rights value and one for the side to move.
pub struct ZobristKeys {
    pub piece: [[u64; 64]; 12],
    pub castling: [u64; 16],
    pub enpassant: [u64; 64],
    pub turn: u64,
}

/// Whether the keys are the successive draws of the stream from `seed`:
/// the piece keys first (piece by piece, square by square), then the en passant keys,
/// the castling keys and the turn key.
pub open spec fn keys_drawn_from(k: ZobristKeys, seed: u32) -> bool {
    &&& forall|p: int, s: int| 0 <= p < 12 && 0 <= s < 64 ==> #[trigger] k.piece[p][s] == rand_draw(seed, (p * 64 + s) as nat)
    &&& forall|s: int| 0 <= s < 64 ==> #[trigger] k.enpassant[s] == rand_draw(seed, (768 + s) as nat)
    &&& forall|i: int| 0 <= i < 16 ==> #[trigger] k.castling[i] == rand_draw(seed, (832 + i) as nat)
    &&& k.turn == rand_draw(seed, 848)
}

/// Draws the Zobrist keys from the pseudorandom stream starting at `*seed`.
pub fn draw_zobrist_keys(seed: &mut u32) -> (k: ZobristKeys)
    ensures
        keys_drawn_from(k, *old(seed)),
        *final(seed) == rand_state(*old(seed), 849),
{
    let ghost s0 = *seed;
    let mut keys = ZobristKeys { piece: [[0u64; 64]; 12], castling: [0u64; 16], enpassant: [0u64; 64], turn: 0 };
    let mut piece: usize = 0;
    while piece < 12
        invariant
            piece <= 12,
            *seed == rand_state(s0, (piece * 64) as nat),
            forall|p: int, s: int| 0 <= p < piece && 0 <= s < 64 ==> #[trigger] keys.piece[p][s] == rand_draw(s0, (p * 64 + s) as nat),
        decreases 12 - piece,
    {
        let mut square: usize = 0;
        let mut row: [u64; 64] = [0u64; 64];
        while square < 64
            invariant
                piece < 12,
                square <= 64,
                *seed == rand_state(s0, (piece * 64 + square) as nat),
                forall|s: int| 0 <= s < square ==> #[trigger] row[s] == rand_draw(s0, (piece * 64 + s) as nat),
            decreases 64 - square,
        {
            let v = get_pseudorandom_number_u64(seed);
            row[square] = v;
            square = square + 1;
        }
        keys.piece[piece] = row;
        piece = piece + 1;
    }
    let mut square: usize = 0;
    while square < 64
        invariant
            square <= 64,
            *seed == rand_state(s0, (768 + square) as nat),
            forall|p: int, s: int| 0 <= p < 12 && 0 <= s < 64 ==> #[trigger] keys.piece[p][s] == rand_draw(s0, (p * 64 + s) as nat),
            forall|s: int| 0 <= s < square ==> #[trigger] keys.enpassant[s] == rand_draw(s0, (768 + s) as nat),
        decreases 64 - square,
    {
        let v = get_pseudorandom_number_u64(seed);
        keys.enpassant[square] = v;
        square = square + 1;
    }
    let mut i: usize = 0;
    while i < 16
        invariant
            i <= 16,
            *seed == rand_state(s0, (832 + i) as nat),
            forall|p: int, s: int| 0 <= p < 12 && 0 <= s < 64 ==> #[trigger] keys.piece[p][s] == rand_draw(s0, (p * 64 + s) as nat),
            forall|s: int| 0 <= s < 64 ==> #[trigger] keys.enpassant[s] == rand_draw(s0, (768 + s) as nat),
            forall|j: int| 0 <= j < i ==> #[trigger] keys.castling[j] == rand_draw(s0, (832 + j) as nat),
        decreases 16 - i,
    {
        let v = get_pseudorandom_number_u64(seed);
        keys.castling[i] = v;
        i = i + 1;
    }
    keys.turn = get_pseudorandom_number_u64(seed);
    keys
}

} // verus!
