use vstd::prelude::*;

verus! {

use crate::board::Position;
use crate::board::attacks::{king_attacks, mask_king_attacks};
use crate::chess::color::Color;
use crate::chess::constants::{FILE_A, FILE_H};
use crate::search::constants::{GET_RANK, DOUBLED_PAWN_PENALTY, ISOLATED_PAWN_PENALTY, PASSED_PAWN_BONUS,
    SEMI_OPEN_FILE_SCORE, OPEN_FILE_SCORE, BISHOP_PAIR_BONUS};
use crate::utils::{bit, pop_lsb, get_lsb, count_bits, popcount, lemma_popcount_clear, lemma_popcount_below_bound, lemma_bit_ops};
use vstd::std_specs::bits::u64_trailing_zeros;
use crate::utils::{flip_square, square_sum, lemma_flip_square, lemma_square_sum_flip, lemma_popcount_square_sum, lemma_low_mask, lemma_bits_ext, popcount_below};

// ------------------------------------------------------------------ sums over bitboards

/// The sum of `f(j)` over the squares `j < n` set in `b`.
pub open spec fn sum_over(b: u64, f: spec_fn(u64) -> int, n: nat) -> int
    decreases n,
{
    if n == 0 {
        0
    } else {
        sum_over(b, f, (n - 1) as nat) + if bit(b, (n - 1) as u64) { f((n - 1) as u64) } else { 0 }
    }
}

/// Clearing a set square takes its term out of the sum.
pub proof fn lemma_sum_over_clear(b: u64, f: spec_fn(u64) -> int, i: u64, n: nat)
    requires
        i < 64,
        n <= 64,
        bit(b, i),
    ensures
        sum_over(b, f, n) == sum_over(b & !(1u64 << i), f, n) + if i < n { f(i) } else { 0 },
    decreases n,
{
    if n > 0 {
        let k = (n - 1) as u64;
        lemma_sum_over_clear(b, f, i, (n - 1) as nat);
        crate::movegen::lemma_mask_bits(b, 1u64 << i, k);
        crate::utils::lemma_bit_single(k, i);
    }
}

/// The sum over the empty bitboard is zero.
pub proof fn lemma_sum_over_zero(f: spec_fn(u64) -> int, n: nat)
    requires
        n <= 64,
    ensures
        sum_over(0u64, f, n) == 0,
    decreases n,
{
    if n > 0 {
        lemma_sum_over_zero(f, (n - 1) as nat);
        lemma_bit_ops(0u64, 0u64, (n - 1) as u64);
    }
}

/// A sum of `n` terms each within a thousand of zero is within `1000 * n` of zero.
pub proof fn lemma_sum_over_bounds(b: u64, f: spec_fn(u64) -> int, n: nat)
    requires
        n <= 64,
        forall|j: u64| j < 64 ==> -1000 <= #[trigger] f(j) <= 1000,
    ensures
        -1000 * n <= sum_over(b, f, n) <= 1000 * n,
    decreases n,
{
    if n > 0 {
        lemma_sum_over_bounds(b, f, (n - 1) as nat);
    }
}

// ------------------------------------------------------------------ masks

/// The squares of the file of `s`.
pub open spec fn file_mask(s: u64) -> u64 {
    FILE_A << (s % 8)
}

/// The squares of the files next to the file of `s`.
pub open spec fn isolated_pawn_mask(s: u64) -> u64 {
    let f = s % 8;
    (if f > 0 { FILE_A << ((f - 1) as u64) } else { 0 }) | (if f < 7 { FILE_A << ((f + 1) as u64) } else { 0 })
}

/// The squares in front of a white pawn on `s`, on its file and the files next to it.
pub open spec fn white_passed_pawn_mask(s: u64) -> u64 {
    let r = s / 8;
    (file_mask(s) | isolated_pawn_mask(s)) & (((1u64 << (8 * r) as u64) - 1) as u64)
}

/// The squares in front of a black pawn on `s`, on its file and the files next to it.
pub open spec fn black_passed_pawn_mask(s: u64) -> u64 {
    let r = s / 8;
    if r == 7 {
        0
    } else {
        (file_mask(s) | isolated_pawn_mask(s)) & !(((1u64 << (8 * r + 8) as u64) - 1) as u64)
    }
}

/// A bit shifted within the word is at least one.
proof fn lemma_shifted_bit_positive(k: u64)
    by (bit_vector)
    requires
        k < 64,
    ensures
        1u64 << k >= 1u64,
{
}

/// The squares of the file of `square`.
pub fn get_file_mask(square: u8) -> (r: u64)
    requires
        square < 64,
    ensures
        r == file_mask(square as u64),
{
    FILE_A << (square % 8)
}

/// The squares of the files next to the file of `square`.
pub fn get_isolated_pawn_mask(square: u8) -> (r: u64)
    requires
        square < 64,
    ensures
        r == isolated_pawn_mask(square as u64),
{
    let f = square % 8;
    let left = if f > 0 { FILE_A << (f - 1) } else { 0 };
    let right = if f < 7 { FILE_A << (f + 1) } else { 0 };
    left | right
}

/// The squares in front of a white pawn on `square`, on its file and the files next to it.
pub fn get_white_passed_pawn_mask(square: u8) -> (r: u64)
    requires
        square < 64,
    ensures
        r == white_passed_pawn_mask(square as u64),
{
    let r = square / 8;
    proof {
        lemma_shifted_bit_positive((8 * r) as u64);
    }
    let ahead = (1u64 << (8 * r)) - 1;
    (get_file_mask(square) | get_isolated_pawn_mask(square)) & ahead
}

/// The squares in front of a black pawn on `square`, on its file and the files next to it.
pub fn get_black_passed_pawn_mask(square: u8) -> (r: u64)
    requires
        square < 64,
    ensures
        r == black_passed_pawn_mask(square as u64),
{
    let r = square / 8;
    if r == 7 {
        0
    } else {
        proof {
            lemma_shifted_bit_positive((8 * r + 8) as u64);
        }
        let behind = (1u64 << (8 * r + 8)) - 1;
        (get_file_mask(square) | get_isolated_pawn_mask(square)) & !behind
    }
}

// ------------------------------------------------------------------ evaluation terms

/// The score of a pawn of `color` on `s`: the doubled-pawn penalty times the pawns of its
/// color on its file when there are more than one, the isolated-pawn penalty when no pawn of
/// its color stands on the files next to it, and the passed-pawn bonus of its rank when no
/// opponent's pawn stands in front of it on its file or the files next to it.
pub open spec fn pawn_term(bb: Seq<u64>, color: Color, s: u64) -> int {
    let own = if color == Color::White { bb[0] } else { bb[6] };
    let other = if color == Color::White { bb[6] } else { bb[0] };
    let doubled = popcount(own & file_mask(s));
    let passed_mask = if color == Color::White { white_passed_pawn_mask(s) } else { black_passed_pawn_mask(s) };
    let rank = if color == Color::White { GET_RANK[s as int] as int } else { 7 - GET_RANK[s as int] };
    (if doubled > 1 { DOUBLED_PAWN_PENALTY * doubled } else { 0 })
        + (if own & isolated_pawn_mask(s) == 0 { ISOLATED_PAWN_PENALTY as int } else { 0 })
        + (if passed_mask & other == 0 { PASSED_PAWN_BONUS[rank] as int } else { 0 })
}

/// The score of a rook of `color` on `s`: the semi-open file score when no pawn of its color
/// stands on its file, plus the open file score when no pawn at all does.
pub open spec fn rook_term(bb: Seq<u64>, color: Color, s: u64) -> int {
    let own = if color == Color::White { bb[0] } else { bb[6] };
    (if own & file_mask(s) == 0 { SEMI_OPEN_FILE_SCORE as int } else { 0 })
        + (if (bb[0] | bb[6]) & file_mask(s) == 0 { OPEN_FILE_SCORE as int } else { 0 })
}

/// The terms of the rooks (`rooks`) or of the pawns of `color`.
pub open spec fn term_fn(bb: Seq<u64>, color: Color, rooks: bool) -> spec_fn(u64) -> int {
    |s: u64| if rooks { rook_term(bb, color, s) } else { pawn_term(bb, color, s) }
}

/// A score of white's against the same score of black's, seen from the side to move.
pub open spec fn for_side(turn: Color, white: int, black: int) -> int {
    if turn == Color::White { white - black } else { black - white }
}

/// The pawn structure score, from the side to move.
pub open spec fn pawn_structure_score(pos: Position) -> int {
    let bb = pos.bitboards@;
    for_side(pos.turn, sum_over(bb[0], term_fn(bb, Color::White, false), 64),
        sum_over(bb[6], term_fn(bb, Color::Black, false), 64))
}

/// The open file score of the rooks, from the side to move.
pub open spec fn open_files_score(pos: Position) -> int {
    let bb = pos.bitboards@;
    for_side(pos.turn, sum_over(bb[3], term_fn(bb, Color::White, true), 64),
        sum_over(bb[9], term_fn(bb, Color::Black, true), 64))
}

/// The pawn shield of a king: six per pawn of its color next to its lowest king, nothing
/// without a king.
pub open spec fn shield(kings: u64, pawns: u64) -> int {
    if kings != 0 {
        (6 * popcount(king_attacks(u64_trailing_zeros(kings) as u64) & pawns)) as int
    } else {
        0
    }
}

/// The king safety score, from the side to move.
pub open spec fn king_safety_score(pos: Position) -> int {
    let bb = pos.bitboards@;
    for_side(pos.turn, shield(bb[5], bb[0]), shield(bb[11], bb[6]))
}

/// The bishop pair score, from the side to move.
pub open spec fn bishop_pair_score(pos: Position) -> int {
    let bb = pos.bitboards@;
    for_side(pos.turn, if popcount(bb[2]) >= 2 { BISHOP_PAIR_BONUS as int } else { 0 },
        if popcount(bb[8]) >= 2 { BISHOP_PAIR_BONUS as int } else { 0 })
}

/// The greatest material a side may count for the evaluation to stay within 32 bits.
pub const MATERIAL_BOUND: i32 = 268435456;

/// The static evaluation, from the side to move: the material balance plus the pawn
/// structure, open file, king safety and bishop pair scores.
pub open spec fn static_eval(pos: Position) -> int {
    pos.material[pos.turn@ as int] - pos.material[1 - pos.turn@ as int] + pawn_structure_score(pos)
        + open_files_score(pos) + king_safety_score(pos) + bishop_pair_score(pos)
}

/// Whether both sides' material lies within the bound.
pub open spec fn material_bounded(pos: Position) -> bool {
    &&& -MATERIAL_BOUND <= pos.material[0] <= MATERIAL_BOUND
    &&& -MATERIAL_BOUND <= pos.material[1] <= MATERIAL_BOUND
}

/// The bound on the score of every evaluation term but the material.
pub const TERMS_BOUND: i32 = 262144;

/// Sums the terms of the pawns or rooks of one color over a bitboard.
fn sum_terms(bb: &[u64; 12], pieces: u64, color: Color, rooks: bool) -> (r: i32)
    ensures
        r == sum_over(pieces, term_fn(bb@, color, rooks), 64),
        -64000 <= r <= 64000,
{
    let ghost f = term_fn(bb@, color, rooks);
    let own = if color == Color::White { bb[0] } else { bb[6] };
    let other = if color == Color::White { bb[6] } else { bb[0] };
    let mut remaining = pieces;
    let mut score: i32 = 0;
    proof {
        assert forall|j: u64| j < 64 implies -1000 <= #[trigger] f(j) <= 1000 by {
            lemma_popcount_below_bound(own & file_mask(j), 64);
            let g = GET_RANK[j as int];
            assert(0 <= g <= 7);
            assert(0 <= PASSED_PAWN_BONUS[g as int] <= 200);
            assert(0 <= PASSED_PAWN_BONUS[7 - g] <= 200);
        }
        lemma_sum_over_bounds(pieces, f, 64);
    }
    while remaining != 0
        invariant
            own == (if color == Color::White { bb@[0] } else { bb@[6] }),
            other == (if color == Color::White { bb@[6] } else { bb@[0] }),
            f == term_fn(bb@, color, rooks),
            forall|j: u64| j < 64 ==> -1000 <= #[trigger] f(j) <= 1000,
            score + sum_over(remaining, f, 64) == sum_over(pieces, f, 64),
            -64000 <= sum_over(pieces, f, 64) <= 64000,
        decreases remaining,
    {
        let ghost before = remaining;
        let square = pop_lsb(&mut remaining);
        proof {
            lemma_sum_over_clear(before, f, square as u64, 64);
            lemma_sum_over_bounds(remaining, f, 64);
        }
        let file = get_file_mask(square);
        let term: i32 = if rooks {
            let semi = if own & file == 0 { SEMI_OPEN_FILE_SCORE } else { 0 };
            let open = if (bb[0] | bb[6]) & file == 0 { OPEN_FILE_SCORE } else { 0 };
            semi + open
        } else {
            let doubled_pawns = count_bits(own & file);
            let doubled = if doubled_pawns > 1 { DOUBLED_PAWN_PENALTY * (doubled_pawns as i32) } else { 0 };
            let isolated = if own & get_isolated_pawn_mask(square) == 0 { ISOLATED_PAWN_PENALTY } else { 0 };
            let passed = if color == Color::White {
                if get_white_passed_pawn_mask(square) & other == 0 { PASSED_PAWN_BONUS[GET_RANK[square as usize] as usize] } else { 0 }
            } else {
                if get_black_passed_pawn_mask(square) & other == 0 { PASSED_PAWN_BONUS[7 - GET_RANK[square as usize] as usize] } else { 0 }
            };
            doubled + isolated + passed
        };
        proof {
            let sq = square as u64;
            if rooks {
                assert(term == rook_term(bb@, color, sq));
            } else {
                let doubled_pawns = popcount(own & file_mask(sq));
                assert(own == (if color == Color::White { bb@[0] } else { bb@[6] }));
                assert(term == pawn_term(bb@, color, sq));
            }
        }
        assert(term == f(square as u64));
        score = score + term;
    }
    proof {
        lemma_sum_over_zero(f, 64);
    }
    score
}

/// The pawn shield of the lowest king of `kings` among `pawns`.
fn king_shield(kings: u64, pawns: u64) -> (r: i32)
    ensures
        r == shield(kings, pawns),
        0 <= r <= 384,
{
    if kings != 0 {
        let king_sq = get_lsb(kings);
        let n = count_bits(mask_king_attacks(king_sq) & pawns);
        (n as i32) * 6
    } else {
        0
    }
}

impl Position {
    /// The pawn structure score, from the side to move.
    pub fn evaluate_pawn_structure(&self) -> (r: i32)
        ensures
            r == pawn_structure_score(*self),
            -128000 <= r <= 128000,
    {
        let white_score = sum_terms(&self.bitboards, self.bitboards[0], Color::White, false);
        let black_score = sum_terms(&self.bitboards, self.bitboards[6], Color::Black, false);
        if self.turn == Color::White { white_score - black_score } else { black_score - white_score }
    }

    /// The open file score of the rooks, from the side to move.
    pub fn evaluate_open_files(&self) -> (r: i32)
        ensures
            r == open_files_score(*self),
            -128000 <= r <= 128000,
    {
        let white_score = sum_terms(&self.bitboards, self.bitboards[3], Color::White, true);
        let black_score = sum_terms(&self.bitboards, self.bitboards[9], Color::Black, true);
        if self.turn == Color::White { white_score - black_score } else { black_score - white_score }
    }

    /// The king safety score, from the side to move: six per pawn of its color next to each
    /// king.
    pub fn evaluate_king_safety(&self) -> (r: i32)
        ensures
            r == king_safety_score(*self),
            -384 <= r <= 384,
    {
        let white_score = king_shield(self.bitboards[5], self.bitboards[0]);
        let black_score = king_shield(self.bitboards[11], self.bitboards[6]);
        if self.turn == Color::White { white_score - black_score } else { black_score - white_score }
    }

    /// The bishop pair score, from the side to move.
    pub fn evaluate_bishop_pair(&self) -> (r: i32)
        ensures
            r == bishop_pair_score(*self),
            -30 <= r <= 30,
    {
        let white_bonus = if count_bits(self.bitboards[2]) >= 2 { BISHOP_PAIR_BONUS } else { 0 };
        let black_bonus = if count_bits(self.bitboards[8]) >= 2 { BISHOP_PAIR_BONUS } else { 0 };
        if self.turn == Color::White { white_bonus - black_bonus } else { black_bonus - white_bonus }
    }

    /// The static evaluation, from the side to move.
    pub fn evaluate(&self) -> (r: i32)
        requires
            material_bounded(*self),
        ensures
            r == static_eval(*self),
            -2 * MATERIAL_BOUND - TERMS_BOUND <= r <= 2 * MATERIAL_BOUND + TERMS_BOUND,
    {
        let turn = self.turn.to_index();
        let material_score = self.material[turn] - self.material[1 - turn];
        material_score + self.evaluate_pawn_structure() + self.evaluate_open_files() + self.evaluate_king_safety()
            + self.evaluate_bishop_pair()
    }
}


// ------------------------------------------------------------------ color symmetry

/// A file shifted along the rank holds the squares of that file.
proof fn lemma_file_bits(f: u64, i: u64)
    by (bit_vector)
    requires
        f < 8,
        i < 64,
    ensures
        (((0x0101010101010101u64 << f) >> i) & 1u64 == 1u64) == (i % 8 == f),
{
}

/// The squares of the file mask of `s` are those on its file.
proof fn lemma_file_mask_bit(s: u64, i: u64)
    requires
        s < 64,
        i < 64,
    ensures
        bit(file_mask(s), i) == (i % 8 == s % 8),
{
    lemma_file_bits(s % 8, i);
}

/// The squares of the isolated-pawn mask of `s` are those on the files next to its file.
proof fn lemma_isolated_mask_bit(s: u64, i: u64)
    requires
        s < 64,
        i < 64,
    ensures
        bit(isolated_pawn_mask(s), i) == ((s % 8 > 0 && i % 8 == s % 8 - 1) || (s % 8 < 7 && i % 8 == s % 8 + 1)),
{
    let f = s % 8;
    let l = if f > 0 { FILE_A << ((f - 1) as u64) } else { 0 };
    let r = if f < 7 { FILE_A << ((f + 1) as u64) } else { 0 };
    lemma_bit_ops(l, r, i);
    lemma_bit_ops(0u64, 0u64, i);
    if f > 0 {
        lemma_file_bits((f - 1) as u64, i);
    }
    if f < 7 {
        lemma_file_bits((f + 1) as u64, i);
    }
}

/// Whether square `i` is on the file of `s` or a file next to it.
pub open spec fn near_file(s: u64, i: u64) -> bool {
    i % 8 == s % 8 || (s % 8 > 0 && i % 8 == s % 8 - 1) || (s % 8 < 7 && i % 8 == s % 8 + 1)
}

/// The squares of a white pawn's passed mask: near its file, on rows above its own.
proof fn lemma_white_passed_bit(s: u64, i: u64)
    requires
        s < 64,
        i < 64,
    ensures
        bit(white_passed_pawn_mask(s), i) == (near_file(s, i) && i / 8 < s / 8),
{
    let r = s / 8;
    lemma_file_mask_bit(s, i);
    lemma_isolated_mask_bit(s, i);
    lemma_bit_ops(file_mask(s), isolated_pawn_mask(s), i);
    let low = (((1u64 << (8 * r) as u64) - 1) as u64);
    lemma_bit_ops(file_mask(s) | isolated_pawn_mask(s), low, i);
    lemma_low_mask((8 * r) as u64, i);
}

/// The squares of a black pawn's passed mask: near its file, on rows below its own.
proof fn lemma_black_passed_bit(s: u64, i: u64)
    requires
        s < 64,
        i < 64,
    ensures
        bit(black_passed_pawn_mask(s), i) == (near_file(s, i) && i / 8 > s / 8),
{
    let r = s / 8;
    if r == 7 {
        lemma_bit_ops(0u64, 0u64, i);
    } else {
        lemma_file_mask_bit(s, i);
        lemma_isolated_mask_bit(s, i);
        lemma_bit_ops(file_mask(s), isolated_pawn_mask(s), i);
        let low = (((1u64 << (8 * r + 8) as u64) - 1) as u64);
        lemma_bit_ops(file_mask(s) | isolated_pawn_mask(s), !low, i);
        lemma_bit_ops(low, low, i);
        lemma_low_mask((8 * r + 8) as u64, i);
    }
}

/// Two boards whose squares correspond under the flip are both empty or both not.
proof fn lemma_zero_iff_flip(a: u64, b: u64)
    requires
        forall|i: u64| i < 64 ==> #[trigger] bit(a, i) == bit(b, flip_square(i)),
    ensures
        (a == 0) == (b == 0),
{
    if a == 0 {
        assert forall|i: u64| i < 64 implies bit(b, i) == bit(0u64, i) by {
            lemma_flip_square(i);
            let k = flip_square(i);
            assert(bit(a, k) == bit(b, flip_square(k)));
            lemma_bit_ops(0u64, 0u64, k);
            lemma_bit_ops(0u64, 0u64, i);
        }
        lemma_bits_ext(b, 0u64);
    }
    if b == 0 {
        assert forall|i: u64| i < 64 implies bit(a, i) == bit(0u64, i) by {
            lemma_flip_square(i);
            lemma_bit_ops(0u64, 0u64, flip_square(i));
            lemma_bit_ops(0u64, 0u64, i);
        }
        lemma_bits_ext(a, 0u64);
    }
}

/// The rank table counts ranks from white's side.
proof fn lemma_rank_table(j: u64)
    requires
        j < 64,
    ensures
        GET_RANK[j as int] == 7 - j / 8,
{
    assert(forall|i: int| 0 <= i < 64 ==> #[trigger] GET_RANK[i] == 7 - i / 8);
}


/// The pawn boards of `cc` are those of `bb` with the colors swapped and the ranks flipped.
pub open spec fn pawns_flipped(bb: Seq<u64>, cc: Seq<u64>) -> bool {
    &&& forall|j: u64| j < 64 ==> #[trigger] bit(cc[0], j) == bit(bb[6], flip_square(j))
    &&& forall|j: u64| j < 64 ==> #[trigger] bit(cc[6], j) == bit(bb[0], flip_square(j))
}

/// The relation of flipped pawn boards holds both ways.
proof fn lemma_pawns_flipped_back(bb: Seq<u64>, cc: Seq<u64>)
    requires
        pawns_flipped(bb, cc),
    ensures
        pawns_flipped(cc, bb),
{
    assert forall|j: u64| j < 64 implies #[trigger] bit(bb[0], j) == bit(cc[6], flip_square(j)) by {
        lemma_flip_square(j);
        assert(bit(cc[6], flip_square(j)) == bit(bb[0], flip_square(flip_square(j))));
    }
    assert forall|j: u64| j < 64 implies #[trigger] bit(bb[6], j) == bit(cc[0], flip_square(j)) by {
        lemma_flip_square(j);
        assert(bit(cc[0], flip_square(j)) == bit(bb[6], flip_square(flip_square(j))));
    }
}

/// A white pawn of `bb` on `j` scores what the black pawn of `cc` on the flipped square scores.
proof fn lemma_pawn_term_flip(bb: Seq<u64>, cc: Seq<u64>, j: u64)
    requires
        j < 64,
        pawns_flipped(bb, cc),
    ensures
        pawn_term(bb, Color::White, j) == pawn_term(cc, Color::Black, flip_square(j)),
{
    lemma_flip_square(j);
    let m = flip_square(j);
    // Doubled pawns: the same count on the file.
    let a = bb[0] & file_mask(j);
    let b = cc[6] & file_mask(m);
    let fa = |i: u64| if bit(a, i) { 1int } else { 0int };
    let fb = |i: u64| if bit(b, i) { 1int } else { 0int };
    assert forall|i: u64| i < 64 implies #[trigger] fa(i) == fb(flip_square(i)) by {
        lemma_flip_square(i);
        lemma_bit_ops(bb[0], file_mask(j), i);
        lemma_bit_ops(cc[6], file_mask(m), flip_square(i));
        lemma_file_mask_bit(j, i);
        lemma_file_mask_bit(m, flip_square(i));
        assert(bit(cc[6], flip_square(i)) == bit(bb[0], flip_square(flip_square(i))));
    }
    lemma_square_sum_flip(fa, fb);
    lemma_popcount_square_sum(a, 64);
    lemma_popcount_square_sum(b, 64);
    assert(popcount(a) == popcount(b));
    // Isolated pawns: the same neighbours.
    let ia = bb[0] & isolated_pawn_mask(j);
    let ib = cc[6] & isolated_pawn_mask(m);
    assert forall|i: u64| i < 64 implies #[trigger] bit(ia, i) == bit(ib, flip_square(i)) by {
        lemma_flip_square(i);
        lemma_bit_ops(bb[0], isolated_pawn_mask(j), i);
        lemma_bit_ops(cc[6], isolated_pawn_mask(m), flip_square(i));
        lemma_isolated_mask_bit(j, i);
        lemma_isolated_mask_bit(m, flip_square(i));
        assert(bit(cc[6], flip_square(i)) == bit(bb[0], flip_square(flip_square(i))));
    }
    lemma_zero_iff_flip(ia, ib);
    // Passed pawns: the same squares in front, seen from each side.
    let pa = white_passed_pawn_mask(j) & bb[6];
    let pb = black_passed_pawn_mask(m) & cc[0];
    assert forall|i: u64| i < 64 implies #[trigger] bit(pa, i) == bit(pb, flip_square(i)) by {
        lemma_flip_square(i);
        lemma_bit_ops(white_passed_pawn_mask(j), bb[6], i);
        lemma_bit_ops(black_passed_pawn_mask(m), cc[0], flip_square(i));
        lemma_white_passed_bit(j, i);
        lemma_black_passed_bit(m, flip_square(i));
        assert(bit(cc[0], flip_square(i)) == bit(bb[6], flip_square(flip_square(i))));
    }
    lemma_zero_iff_flip(pa, pb);
    // The rank counted from each side.
    lemma_rank_table(j);
    lemma_rank_table(m);
}

/// A sum over a bitboard is the sum over the board of the terms of its set squares.
proof fn lemma_sum_over_square_sum(b: u64, f: spec_fn(u64) -> int, n: nat)
    ensures
        sum_over(b, f, n) == square_sum(|i: u64| if bit(b, i) { f(i) } else { 0int }, n),
    decreases n,
{
    if n > 0 {
        lemma_sum_over_square_sum(b, f, (n - 1) as nat);
    }
}

/// The sum of the terms of white's pawns of `bb` is the sum of the terms of black's pawns of
/// the flipped board `cc`.
proof fn lemma_white_pawns_sum_flip(bb: Seq<u64>, cc: Seq<u64>)
    requires
        pawns_flipped(bb, cc),
    ensures
        sum_over(bb[0], term_fn(bb, Color::White, false), 64) == sum_over(cc[6], term_fn(cc, Color::Black, false), 64),
{
    let f = term_fn(bb, Color::White, false);
    let g = term_fn(cc, Color::Black, false);
    let fa = |i: u64| if bit(bb[0], i) { f(i) } else { 0int };
    let fb = |i: u64| if bit(cc[6], i) { g(i) } else { 0int };
    assert forall|i: u64| i < 64 implies #[trigger] fa(i) == fb(flip_square(i)) by {
        lemma_flip_square(i);
        lemma_pawn_term_flip(bb, cc, i);
        assert(bit(cc[6], flip_square(i)) == bit(bb[0], flip_square(flip_square(i))));
    }
    lemma_square_sum_flip(fa, fb);
    lemma_sum_over_square_sum(bb[0], f, 64);
    lemma_sum_over_square_sum(cc[6], g, 64);
}

/// The pawn structure score is the same for both colors: swapping the colors of the pawns,
/// flipping the board's ranks and handing the move to the other side leaves it unchanged.
pub proof fn law_pawn_structure_color_symmetric(p: Position, q: Position)
    requires
        q.turn != p.turn,
        forall|j: u64| j < 64 ==> #[trigger] bit(q.bitboards@[0], j) == bit(p.bitboards@[6], flip_square(j)),
        forall|j: u64| j < 64 ==> #[trigger] bit(q.bitboards@[6], j) == bit(p.bitboards@[0], flip_square(j)),
    ensures
        pawn_structure_score(q) == pawn_structure_score(p),
{
    let bb = p.bitboards@;
    let cc = q.bitboards@;
    assert(pawns_flipped(bb, cc));
    lemma_white_pawns_sum_flip(bb, cc);
    lemma_pawns_flipped_back(bb, cc);
    lemma_white_pawns_sum_flip(cc, bb);
}

} // verus!
