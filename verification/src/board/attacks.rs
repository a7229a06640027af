use vstd::prelude::*;

verus! {

use crate::chess::color::Color;
use crate::utils::{bit, set_bit, clear_bit, get_lsb, count_bits, popcount, lemma_bit_ops, lemma_bit_single};
use vstd::std_specs::bits::u64_trailing_zeros;

/// The row of square `s` (0 is the eighth rank).
pub open spec fn row(s: int) -> int {
    s / 8
}

/// The file of square `s` (0 is the a-file).
pub open spec fn col(s: int) -> int {
    s % 8
}

// ------------------------------------------------------------------ leapers

/// Whether a pawn of `side` on `s` attacks `j`: one row forward, one file aside.
pub open spec fn pawn_attack_geom(side: Color, s: u64, j: u64) -> bool {
    let dr = (j / 8) as int - (s / 8) as int;
    let df = (j % 8) as int - (s % 8) as int;
    (df == 1 || df == -1) && (if side == Color::White { dr == -1 } else { dr == 1 })
}

/// Whether a knight on `s` attacks `j`.
pub open spec fn knight_attack_geom(s: u64, j: u64) -> bool {
    let dr = (j / 8) as int - (s / 8) as int;
    let df = (j % 8) as int - (s % 8) as int;
    ((dr == 1 || dr == -1) && (df == 2 || df == -2)) || ((dr == 2 || dr == -2) && (df == 1 || df
        == -1))
}

/// Whether a king on `s` attacks `j`.
pub open spec fn king_attack_geom(s: u64, j: u64) -> bool {
    let dr = (j / 8) as int - (s / 8) as int;
    let df = (j % 8) as int - (s % 8) as int;
    -1 <= dr <= 1 && -1 <= df <= 1 && !(dr == 0 && df == 0)
}

/// The pawn attacks of `side` from a square, as a bitboard.
pub open spec fn pawn_attacks(side: Color, s: u64) -> u64 {
    let b = 1u64 << s;
    if side == Color::White {
        (if (b >> 7u64) & !0x0101010101010101u64 != 0 { b >> 7u64 } else { 0 }) | (if (b >> 9u64)
            & !0x8080808080808080u64 != 0 { b >> 9u64 } else { 0 })
    } else {
        (if (b << 7u64) & !0x8080808080808080u64 != 0 { b << 7u64 } else { 0 }) | (if (b << 9u64)
            & !0x0101010101010101u64 != 0 { b << 9u64 } else { 0 })
    }
}

/// The knight attacks from a square, as a bitboard.
pub open spec fn knight_attacks(s: u64) -> u64 {
    let b = 1u64 << s;
    (if (b >> 17u64) & !0x8080808080808080u64 != 0 { b >> 17u64 } else { 0 }) | (if (b >> 15u64)
        & !0x0101010101010101u64 != 0 { b >> 15u64 } else { 0 }) | (if (b >> 10u64)
        & !0xC0C0C0C0C0C0C0C0u64 != 0 { b >> 10u64 } else { 0 }) | (if (b >> 6u64)
        & !0x0303030303030303u64 != 0 { b >> 6u64 } else { 0 }) | (if (b << 17u64)
        & !0x0101010101010101u64 != 0 { b << 17u64 } else { 0 }) | (if (b << 15u64)
        & !0x8080808080808080u64 != 0 { b << 15u64 } else { 0 }) | (if (b << 10u64)
        & !0x0303030303030303u64 != 0 { b << 10u64 } else { 0 }) | (if (b << 6u64)
        & !0xC0C0C0C0C0C0C0C0u64 != 0 { b << 6u64 } else { 0 })
}

/// The king attacks from a square, as a bitboard.
pub open spec fn king_attacks(s: u64) -> u64 {
    let b = 1u64 << s;
    (if (b >> 9u64) & !0x8080808080808080u64 != 0 { b >> 9u64 } else { 0 }) | (if (b >> 8u64)
        != 0 { b >> 8u64 } else { 0 }) | (if (b >> 7u64) & !0x0101010101010101u64 != 0 {
        b >> 7u64
    } else { 0 }) | (if (b >> 1u64) & !0x8080808080808080u64 != 0 { b >> 1u64 } else { 0 }) | (
    if (b << 9u64) & !0x0101010101010101u64 != 0 { b << 9u64 } else { 0 }) | (if (b << 8u64) != 0 {
        b << 8u64
    } else { 0 }) | (if (b << 7u64) & !0x8080808080808080u64 != 0 { b << 7u64 } else { 0 }) | (
    if (b << 1u64) & !0x0101010101010101u64 != 0 { b << 1u64 } else { 0 })
}

/// The pawn attack bitboard holds exactly the squares one row forward and one file aside.
pub proof fn lemma_pawn_attacks_geom(side: Color, s: u64, j: u64)
    requires
        s < 64,
        j < 64,
    ensures
        bit(pawn_attacks(side, s), j) == pawn_attack_geom(side, s, j),
{
    if side == Color::White {
        assert(s < 64 && j < 64 ==> (((({
            let b = 1u64 << s;
            (if (b >> 7u64) & !0x0101010101010101u64 != 0 { b >> 7u64 } else { 0 }) | (if (b
                >> 9u64) & !0x8080808080808080u64 != 0 { b >> 9u64 } else { 0 })
        }) >> j) & 1u64 == 1u64) == ({
            let dr = (j / 8) as int - (s / 8) as int;
            let df = (j % 8) as int - (s % 8) as int;
            (df == 1 || df == -1) && dr == -1
        }))) by (bit_vector);
    } else {
        assert(s < 64 && j < 64 ==> (((({
            let b = 1u64 << s;
            (if (b << 7u64) & !0x8080808080808080u64 != 0 { b << 7u64 } else { 0 }) | (if (b
                << 9u64) & !0x0101010101010101u64 != 0 { b << 9u64 } else { 0 })
        }) >> j) & 1u64 == 1u64) == ({
            let dr = (j / 8) as int - (s / 8) as int;
            let df = (j % 8) as int - (s % 8) as int;
            (df == 1 || df == -1) && dr == 1
        }))) by (bit_vector);
    }
}

/// The knight attack bitboard holds exactly the squares a knight's jump away.
pub proof fn lemma_knight_attacks_geom(s: u64, j: u64)
    requires
        s < 64,
        j < 64,
    ensures
        bit(knight_attacks(s), j) == knight_attack_geom(s, j),
{
    assert(s < 64 && j < 64 ==> (((knight_attacks(s) >> j) & 1u64 == 1u64) == ({
        let dr = (j / 8) as int - (s / 8) as int;
        let df = (j % 8) as int - (s % 8) as int;
        ((dr == 1 || dr == -1) && (df == 2 || df == -2)) || ((dr == 2 || dr == -2) && (df == 1
            || df == -1))
    }))) by (bit_vector);
}

/// The king attack bitboard holds exactly the eight neighbouring squares.
pub proof fn lemma_king_attacks_geom(s: u64, j: u64)
    requires
        s < 64,
        j < 64,
    ensures
        bit(king_attacks(s), j) == king_attack_geom(s, j),
{
    assert(s < 64 && j < 64 ==> (((king_attacks(s) >> j) & 1u64 == 1u64) == ({
        let dr = (j / 8) as int - (s / 8) as int;
        let df = (j % 8) as int - (s % 8) as int;
        -1 <= dr <= 1 && -1 <= df <= 1 && !(dr == 0 && df == 0)
    }))) by (bit_vector);
}

/// The squares attacked by a pawn of `side` standing on `square`.
pub fn mask_pawn_attacks(square: u8, side: Color) -> (r: u64)
    requires
        square < 64,
    ensures
        r == pawn_attacks(side, square as u64),
        forall|j: u64| j < 64 ==> (#[trigger] bit(r, j) == pawn_attack_geom(side, square as u64, j)),
{
    proof {
        assert forall|j: u64| j < 64 implies (#[trigger] bit(pawn_attacks(side, square as u64), j)
            == pawn_attack_geom(side, square as u64, j)) by {
            lemma_pawn_attacks_geom(side, square as u64, j);
        }
    }
    let b: u64 = 1u64 << (square as u64);
    if side == Color::White {
        let a1 = if (b >> 7u64) & !0x0101010101010101u64 != 0 { b >> 7u64 } else { 0 };
        let a2 = if (b >> 9u64) & !0x8080808080808080u64 != 0 { b >> 9u64 } else { 0 };
        a1 | a2
    } else {
        let a1 = if (b << 7u64) & !0x8080808080808080u64 != 0 { b << 7u64 } else { 0 };
        let a2 = if (b << 9u64) & !0x0101010101010101u64 != 0 { b << 9u64 } else { 0 };
        a1 | a2
    }
}

/// The squares attacked by a knight standing on `square`.
pub fn mask_knight_attacks(square: u8) -> (r: u64)
    requires
        square < 64,
    ensures
        r == knight_attacks(square as u64),
        forall|j: u64| j < 64 ==> (#[trigger] bit(r, j) == knight_attack_geom(square as u64, j)),
{
    proof {
        assert forall|j: u64| j < 64 implies (#[trigger] bit(knight_attacks(square as u64), j)
            == knight_attack_geom(square as u64, j)) by {
            lemma_knight_attacks_geom(square as u64, j);
        }
    }
    let b: u64 = 1u64 << (square as u64);
    let a1 = if (b >> 17u64) & !0x8080808080808080u64 != 0 { b >> 17u64 } else { 0 };
    let a2 = if (b >> 15u64) & !0x0101010101010101u64 != 0 { b >> 15u64 } else { 0 };
    let a3 = if (b >> 10u64) & !0xC0C0C0C0C0C0C0C0u64 != 0 { b >> 10u64 } else { 0 };
    let a4 = if (b >> 6u64) & !0x0303030303030303u64 != 0 { b >> 6u64 } else { 0 };
    let a5 = if (b << 17u64) & !0x0101010101010101u64 != 0 { b << 17u64 } else { 0 };
    let a6 = if (b << 15u64) & !0x8080808080808080u64 != 0 { b << 15u64 } else { 0 };
    let a7 = if (b << 10u64) & !0x0303030303030303u64 != 0 { b << 10u64 } else { 0 };
    let a8 = if (b << 6u64) & !0xC0C0C0C0C0C0C0C0u64 != 0 { b << 6u64 } else { 0 };
    a1 | a2 | a3 | a4 | a5 | a6 | a7 | a8
}

/// The squares attacked by a king standing on `square`.
pub fn mask_king_attacks(square: u8) -> (r: u64)
    requires
        square < 64,
    ensures
        r == king_attacks(square as u64),
        forall|j: u64| j < 64 ==> (#[trigger] bit(r, j) == king_attack_geom(square as u64, j)),
{
    proof {
        assert forall|j: u64| j < 64 implies (#[trigger] bit(king_attacks(square as u64), j)
            == king_attack_geom(square as u64, j)) by {
            lemma_king_attacks_geom(square as u64, j);
        }
    }
    let b: u64 = 1u64 << (square as u64);
    let a1 = if (b >> 9u64) & !0x8080808080808080u64 != 0 { b >> 9u64 } else { 0 };
    let a2 = if (b >> 8u64) != 0 { b >> 8u64 } else { 0 };
    let a3 = if (b >> 7u64) & !0x0101010101010101u64 != 0 { b >> 7u64 } else { 0 };
    let a4 = if (b >> 1u64) & !0x8080808080808080u64 != 0 { b >> 1u64 } else { 0 };
    let a5 = if (b << 9u64) & !0x0101010101010101u64 != 0 { b << 9u64 } else { 0 };
    let a6 = if (b << 8u64) != 0 { b << 8u64 } else { 0 };
    let a7 = if (b << 7u64) & !0x8080808080808080u64 != 0 { b << 7u64 } else { 0 };
    let a8 = if (b << 1u64) & !0x0101010101010101u64 != 0 { b << 1u64 } else { 0 };
    a1 | a2 | a3 | a4 | a5 | a6 | a7 | a8
}

// ------------------------------------------------------------------ sliders

/// Moves coordinate `x` by `k` steps in direction `d` (-1, 0 or 1).
pub open spec fn step(x: int, d: int, k: int) -> int {
    if d > 0 {
        x + k
    } else if d < 0 {
        x - k
    } else {
        x
    }
}

/// The squares a slider on `s` reaches in direction (`dr`, `df`) from its `k`-th step on:
/// each square up to and including the first blocker, or up to the edge of the board.
pub open spec fn ray_attacks(s: int, dr: int, df: int, blockers: u64, k: int) -> u64
    decreases 8 - k,
{
    if k < 1 || k >= 8 {
        0
    } else {
        let r = step(row(s), dr, k);
        let f = step(col(s), df, k);
        if !(0 <= r < 8 && 0 <= f < 8) {
            0
        } else {
            let t = (r * 8 + f) as u64;
            (1u64 << t) | (if bit(blockers, t) {
                0u64
            } else {
                ray_attacks(s, dr, df, blockers, k + 1)
            })
        }
    }
}

/// The relevant-occupancy squares of a slider on `s` in direction (`dr`, `df`) from its
/// `k`-th step on: the squares of the ray before the edge of the board.
pub open spec fn ray_mask(s: int, dr: int, df: int, k: int) -> u64
    decreases 8 - k,
{
    if k < 1 || k >= 8 {
        0
    } else {
        let r = step(row(s), dr, k);
        let f = step(col(s), df, k);
        if !((if dr != 0 { 1 <= r <= 6 } else { 0 <= r < 8 }) && (if df != 0 { 1 <= f <= 6 } else {
            0 <= f < 8
        })) {
            0
        } else {
            let t = (r * 8 + f) as u64;
            (1u64 << t) | ray_mask(s, dr, df, k + 1)
        }
    }
}

/// The squares a bishop on `s` attacks when the squares of `blockers` are occupied.
pub open spec fn bishop_attacks(s: int, blockers: u64) -> u64 {
    ray_attacks(s, 1, 1, blockers, 1) | ray_attacks(s, -1, -1, blockers, 1) | ray_attacks(
        s,
        1,
        -1,
        blockers,
        1,
    ) | ray_attacks(s, -1, 1, blockers, 1)
}

/// The squares a rook on `s` attacks when the squares of `blockers` are occupied.
pub open spec fn rook_attacks(s: int, blockers: u64) -> u64 {
    ray_attacks(s, 1, 0, blockers, 1) | ray_attacks(s, -1, 0, blockers, 1) | ray_attacks(
        s,
        0,
        1,
        blockers,
        1,
    ) | ray_attacks(s, 0, -1, blockers, 1)
}

/// The occupancy squares that matter for a bishop on `s`.
pub open spec fn bishop_mask(s: int) -> u64 {
    ray_mask(s, 1, 1, 1) | ray_mask(s, -1, -1, 1) | ray_mask(s, 1, -1, 1) | ray_mask(s, -1, 1, 1)
}

/// The occupancy squares that matter for a rook on `s`.
pub open spec fn rook_mask(s: int) -> u64 {
    ray_mask(s, 1, 0, 1) | ray_mask(s, -1, 0, 1) | ray_mask(s, 0, 1, 1) | ray_mask(s, 0, -1, 1)
}

/// `|` is associative and commutative and has `0` as its unit.
pub proof fn lemma_or_facts(a: u64, b: u64, c: u64)
    by (bit_vector)
    ensures
        (a | b) | c == a | (b | c),
        a | b == b | a,
        a | 0u64 == a,
        0u64 | a == a,
{
}

/// The squares reached from `square` in one direction, up to the first blocker.
pub fn slide(square: u8, dr: i32, df: i32, blockers: u64) -> (res: u64)
    requires
        square < 64,
        -1 <= dr <= 1,
        -1 <= df <= 1,
    ensures
        res == ray_attacks(square as int, dr as int, df as int, blockers, 1),
{
    let rank: i32 = (square / 8) as i32;
    let file: i32 = (square % 8) as i32;
    let mut attacks: u64 = 0;
    let mut k: i32 = 1;
    let mut r: i32 = rank + dr;
    let mut f: i32 = file + df;
    proof {
        lemma_or_facts(ray_attacks(square as int, dr as int, df as int, blockers, 1), 0, 0);
    }
    loop
        invariant_except_break
            1 <= k <= 8,
            rank == square / 8,
            file == square % 8,
            -1 <= dr <= 1,
            -1 <= df <= 1,
            r == step(rank as int, dr as int, k as int),
            f == step(file as int, df as int, k as int),
            attacks | ray_attacks(square as int, dr as int, df as int, blockers, k as int)
                == ray_attacks(square as int, dr as int, df as int, blockers, 1),
        ensures
            attacks == ray_attacks(square as int, dr as int, df as int, blockers, 1),
        decreases 8 - k,
    {
        let ghost total = ray_attacks(square as int, dr as int, df as int, blockers, 1);
        if k >= 8 || r < 0 || r > 7 || f < 0 || f > 7 {
            proof {
                lemma_or_facts(attacks, 0, 0);
            }
            break;
        }
        let t: u8 = (r * 8 + f) as u8;
        let ghost rest = ray_attacks(square as int, dr as int, df as int, blockers, k + 1);
        let ghost old_attacks = attacks;
        set_bit(&mut attacks, t);
        proof {
            crate::utils::lemma_single_bit(blockers, t as u64);
            lemma_or_facts(old_attacks, 1u64 << t, rest);
            lemma_or_facts(old_attacks, 1u64 << t, 0);
            lemma_or_facts(1u64 << t, 0, 0);
            assert((blockers & (1u64 << t)) == ((1u64 << t) & blockers)) by (bit_vector);
        }
        if (blockers & (1u64 << t)) != 0 {
            break;
        }
        k = k + 1;
        r = r + dr;
        f = f + df;
    }
    attacks
}

/// The relevant squares of one direction of a slider's mask.
fn slide_mask(square: u8, dr: i32, df: i32) -> (res: u64)
    requires
        square < 64,
        -1 <= dr <= 1,
        -1 <= df <= 1,
    ensures
        res == ray_mask(square as int, dr as int, df as int, 1),
{
    let rank: i32 = (square / 8) as i32;
    let file: i32 = (square % 8) as i32;
    let mut attacks: u64 = 0;
    let mut k: i32 = 1;
    let mut r: i32 = rank + dr;
    let mut f: i32 = file + df;
    proof {
        lemma_or_facts(ray_mask(square as int, dr as int, df as int, 1), 0, 0);
    }
    loop
        invariant_except_break
            1 <= k <= 8,
            rank == square / 8,
            file == square % 8,
            -1 <= dr <= 1,
            -1 <= df <= 1,
            r == step(rank as int, dr as int, k as int),
            f == step(file as int, df as int, k as int),
            attacks | ray_mask(square as int, dr as int, df as int, k as int) == ray_mask(
                square as int,
                dr as int,
                df as int,
                1,
            ),
        ensures
            attacks == ray_mask(square as int, dr as int, df as int, 1),
        decreases 8 - k,
    {
        let inner_r = if dr != 0 { 1 <= r && r <= 6 } else { 0 <= r && r <= 7 };
        let inner_f = if df != 0 { 1 <= f && f <= 6 } else { 0 <= f && f <= 7 };
        if k >= 8 || !inner_r || !inner_f {
            proof {
                lemma_or_facts(attacks, 0, 0);
            }
            break;
        }
        let t: u8 = (r * 8 + f) as u8;
        let ghost rest = ray_mask(square as int, dr as int, df as int, k + 1);
        let ghost old_attacks = attacks;
        set_bit(&mut attacks, t);
        proof {
            lemma_or_facts(old_attacks, 1u64 << t, rest);
        }
        k = k + 1;
        r = r + dr;
        f = f + df;
    }
    attacks
}

/// The squares whose occupancy decides where a bishop on `square` can move
/// (its diagonals without the edge squares).
pub fn mask_bishop_attacks(square: u8) -> (r: u64)
    requires
        square < 64,
    ensures
        r == bishop_mask(square as int),
{
    slide_mask(square, 1, 1) | slide_mask(square, -1, -1) | slide_mask(square, 1, -1) | slide_mask(
        square,
        -1,
        1,
    )
}

/// The squares whose occupancy decides where a rook on `square` can move
/// (its rank and file without the edge squares).
pub fn mask_rook_attacks(square: u8) -> (r: u64)
    requires
        square < 64,
    ensures
        r == rook_mask(square as int),
{
    slide_mask(square, 1, 0) | slide_mask(square, -1, 0) | slide_mask(square, 0, 1) | slide_mask(
        square,
        0,
        -1,
    )
}

/// The squares a bishop on `square` attacks, given the occupied squares `blockers`.
pub fn generate_bishop_attacks_on_the_fly(square: u8, blockers: u64) -> (r: u64)
    requires
        square < 64,
    ensures
        r == bishop_attacks(square as int, blockers),
{
    slide(square, 1, 1, blockers) | slide(square, -1, -1, blockers) | slide(square, 1, -1, blockers)
        | slide(square, -1, 1, blockers)
}

/// The squares a rook on `square` attacks, given the occupied squares `blockers`.
pub fn generate_rook_attacks_on_the_fly(square: u8, blockers: u64) -> (r: u64)
    requires
        square < 64,
    ensures
        r == rook_attacks(square as int, blockers),
{
    slide(square, 1, 0, blockers) | slide(square, -1, 0, blockers) | slide(square, 0, 1, blockers)
        | slide(square, 0, -1, blockers)
}

// ------------------------------------------------------------------ occupancies and masks

/// The occupancy selected by `index` from the set bits of `mask`, from the `i`-th lowest set
/// bit on: the `k`-th lowest set bit of the mask is occupied when bit `k` of `index` is set
/// (for `k < n`).
pub open spec fn occupancy_from(index: u32, i: nat, n: nat, mask: u64) -> u64
    decreases n - i,
{
    if i >= n {
        0
    } else {
        let s = u64_trailing_zeros(mask) as u64;
        (if index & (1u32 << (i as u32)) != 0 {
            1u64 << s
        } else {
            0u64
        }) | occupancy_from(index, i + 1, n, mask & !(1u64 << s))
    }
}

/// Returns the occupancy of the squares of `attack_mask` selected by the bits of `index`:
/// the `i`-th lowest square of the mask is occupied when bit `i` of `index` is set.
pub fn set_occupancy(index: u32, bits_in_mask: u64, attack_mask: u64) -> (r: u64)
    requires
        bits_in_mask <= 32,
        bits_in_mask <= popcount(attack_mask),
    ensures
        r == occupancy_from(index, 0, bits_in_mask as nat, attack_mask),
{
    let mut occupancy: u64 = 0;
    let mut mutable_attack_mask = attack_mask;
    let mut i: u64 = 0;
    proof {
        lemma_or_facts(occupancy_from(index, 0, bits_in_mask as nat, attack_mask), 0, 0);
    }
    while i < bits_in_mask
        invariant
            i <= bits_in_mask <= 32,
            popcount(mutable_attack_mask) + i == popcount(attack_mask),
            bits_in_mask <= popcount(attack_mask),
            occupancy | occupancy_from(index, i as nat, bits_in_mask as nat, mutable_attack_mask)
                == occupancy_from(index, 0, bits_in_mask as nat, attack_mask),
        decreases bits_in_mask - i,
    {
        proof {
            if mutable_attack_mask == 0 {
                crate::utils::lemma_popcount_zero();
            }
        }
        let square = get_lsb(mutable_attack_mask);
        let ghost m = mutable_attack_mask;
        clear_bit(&mut mutable_attack_mask, square);
        proof {
            crate::utils::lemma_popcount_clear(m, square as u64);
        }
        let ghost rest = occupancy_from(index, (i + 1) as nat, bits_in_mask as nat, mutable_attack_mask);
        let ghost old_occ = occupancy;
        if (index & (1u32 << (i as u32))) != 0 {
            set_bit(&mut occupancy, square);
            proof {
                lemma_or_facts(old_occ, 1u64 << square, rest);
            }
        } else {
            proof {
                lemma_or_facts(0, 0, rest);
                lemma_or_facts(rest, 0, 0);
            }
        }
        i = i + 1;
    }
    proof {
        lemma_or_facts(occupancy, 0, 0);
    }
    occupancy
}

/// Whether square `j` is on the selected file (when `file_num` is not -1) or else on the
/// selected row (when `rank_num` is not -1).
pub open spec fn file_rank_mask_has(file_num: i32, rank_num: i32, j: int) -> bool {
    if file_num != -1 {
        col(j) == file_num
    } else {
        rank_num != -1 && row(j) == rank_num
    }
}

/// The squares of file `file_num` (0 = a-file), or, when `file_num` is -1, of row `rank_num`
/// (0 = eighth rank); no square when both are -1.
pub fn set_file_rank_mask(file_num: i32, rank_num: i32) -> (mask: u64)
    ensures
        forall|j: u64| j < 64 ==> (#[trigger] bit(mask, j) == file_rank_mask_has(file_num, rank_num, j as int)),
{
    let mut mask: u64 = 0;
    let mut square: u8 = 0;
    proof {
        assert forall|j: u64| j < 64 implies !#[trigger] bit(0u64, j) by {
            lemma_bit_ops(0u64, 0u64, j);
        }
    }
    while square < 64
        invariant
            square <= 64,
            forall|j: u64| j < 64 ==> (#[trigger] bit(mask, j) == (j < square && file_rank_mask_has(file_num, rank_num, j as int))),
        decreases 64 - square,
    {
        let rank: i32 = (square / 8) as i32;
        let file: i32 = (square % 8) as i32;
        let hit = if file_num != -1 {
            file == file_num
        } else if rank_num != -1 {
            rank == rank_num
        } else {
            false
        };
        let ghost old_mask = mask;
        if hit {
            set_bit(&mut mask, square);
        }
        proof {
            assert forall|j: u64| j < 64 implies (#[trigger] bit(mask, j) == (j < square + 1 && file_rank_mask_has(file_num, rank_num, j as int))) by {
                lemma_bit_ops(old_mask, 1u64 << square, j);
                lemma_bit_single(j, square as u64);
            }
        }
        square = square + 1;
    }
    mask
}

// ------------------------------------------------------------------ unions of attacks

/// The union of `f(s)` over the squares `s < n` of the bitboard `x`.
pub open spec fn union_over(x: u64, f: spec_fn(u64) -> u64, n: nat) -> u64
    decreases n,
{
    if n == 0 {
        0
    } else {
        union_over(x, f, (n - 1) as nat) | (if bit(x, (n - 1) as u64) {
            f((n - 1) as u64)
        } else {
            0u64
        })
    }
}

/// Taking a set square out of the bitboard takes its term out of the union.
pub proof fn lemma_union_pop(x: u64, f: spec_fn(u64) -> u64, s: u64, n: nat)
    requires
        s < 64,
        n <= 64,
        bit(x, s),
    ensures
        union_over(x, f, n) == (if s < n { f(s) } else { 0u64 }) | union_over(x & !(1u64 << s), f, n),
    decreases n,
{
    let y = x & !(1u64 << s);
    if n == 0 {
        lemma_or_facts(0, 0, 0);
    } else {
        let m = (n - 1) as nat;
        lemma_union_pop(x, f, s, m);
        lemma_bit_ops(x, !(1u64 << s), m as u64);
        lemma_bit_ops(1u64 << s, 0, m as u64);
        lemma_bit_single(m as u64, s);
        let a = union_over(y, f, m);
        let kx = if bit(x, m as u64) { f(m as u64) } else { 0u64 };
        let ks = if s < m { f(s) } else { 0u64 };
        lemma_or_facts(ks, a, kx);
        lemma_or_facts(a, kx, 0);
        lemma_or_facts(f(s), a, 0);
        lemma_or_facts(a, f(s), 0);
        lemma_or_facts(0, a, kx);
    }
}

/// The empty bitboard contributes nothing to a union.
pub proof fn lemma_union_zero(f: spec_fn(u64) -> u64, n: nat)
    requires
        n <= 64,
    ensures
        union_over(0u64, f, n) == 0,
    decreases n,
{
    if n > 0 {
        lemma_union_zero(f, (n - 1) as nat);
        lemma_bit_ops(0u64, 0u64, (n - 1) as u64);
        lemma_or_facts(0, 0, 0);
    }
}

} // verus!
