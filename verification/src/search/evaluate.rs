use vstd::prelude::*;
use std::sync::Arc;
use std::sync::atomic::{AtomicBool, Ordering};

verus! {

use crate::board::{Position, HistoryEntry, white_occupancy, black_occupancy};
use crate::board::make::{make_move_post, unmake_move_post, move_playable, same_board_state, saved_entry, saved_entry_full, enpassant_exposes_king};
use crate::tt::lemma_unmake_restores_saved;
use crate::board::query::{attackers, in_check};
use crate::board::STACK_SIZE;
use crate::chess::_move::{BitPackedMove, null_move};
use crate::chess::color::{Color, opposite};
use crate::chess::piece::Piece;
use crate::movegen::{moves_ok, generated_move_ok};
use crate::movegen::pseudo::{is_pseudo_move, pseudo_complete, law_pseudo_moves_listed};
use crate::search::constants::{MAX_PLY, SEE_PIECE_VALUES, _MVV_LVA, LMR_TABLE, RFP_MARGIN, RAZOR_MARGIN, DELTA_MARGIN, LMP_MOVE_COUNTS, _FULL_DEPTH_MOVES, _REDUCTION_LIMIT};
use crate::search::eval::{MATERIAL_BOUND, material_bounded, static_eval};
use crate::search::options::SearchOptions;
use crate::tt::{TranspositionTable, TranspositionTableEntryFlag};
use crate::utils::{get_lsb, bit};

// ------------------------------------------------------------------ principal variation

/// Triangular PV table for storing principal variation during search: the line found from
/// each ply.
pub struct PVTable {
    table: [[BitPackedMove; 64]; 64],
    length: [usize; 64],
}

impl PVTable {
    /// The line from ply `k` has at most `64 - k` moves.
    pub closed spec fn wf(&self) -> bool {
        forall|k: int| 0 <= k < 64 ==> #[trigger] self.length[k] <= 64 - k
    }

    /// The line found from ply `k`.
    pub closed spec fn line(&self, k: int) -> Seq<BitPackedMove> {
        self.table[k]@.subrange(0, self.length[k] as int)
    }

    /// The move stored in cell `i` of the line from ply `k` (cells past the line's length
    /// included).
    pub closed spec fn cell(&self, k: int, i: int) -> BitPackedMove {
        self.table[k][i]
    }

    /// The empty table: every line empty and every cell the null move.
    pub fn new() -> (r: PVTable)
        ensures
            r.wf(),
            forall|k: int| 0 <= k < 64 ==> #[trigger] r.line(k) == Seq::<BitPackedMove>::empty(),
            forall|k: int, i: int| 0 <= k < 64 && 0 <= i < 64 ==> #[trigger] r.cell(k, i) == null_move(),
    {
        let r = PVTable { table: [[BitPackedMove::default(); 64]; 64], length: [0; 64] };
        proof {
            assert forall|k: int| 0 <= k < 64 implies #[trigger] r.line(k) == Seq::<BitPackedMove>::empty() by {
                assert(r.line(k) =~= Seq::<BitPackedMove>::empty());
            }
        }
        r
    }

    /// Clear the PV length at the given ply (called at start of node)
    pub fn clear_at(&mut self, ply: usize)
        requires
            old(self).wf(),
        ensures
            final(self).wf(),
            forall|k: int| 0 <= k < 64 && k != ply ==> #[trigger] final(self).line(k) == old(self).line(k),
            ply < 64 ==> final(self).line(ply as int) == Seq::<BitPackedMove>::empty(),
    {
        if ply < MAX_PLY {
            self.length[ply] = 0;
            proof {
                assert(self.line(ply as int) =~= Seq::<BitPackedMove>::empty());
            }
        }
    }

    /// Update PV when a new best move is found: the line from `ply` becomes the move followed by
    /// the line from the next ply.
    pub fn update(&mut self, ply: usize, m: BitPackedMove)
        requires
            old(self).wf(),
        ensures
            final(self).wf(),
            forall|k: int| 0 <= k < 64 && k != ply ==> #[trigger] final(self).line(k) == old(self).line(k),
            ply + 1 < 64 ==> final(self).line(ply as int) == seq![m] + old(self).line(ply + 1),
            ply + 1 == 64 ==> final(self).line(ply as int) == seq![m],
    {
        if ply >= MAX_PLY {
            return;
        }
        let mut row = self.table[ply];
        row[0] = m;
        if ply + 1 < MAX_PLY {
            let child_len = self.length[ply + 1];
            let child = self.table[ply + 1];
            let mut i: usize = 0;
            while i < child_len
                invariant
                    ply + 1 < 64,
                    child_len == self.length[ply + 1],
                    child_len <= 63 - ply,
                    child == self.table[ply + 1],
                    i <= child_len,
                    row[0] == m,
                    forall|j: int| 0 <= j < i ==> #[trigger] row[j + 1] == child[j],
                decreases child_len - i,
            {
                row[i + 1] = child[i];
                i = i + 1;
            }
            self.table[ply] = row;
            self.length[ply] = child_len + 1;
            proof {
                let a = self.line(ply as int);
                let b = seq![m] + old(self).line(ply + 1);
                assert(self.table[ply as int] == row);
                assert(old(self).table[ply + 1] == child);
                assert(a.len() == b.len());
                assert forall|j: int| 0 <= j < a.len() implies a[j] == b[j] by {
                    if j > 0 {
                        assert(row[(j - 1) + 1] == child[j - 1]);
                    }
                }
                assert(a =~= b);
            }
        } else {
            self.table[ply] = row;
            self.length[ply] = 1;
            proof {
                assert(self.line(ply as int) =~= seq![m]);
            }
        }
        proof {
            assert forall|k: int| 0 <= k < 64 && k != ply implies #[trigger] self.line(k) == old(self).line(k) by {
                assert(self.table[k] == old(self).table[k]);
            }
        }
    }

    /// The line found from ply 0.
    pub fn get_pv(&self) -> (r: Vec<BitPackedMove>)
        requires
            self.wf(),
        ensures
            r@ == self.line(0),
    {
        let len = self.length[0];
        let row = self.table[0];
        let mut v: Vec<BitPackedMove> = Vec::new();
        let mut i: usize = 0;
        while i < len
            invariant
                len == self.length[0],
                len <= 64,
                row == self.table[0],
                i <= len,
                v@ == row@.subrange(0, i as int),
            decreases len - i,
        {
            v.push(row[i]);
            i = i + 1;
            proof {
                assert(v@ =~= row@.subrange(0, i as int));
            }
        }
        v
    }
}

// ------------------------------------------------------------------ search state

/// How often beta cutoffs came at the first and second moves searched, out of how many; and
/// the sum of the numbers of the moves that caused them.
#[derive(Debug, Copy, Clone)]
pub struct Cutoffs {
    pub total: u32,
    pub move_1: u32,
    pub move_2: u32,
    pub avg_cutoff_move_no: u64,
}

impl Cutoffs {
    /// No cutoff counted.
    pub fn new() -> (r: Self)
        ensures
            r.total == 0 && r.move_1 == 0 && r.move_2 == 0 && r.avg_cutoff_move_no == 0,
    {
        Self { total: 0, move_1: 0, move_2: 0, avg_cutoff_move_no: 0 }
    }
}

/// What a search found: its score, best move and depth, the current ply, the nodes visited
/// and the cutoff counts.
#[derive(Debug)]
pub struct PositionEvaluation {
    pub score: i32,
    pub best_move: Option<BitPackedMove>,
    pub depth: u8,
    pub ply: u32,
    pub nodes: i32,
    pub cutoffs: Cutoffs,
}

/// A saved entry restores a well-formed board with bounded material.
pub open spec fn entry_ok(e: HistoryEntry) -> bool {
    &&& e.occupancies[0] == white_occupancy(e.bitboards@)
    &&& e.occupancies[1] == black_occupancy(e.bitboards@)
    &&& e.occupancies[2] == e.occupancies[0] | e.occupancies[1]
    &&& (e.enpassant matches Some(s) ==> s < 64)
    &&& e.castling@ < 16
    &&& -MATERIAL_BOUND <= e.material[0] <= MATERIAL_BOUND
    &&& -MATERIAL_BOUND <= e.material[1] <= MATERIAL_BOUND
}

/// The position can be searched: it is well formed, its material is bounded, and every saved
/// entry restores such a board.
pub open spec fn searchable(pos: Position) -> bool {
    &&& pos.wf()
    &&& material_bounded(pos)
    &&& forall|k: int| 0 <= k < pos.position_stack@.len() ==> #[trigger] entry_ok(pos.position_stack@[k])
}

/// Playing a move keeps a position searchable.
pub proof fn lemma_make_keeps_searchable(pre: Position, post: Position, m: BitPackedMove, only_captures: bool, r: bool)
    requires
        searchable(pre),
        pre.depth < STACK_SIZE,
        post.wf(),
        make_move_post(pre, post, m, only_captures, r),
    ensures
        searchable(post),
{
    if !(only_captures && m.capture_idx() == 12) {
        assert(entry_ok(saved_entry(pre)));
        assert forall|k: int| 0 <= k < post.position_stack@.len() implies #[trigger] entry_ok(post.position_stack@[k]) by {
            if k != pre.depth {
                assert(post.position_stack@[k] == pre.position_stack@[k]);
            }
        }
    }
}

/// Passing the move keeps a position searchable.
pub proof fn lemma_null_keeps_searchable(pre: Position, post: Position)
    requires
        searchable(pre),
        post.position_stack@ == pre.position_stack@.push(saved_entry_full(pre)),
        post.turn == opposite(pre.turn),
        post.bitboards == pre.bitboards,
        post.occupancies == pre.occupancies,
        post.enpassant == pre.enpassant,
        post.castling == pre.castling,
        post.material == pre.material,
        post.move_list_stack == pre.move_list_stack,
    ensures
        searchable(post),
{
    assert(entry_ok(saved_entry_full(pre)));
    assert forall|k: int| 0 <= k < post.position_stack@.len() implies #[trigger] entry_ok(post.position_stack@[k]) by {
        if k < pre.position_stack@.len() {
            assert(post.position_stack@[k] == pre.position_stack@[k]);
        }
    }
}

/// Taking back a move keeps a position searchable.
pub proof fn lemma_unmake_keeps_searchable(pre: Position, post: Position)
    requires
        searchable(pre),
        1 <= pre.depth <= pre.position_stack@.len(),
        unmake_move_post(pre, post),
    ensures
        searchable(post),
{
    assert(entry_ok(pre.position_stack@[pre.depth - 1]));
}

/// The bound every score of the search keeps.
pub const SCORE_LIMIT: i32 = 600000000;

/// The bound on the static evaluation (and on every score but a search's bounds).
pub const VALUE_LIMIT: i32 = 540000000;

/// The bound on a static exchange evaluation: 32 exchanges of the most valuable piece.
pub const SEE_BOUND: i32 = 640000;

/// Whether a score lies within the bounds every search keeps.
pub open spec fn score_within(score: int) -> bool {
    -SCORE_LIMIT <= score <= SCORE_LIMIT
}

/// The pieces of either color attacking `m`'s target square once the moving piece has left
/// its square.
pub open spec fn recapturers(pos: Position, m: BitPackedMove) -> u64 {
    let occ = pos.occupancies[2] ^ (1u64 << m.from_sq());
    (attackers(pos.bitboards@, m.to_sq() as u64, Color::White, occ) | attackers(pos.bitboards@, m.to_sq() as u64, Color::Black, occ)) & occ
}

/// The pieces of either color attacking `target` among the squares of `occ`, with `occ` as the
/// occupancy that blocks sliders.
pub open spec fn exchange_attackers(bb: Seq<u64>, target: u64, occ: u64) -> u64 {
    (attackers(bb, target, Color::White, occ) | attackers(bb, target, Color::Black, occ)) & occ
}

/// The least valuable piece of `side` among `atk`, looking from kind `p` on (pawn, knight,
/// bishop, rook, queen, king): its index and the lowest of its squares in `atk`.
pub open spec fn least_attacker_from(bb: Seq<u64>, side: Color, atk: u64, p: int) -> Option<(int, u64)>
    decreases 6 - p,
{
    if p >= 6 {
        None
    } else if bb[6 * side@ + p] & atk != 0 {
        Some((6 * side@ + p, vstd::std_specs::bits::u64_trailing_zeros(bb[6 * side@ + p] & atk) as u64))
    } else {
        least_attacker_from(bb, side, atk, p + 1)
    }
}

/// The value of the exchange on `target` for the side that just captured with `attacker`, the
/// `d`th capture of the sequence, when the gain before it was `prev`: the opponent (`side`)
/// stops when neither stopping nor taking back can gain, or has no piece left to take back
/// with, or the sequence is 32 captures long; else it takes back with its least valuable
/// attacker and each side keeps the better of stopping and going on.
pub open spec fn exchange_value(bb: Seq<u64>, target: u64, occ: u64, side: Color, attacker: int, prev: int, d: int) -> int
    decreases 32 - d,
{
    if d >= 32 {
        prev
    } else {
        let g = see_value(attacker as u32) - prev;
        if max_score(-prev, g) < 0 {
            prev
        } else {
            match least_attacker_from(bb, side, exchange_attackers(bb, target, occ), 0) {
                None => prev,
                Some(a) => -max_score(-prev, exchange_value(bb, target, occ ^ (1u64 << a.1), opposite(side), a.0, g, d + 1)),
            }
        }
    }
}

/// The static exchange value of the capture `m`.
pub open spec fn see_spec(pos: Position, m: BitPackedMove) -> int {
    exchange_value(pos.bitboards@, m.to_sq() as u64, pos.occupancies[2] ^ (1u64 << m.from_sq()), opposite(pos.turn),
        m.piece_idx() as int, see_value(m.capture_idx()), 1)
}

/// The gain at the front of the list once the gains before index `k` are folded back from
/// `v`, the value at `k`: each earlier side keeps the better of stopping and going on.
pub open spec fn fold_back(gain: Seq<i32>, k: int, v: int) -> int
    decreases k,
{
    if k <= 0 {
        v
    } else {
        fold_back(gain, k - 1, -max_score(-(gain[k - 1] as int), v))
    }
}

/// Folding back from index `k` reads no gain at or after `k`.
proof fn lemma_fold_back_update(gain: Seq<i32>, k: int, v: int, i: int, x: i32)
    requires
        0 <= k <= i < gain.len(),
    ensures
        fold_back(gain.update(i, x), k, v) == fold_back(gain, k, v),
    decreases k,
{
    if k > 0 {
        lemma_fold_back_update(gain, k - 1, -max_score(-(gain[k - 1] as int), v), i, x);
    }
}

/// Whether the piece bitboard `k` holds a square of `mask`.
pub open spec fn hits(bb: Seq<u64>, k: int, mask: u64) -> bool {
    bb[k] & mask != 0
}

/// The exchange value of a piece.
pub open spec fn see_value(p: u32) -> int {
    SEE_PIECE_VALUES[p as int] as int
}

/// The material gain of capturing on `m`'s target square and answering every recapture with
/// the least valuable attacker, each side stopping when continuing would lose (static
/// exchange evaluation, `see_spec`). Positive when the capture wins material, negative when it
/// loses: at most the piece taken, at least the piece taken less the capturing piece, and
/// exactly the piece taken when the opponent has no piece to take back with.
pub fn static_exchange(position: &Position, m: BitPackedMove) -> (r: i32)
    requires
        m.wf(),
        m.piece_idx() < 12,
    ensures
        -SEE_BOUND <= r <= SEE_BOUND,
        see_value(m.capture_idx()) - see_value(m.piece_idx()) <= r <= see_value(m.capture_idx()),
        (forall|k: int| 6 * (1 - position.turn@) <= k < 6 * (1 - position.turn@) + 6
            ==> !#[trigger] hits(position.bitboards@, k, recapturers(*position, m)))
            ==> r == see_value(m.capture_idx()),
        r == see_spec(*position, m),
{
    let target = m.get_to();
    let mut gain: [i32; 33] = [0; 33];
    let mut d: usize = 0;

    let mut occ = position.occupancies[2];
    let mut attacker = m.get_piece();
    let mut side = position.turn;

    // Initial capture gain
    gain[0] = SEE_PIECE_VALUES[m.get_capture().to_index()];
    let ghost g0 = gain[0];
    let ghost g1 = SEE_PIECE_VALUES[m.piece_idx() as int] - g0;

    // Remove the initial attacker from occupancy
    occ = occ ^ (1u64 << m.get_from());

    // Recompute all attackers with updated occupancy (handles x-ray discovery)
    let mut attackers = position.get_all_attackers_to(target, occ) & occ;
    let ghost first_attackers = attackers;
    let ghost bb = position.bitboards@;
    let ghost s1 = see_spec(*position, m);

    side = side.opponent();

    loop
        invariant_except_break
            d < 32,
            s1 == fold_back(gain@, d as int, exchange_value(bb, target as u64, occ, side, attacker@ as int, gain[d as int] as int, d + 1)),
            d >= 1 ==> !(forall|k: int| 6 * (1 - position.turn@) <= k < 6 * (1 - position.turn@) + 6
                ==> !#[trigger] hits(position.bitboards@, k, first_attackers)),
        invariant
            d <= 32,
            target < 64,
            attacker@ <= 12,
            forall|i: int| 0 <= i < 32 ==> -20000 * (i + 1) <= #[trigger] gain[i] <= 20000 * (i + 1),
            gain[32] == 0,
            gain[0] == g0,
            g0 == see_value(m.capture_idx()),
            g1 == see_value(m.piece_idx()) - g0,
            d >= 1 ==> gain[1] == g1,
            d == 0 ==> attacker@ == m.piece_idx() && side == opposite(position.turn) && attackers == first_attackers,
            first_attackers == recapturers(*position, m),
            bb == position.bitboards@,
            attackers == exchange_attackers(bb, target as u64, occ),
        ensures
            s1 == fold_back(gain@, d - 1, gain[d - 1] as int),
            1 <= d <= 32,
            forall|i: int| 0 <= i < 32 ==> -20000 * (i + 1) <= #[trigger] gain[i] <= 20000 * (i + 1),
            gain[32] == 0,
            gain[0] == g0,
            gain[1] == g1,
            d == 1 || !(forall|k: int| 6 * (1 - position.turn@) <= k < 6 * (1 - position.turn@) + 6
                ==> !#[trigger] hits(position.bitboards@, k, first_attackers)),
        decreases 32 - d,
    {
        d = d + 1;
        if d >= 32 {
            break;
        }

        // Speculative store: if opponent captures our piece on the target
        let ghost gain_before = gain@;
        gain[d] = SEE_PIECE_VALUES[attacker.to_index()] - gain[d - 1];
        proof {
            lemma_fold_back_update(gain_before, d - 1, exchange_value(bb, target as u64, occ, side, attacker@ as int,
                gain_before[d - 1] as int, d as int), d as int, gain[d as int]);
        }

        // Stand pat pruning: if neither side can improve, break
        let a = -gain[d - 1];
        let best = if a > gain[d] { a } else { gain[d] };
        if best < 0 {
            break;
        }

        // Find least valuable attacker of current side
        let side_offset = side.to_index() * 6;
        let mut found = false;
        let mut from_sq: u8 = 0;

        let mut p: usize = 0;
        while p < 6
            invariant_except_break
                !found,
            invariant
                p <= 6,
                side_offset == side@ * 6,
                least_attacker_from(position.bitboards@, side, attackers, 0) == least_attacker_from(position.bitboards@, side, attackers, p as int),
                from_sq < 64,
                attacker@ <= 12,
                forall|k: int| side_offset <= k < side_offset + p ==> !#[trigger] hits(position.bitboards@, k, attackers),
            ensures
                from_sq < 64,
                attacker@ <= 12,
                !found ==> forall|k: int| side_offset <= k < side_offset + 6 ==> !#[trigger] hits(position.bitboards@, k, attackers),
                found ==> side_offset <= attacker@ < side_offset + 6 && hits(position.bitboards@, attacker@ as int, attackers),
                found ==> least_attacker_from(position.bitboards@, side, attackers, 0) == Some((attacker@ as int, from_sq as u64)),
                !found ==> least_attacker_from(position.bitboards@, side, attackers, 0) is None,
            decreases 6 - p,
        {
            let piece_attackers = position.bitboards[side_offset + p] & attackers;
            if piece_attackers != 0 {
                from_sq = get_lsb(piece_attackers);
                attacker = Piece::from_index(side_offset + p);
                found = true;
                break;
            }
            p = p + 1;
        }

        if !found {
            break;
        }
        proof {
            if d == 1 {
                assert(hits(position.bitboards@, attacker@ as int, first_attackers));
            }
        }

        // Remove this attacker from occupancy
        let ghost occ_before = occ;
        let ghost side_before = side;
        occ = occ ^ (1u64 << from_sq);

        // Recompute attackers with updated occupancy (discovers x-ray attacks)
        attackers = position.get_all_attackers_to(target, occ) & occ;

        side = side.opponent();
        proof {
            assert(fold_back(gain@, d as int, exchange_value(bb, target as u64, occ, side, attacker@ as int, gain[d as int] as int, d + 1))
                == fold_back(gain@, d - 1, -max_score(-(gain[d - 1] as int), exchange_value(bb, target as u64, occ, side,
                    attacker@ as int, gain[d as int] as int, d + 1))));
        }
    }

    // Propagate back with negamax logic: each side takes the better of stopping and going on.
    assert forall|i: int| 0 <= i < 33 implies -SEE_BOUND <= #[trigger] gain[i] <= SEE_BOUND by {
        if i < 32 {
            assert(-20000 * (i + 1) <= gain[i] <= 20000 * (i + 1));
        }
    }
    let ghost d_end = d;
    while d > 1
        invariant
            1 <= d <= d_end,
            d_end <= 32,
            forall|i: int| 0 <= i < 33 ==> -SEE_BOUND <= #[trigger] gain[i] <= SEE_BOUND,
            g1 == see_value(m.piece_idx()) - g0,
            see_value(m.piece_idx()) >= 0,
            gain[1] <= g1,
            d >= 2 ==> gain[0] == g0,
            d <= 1 ==> gain[0] <= g0 && gain[0] >= g0 - see_value(m.piece_idx()),
            d_end == 1 ==> gain[0] == g0,
            s1 == fold_back(gain@, d - 1, gain[d - 1] as int),
        decreases d,
    {
        d = d - 1;
        let a = -gain[d - 1];
        let best = if a > gain[d] { a } else { gain[d] };
        let ghost gain_before = gain@;
        gain[d - 1] = -best;
        proof {
            assert(fold_back(gain_before, d as int, gain_before[d as int] as int)
                == fold_back(gain_before, d - 1, -max_score(-(gain_before[d - 1] as int), gain_before[d as int] as int)));
            lemma_fold_back_update(gain_before, d - 1, gain[d - 1] as int, d - 1, gain[d - 1]);
        }
    }

    gain[0]
}

/// The iteration state of a search: the aspiration window, the depth of the next iteration
/// and the last one, the line of the last completed iteration, the move played when no line
/// completes, and whether the iterations are over.
pub struct SearchState {
    pub alpha: i32,
    pub beta: i32,
    pub current_depth: u8,
    pub depth: u8,
    pub pv: Vec<BitPackedMove>,
    pub fallback_move: BitPackedMove,
    pub finished: bool,
}

/// What a completed iteration found: when it started, its score and its line.
pub struct SearchReport {
    pub start_time: u128,
    pub score: i32,
    pub pv: Vec<BitPackedMove>,
}

/// A searcher: its state while running, what it found, its move ordering tables, its clock
/// and limits, its shared flags and its role among the searching threads.
pub struct Evaluator {
    pub running: bool,
    pub result: PositionEvaluation,
    pub killer_moves: [[BitPackedMove; 64]; 2],
    /// History heuristic table: indexed by [piece][to_square]
    pub history_moves: [[i32; 64]; 12],
    pub started_at: u128,
    pub options: SearchOptions,
    pub repetition_table: Vec<u64>,
    pub counter_move_table: [[BitPackedMove; 64]; 64],
    pub stop_flag: Option<Arc<AtomicBool>>,
    pub pv_table: PVTable,
    pub silent: bool,
    /// Soft time limit: don't start a new iteration if elapsed exceeds this
    pub optimum_time: u32,
    /// Hard time limit: abort the search immediately if elapsed approaches this
    pub maximum_time: u32,
    /// Shared flag for pondering: true while pondering, set to false on ponderhit
    pub ponder_flag: Option<Arc<AtomicBool>>,
    /// Side to move at search start, cached for ponderhit time recalc
    pub search_turn: Color,
    /// Depth offset for Lazy SMP thread diversity (odd helper threads start at depth+1)
    pub depth_offset: u8,
    /// Whether this is the main search thread (thread 0): it raises the stop flag when done
    pub is_main_thread: bool,
    /// Precomputed LMR reduction table: [depth][move_count]
    pub lmr_table: [[u8; 64]; 64],
    /// The scores of the moves searched at the last node a search completed, in order.
    pub node_scores: Ghost<Seq<int>>,
    /// For each of those scores, the search below the move that gave it: the position and the
    /// ply, repetition table, window and depth it was searched with (its value is the negated
    /// score).
    pub node_calls: Ghost<Seq<(Position, int, Seq<u64>, int, int, int)>>,
}

/// The soft and hard time limits of a move: the move time when one is given; no limit for an
/// infinite search or while pondering; otherwise the time left of the side to move divided by
/// the moves to go (25 when not given, at least 1) plus half the increment, capped at a third
/// of the time left, at least 1 ms, the hard limit three times that (with 32-bit wrapping
/// arithmetic, as the computation has).
pub open spec fn move_times(options: SearchOptions, turn: Color) -> (u32, u32) {
    if options.movetime is Some {
        (options.movetime->0, options.movetime->0)
    } else if options.infinite || options.ponder {
        (u32::MAX, u32::MAX)
    } else {
        let time_left: u32 = if turn == Color::White {
            match options.wtime { Some(t) => t, None => 0 }
        } else {
            match options.btime { Some(t) => t, None => 0 }
        };
        let increment: u32 = if turn == Color::White {
            match options.winc { Some(t) => t, None => 0 }
        } else {
            match options.binc { Some(t) => t, None => 0 }
        };
        let mtg: u32 = match options.movestogo { Some(t) => t, None => 25 };
        let moves: u32 = if mtg < 1 { 1 } else { mtg };
        let base: u32 = vstd::wrapping::u32_specs::wrapping_add((time_left / moves) as u32, (increment / 2) as u32);
        let hard_cap: u32 = (time_left / 3) as u32;
        let soft: u32 = if base < hard_cap { base } else { hard_cap };
        let triple: u32 = vstd::wrapping::u32_specs::wrapping_mul(base, 3);
        let hard: u32 = if triple < hard_cap { triple } else { hard_cap };
        (if soft < 1 { 1 } else { soft }, if hard < 1 { 1 } else { hard })
    }
}

impl Evaluator {
    /// The tables a search relies on are in shape.
    pub open spec fn wf(&self) -> bool {
        &&& self.pv_table.wf()
        &&& self.depth_offset <= 1
    }

    /// A fresh searcher: not running, nothing found, empty tables, no flags, white to move at
    /// the start, main thread, no depth offset, and the reduction table of `LMR_TABLE`.
    pub fn new() -> (r: Evaluator)
        ensures
            r.wf(),
            !r.running,
            r.result.score == 0 && r.result.best_move.is_none() && r.result.depth == 0,
            r.result.ply == 0 && r.result.nodes == 0,
            r.started_at == 0,
            r.repetition_table@.len() == 0,
            r.stop_flag.is_none() && r.ponder_flag.is_none(),
            !r.silent,
            r.optimum_time == 0 && r.maximum_time == 0,
            r.search_turn == Color::White,
            r.depth_offset == 0,
            r.is_main_thread,
            r.lmr_table == LMR_TABLE,
            forall|i: int, j: int| 0 <= i < 12 && 0 <= j < 64 ==> r.history_moves[i][j] == 0,
    {
        Evaluator {
            running: false,
            result: PositionEvaluation {
                score: 0,
                best_move: None,
                depth: 0,
                ply: 0,
                nodes: 0,
                cutoffs: Cutoffs::new(),
            },
            killer_moves: [[BitPackedMove::default(); 64]; 2],
            history_moves: [[0; 64]; 12],
            started_at: 0,
            options: SearchOptions::new(),
            repetition_table: Vec::new(),
            counter_move_table: [[BitPackedMove::default(); 64]; 64],
            stop_flag: None,
            pv_table: PVTable::new(),
            silent: false,
            optimum_time: 0,
            maximum_time: 0,
            ponder_flag: None,
            search_turn: Color::White,
            depth_offset: 0,
            is_main_thread: true,
            lmr_table: LMR_TABLE,
            node_scores: Ghost(Seq::empty()),
            node_calls: Ghost(Seq::empty()),
        }
    }

    /// Sets whether the searcher prints.
    pub fn set_silent(&mut self, silent: bool)
        ensures
            *final(self) == (Evaluator { silent, ..*old(self) }),
    {
        self.silent = silent;
    }

    /// Makes the searcher a helper thread, which does not raise the stop flag, starting its
    /// iterations `depth_offset` plies deeper.
    pub fn set_helper(&mut self, depth_offset: u8)
        requires
            old(self).wf(),
            depth_offset <= 1,
        ensures
            final(self).wf(),
            *final(self) == (Evaluator { is_main_thread: false, depth_offset, ..*old(self) }),
    {
        self.is_main_thread = false;
        self.depth_offset = depth_offset;
    }

    /// Whether the stop flag is raised (false when there is none).
    fn is_stopped(&self) -> (r: bool)
        ensures
            self.stop_flag.is_none() ==> !r,
    {
        match &self.stop_flag {
            Some(flag) => read_flag(flag),
            None => false,
        }
    }

    /// Sets the soft and hard time limits of the move (see `move_times`).
    fn set_move_time(&mut self, turn: Color)
        ensures
            (final(self).optimum_time, final(self).maximum_time) == move_times(old(self).options, turn),
            *final(self) == (Evaluator { optimum_time: final(self).optimum_time, maximum_time: final(self).maximum_time, ..*old(self) }),
    {
        if let Some(t) = self.options.movetime {
            self.optimum_time = t;
            self.maximum_time = t;
            return;
        }
        if self.options.infinite || self.options.ponder {
            self.optimum_time = u32::MAX;
            self.maximum_time = u32::MAX;
            return;
        }

        let time_left: u32 = if turn == Color::White {
            match self.options.wtime { Some(t) => t, None => 0 }
        } else {
            match self.options.btime { Some(t) => t, None => 0 }
        };
        let increment: u32 = if turn == Color::White {
            match self.options.winc { Some(t) => t, None => 0 }
        } else {
            match self.options.binc { Some(t) => t, None => 0 }
        };

        let mtg: u32 = match self.options.movestogo { Some(t) => t, None => 25 };
        let moves: u32 = if mtg < 1 { 1 } else { mtg };
        let base: u32 = (time_left / moves).wrapping_add(increment / 2);
        let hard_cap: u32 = time_left / 3;

        let soft: u32 = if base < hard_cap { base } else { hard_cap };
        let triple: u32 = base.wrapping_mul(3);
        let hard: u32 = if triple < hard_cap { triple } else { hard_cap };
        self.optimum_time = if soft < 1 { 1 } else { soft };
        self.maximum_time = if hard < 1 { 1 } else { hard };
    }

    /// The milliseconds since the Unix epoch (0 when the clock reads earlier).
    pub fn _get_time_ms() -> u128 {
        match time_since_epoch() {
            Some(d) => duration_millis(&d),
            None => 0,
        }
    }

    /// The milliseconds since the search started, truncated to 32 bits.
    fn elapsed_ms(&self) -> u32 {
        let now = Evaluator::_get_time_ms();
        now.wrapping_sub(self.started_at) as u32
    }

    /// Whether the search may go on: false once the stop flag is raised; on a ponder hit (the
    /// ponder flag cleared) the clock restarts with timed limits; then true without a hard
    /// limit, otherwise whether the time elapsed is below it.
    fn check_time(&mut self) -> (r: bool)
        requires
            old(self).wf(),
        ensures
            final(self).wf(),
            final(self).result == old(self).result,
            final(self).pv_table == old(self).pv_table,
            final(self).repetition_table@ == old(self).repetition_table@,
            final(self).killer_moves == old(self).killer_moves,
            final(self).history_moves == old(self).history_moves,
            final(self).counter_move_table == old(self).counter_move_table,
            final(self).running == old(self).running,
            final(self).lmr_table == old(self).lmr_table,
            final(self).depth_offset == old(self).depth_offset,
            final(self).is_main_thread == old(self).is_main_thread,
            final(self).stop_flag == old(self).stop_flag,
            final(self).silent == old(self).silent,
            final(self).search_turn == old(self).search_turn,
            old(self).maximum_time == u32::MAX && old(self).ponder_flag.is_none() && old(self).stop_flag.is_none() ==> r,
    {
        if self.is_stopped() {
            return false;
        }

        // Detect ponderhit transition: ponder_flag goes from true to false
        let ponder_hit = match &self.ponder_flag {
            Some(flag) => !read_flag(flag),
            None => false,
        };
        if ponder_hit {
            // ponderhit received: switch from ponder to timed search
            self.options.ponder = false;
            self.started_at = Evaluator::_get_time_ms();
            self.set_move_time(self.search_turn);
            self.ponder_flag = None;
        }

        if self.maximum_time == u32::MAX {
            return true;
        }

        let elapsed = self.elapsed_ms();
        within_time(elapsed, self.maximum_time)
    }

    /// Whether the side to move has a knight, bishop, rook or queen (the sum of their bitboards,
    /// wrapping, is not zero).
    fn _has_non_pawn_material(&self, position: &Position) -> (r: bool)
        ensures
            ({
                let o = 6 * position.turn@ as int;
                let bb = position.bitboards@;
                r == (vstd::wrapping::u64_specs::wrapping_add(vstd::wrapping::u64_specs::wrapping_add(
                    vstd::wrapping::u64_specs::wrapping_add(bb[o + 2], bb[o + 1]), bb[o + 3]), bb[o + 4]) != 0)
            }),
    {
        let o = 6 * position.turn.to_index();
        position.bitboards[o + 2].wrapping_add(position.bitboards[o + 1]).wrapping_add(position.bitboards[o + 3])
            .wrapping_add(position.bitboards[o + 4]) != 0
    }

    /// The static evaluation of the position, from the side to move.
    pub fn evaluate(&mut self, position: &mut Position) -> (r: i32)
        requires
            material_bounded(*old(position)),
        ensures
            r == crate::search::eval::static_eval(*old(position)),
            *final(position) == *old(position),
            *final(self) == *old(self),
            -VALUE_LIMIT <= r <= VALUE_LIMIT,
    {
        position.evaluate()
    }

    /// The pawn structure score of the position, from the side to move.
    pub fn evaluate_pawn_structure(&mut self, position: &mut Position) -> (r: i32)
        ensures
            r == crate::search::eval::pawn_structure_score(*old(position)),
            *final(position) == *old(position),
            *final(self) == *old(self),
    {
        position.evaluate_pawn_structure()
    }

    /// The open file score of the position, from the side to move.
    pub fn evaluate_open_files(&mut self, position: &mut Position) -> (r: i32)
        ensures
            r == crate::search::eval::open_files_score(*old(position)),
            *final(position) == *old(position),
            *final(self) == *old(self),
    {
        position.evaluate_open_files()
    }

    /// The king safety score of the position, from the side to move.
    pub fn evaluate_king_safety(&mut self, position: &mut Position) -> (r: i32)
        ensures
            r == crate::search::eval::king_safety_score(*old(position)),
            *final(position) == *old(position),
            *final(self) == *old(self),
    {
        position.evaluate_king_safety()
    }

    /// The bishop pair score of the position, from the side to move.
    fn evaluate_bishop_pair(&self, position: &Position) -> (r: i32)
        ensures
            r == crate::search::eval::bishop_pair_score(*position),
    {
        position.evaluate_bishop_pair()
    }

    /// Static exchange evaluation of the capture `m` (see `static_exchange`).
    fn see(&self, position: &Position, m: BitPackedMove) -> (r: i32)
        requires
            m.wf(),
            m.piece_idx() < 12,
        ensures
            -SEE_BOUND <= r <= SEE_BOUND,
            r == see_spec(*position, m),
    {
        static_exchange(position, m)
    }
}


/// Whether a search score lies between the lower of alpha and the evaluation bound and the
/// higher of beta and the evaluation bound.
pub open spec fn in_window(r: int, alpha: int, beta: int) -> bool {
    &&& (if alpha < -VALUE_LIMIT { alpha as int } else { -VALUE_LIMIT as int }) <= r
    &&& r <= (if beta > VALUE_LIMIT { beta as int } else { VALUE_LIMIT as int })
}

/// The searcher's ply leaves room on the position's history for the rest of the search.
pub open spec fn search_room(e: Evaluator, p: Position) -> bool {
    &&& e.result.ply <= 63
    &&& p.depth + 64 <= STACK_SIZE + e.result.ply
}

/// The history below the depth of `a` is unchanged in `b`, which is no shorter.
pub open spec fn stack_kept(a: Position, b: Position) -> bool {
    &&& a.position_stack@.len() <= b.position_stack@.len()
    &&& forall|k: int| 0 <= k < a.depth ==> #[trigger] b.position_stack@[k] == a.position_stack@[k]
}

/// The ordering score of the capture `m`: most valuable victim, least valuable attacker.
pub open spec fn mvv_lva(m: BitPackedMove) -> int {
    _MVV_LVA[m.piece_idx() as int][m.capture_idx() as int] as int
}

/// The ordering score `r` the searcher gives the move `m`, given the table move and the last
/// move: the table move first; then captures, above the quiet moves when the static exchange
/// does not lose material and below them otherwise, by most valuable victim and least
/// valuable attacker; then promotions; then the two killer moves of the ply; then the move
/// that last refuted the last move; then the history score of the piece and target square.
pub open spec fn move_priority(e: Evaluator, m: BitPackedMove, tt_move: BitPackedMove, last_move: Option<BitPackedMove>, r: int) -> bool {
    let ply = e.result.ply as int;
    if m == tt_move && tt_move != null_move() {
        r == 10_000_000
    } else if m.capture_idx() != 12 {
        r == 1_000_000 + mvv_lva(m) || r == -1_000_000 + mvv_lva(m)
    } else if m.promotion_idx() != 12 {
        r == 900_000
    } else if ply < 64 && e.killer_moves[0][ply] == m {
        r == 800_001
    } else if ply < 64 && e.killer_moves[1][ply] == m {
        r == 800_000
    } else if last_move matches Some(l) && e.counter_move_table[l.from_sq() as int][l.to_sq() as int] == m && m != null_move() {
        r == 700_000
    } else {
        r == e.history_moves[m.piece_idx() as int][m.to_sq() as int]
    }
}

/// Every move of `moves` has, as the score of the same entry of `r`, its ordering score
/// against the table move `t`.
pub open spec fn scored_against(e: Evaluator, moves: Seq<BitPackedMove>, t: BitPackedMove, last_move: Option<BitPackedMove>, r: Seq<(BitPackedMove, i32)>) -> bool {
    forall|i: int| 0 <= i < r.len() ==> move_priority(e, moves[i], t, last_move, (#[trigger] r[i]).1 as int)
}

/// Whether a move may be looked up in the ordering tables.
pub open spec fn indexable(m: BitPackedMove) -> bool {
    m.wf() && m.piece_idx() < 12
}

impl Evaluator {
    /// The move stored in the table for the position (any bound type), or the null move.
    fn get_tt_move(&self, position: &Position, tt: &TranspositionTable) -> (r: BitPackedMove)
        requires
            tt.wf(),
    {
        match tt.get(position.hash) {
            Some(tt_entry) => {
                let tt_move = tt_entry.get_move();
                if tt_move != BitPackedMove::default() {
                    tt_move
                } else {
                    BitPackedMove::default()
                }
            },
            None => BitPackedMove::default(),
        }
    }

    /// The ordering score of a move (see `move_priority`).
    fn get_move_score(&self, m: BitPackedMove, tt_move: BitPackedMove, last_move: Option<BitPackedMove>, position: &Position) -> (r: i32)
        requires
            indexable(m),
            last_move matches Some(l) ==> l.wf(),
        ensures
            move_priority(*self, m, tt_move, last_move, r as int),
    {
        // TT move is always searched first
        if m == tt_move && tt_move != BitPackedMove::default() {
            return 10_000_000;
        }

        // Captures: good captures high, bad captures very low
        if m.is_capture() {
            let see_score = self.see(position, m);
            let mvv = _MVV_LVA[m.get_piece().to_index()][m.get_capture().to_index()];
            if see_score >= 0 {
                // Good capture: MVV-LVA with large offset
                return 1_000_000 + mvv;
            } else {
                // Bad capture: below quiet moves
                return -1_000_000 + mvv;
            }
        }

        // Queen promotions
        if m.is_promotion() {
            return 900_000;
        }

        // Killer moves
        if self.result.ply < MAX_PLY as u32 {
            if self.killer_moves[0][self.result.ply as usize] == m {
                return 800_001;
            }
            if self.killer_moves[1][self.result.ply as usize] == m {
                return 800_000;
            }
        }

        // Counter move
        if let Some(last) = last_move {
            let counter = self.counter_move_table[last.get_from() as usize][last.get_to() as usize];
            if counter == m && counter != BitPackedMove::default() {
                return 700_000;
            }
        }

        // History heuristic (by piece and destination square)
        self.history_moves[m.get_piece().to_index()][m.get_to() as usize]
    }

    /// The moves with their ordering scores, in the same order, all scored against one table
    /// move.
    fn score_moves(&self, moves: Vec<BitPackedMove>, position: &Position, last_move: Option<BitPackedMove>, tt: &TranspositionTable) -> (r: Vec<(BitPackedMove, i32)>)
        requires
            tt.wf(),
            forall|i: int| 0 <= i < moves@.len() ==> indexable(#[trigger] moves@[i]),
            last_move matches Some(l) ==> l.wf(),
        ensures
            r@.len() == moves@.len(),
            forall|i: int| 0 <= i < r@.len() ==> (#[trigger] r@[i]).0 == moves@[i],
            exists|t: BitPackedMove| #[trigger] scored_against(*self, moves@, t, last_move, r@),
    {
        let tt_move = self.get_tt_move(position, tt);

        let mut scored: Vec<(BitPackedMove, i32)> = Vec::new();
        let mut i: usize = 0;
        while i < moves.len()
            invariant
                i <= moves@.len(),
                scored@.len() == i,
                forall|j: int| 0 <= j < moves@.len() ==> indexable(#[trigger] moves@[j]),
                last_move matches Some(l) ==> l.wf(),
                forall|j: int| 0 <= j < i ==> (#[trigger] scored@[j]).0 == moves@[j],
                forall|j: int| 0 <= j < i ==> move_priority(*self, moves@[j], tt_move, last_move, (#[trigger] scored@[j]).1 as int),
            decreases moves@.len() - i,
        {
            let m = moves[i];
            let score = self.get_move_score(m, tt_move, last_move, position);
            scored.push((m, score));
            i = i + 1;
        }
        proof {
            assert(scored_against(*self, moves@, tt_move, last_move, scored@));
        }
        scored
    }
}

/// Exchanges the entries at `a` and `b`.
fn swap_entries(moves: &mut Vec<(BitPackedMove, i32)>, a: usize, b: usize)
    requires
        a < old(moves)@.len(),
        b < old(moves)@.len(),
    ensures
        final(moves)@ == old(moves)@.update(a as int, old(moves)@[b as int]).update(b as int, old(moves)@[a as int]),
{
    let x = moves[a];
    let y = moves[b];
    moves.set(a, y);
    moves.set(b, x);
}

/// The index of the entry with the highest score from `start` on (the first of equal ones).
fn pick_best(moves: &Vec<(BitPackedMove, i32)>, start: usize) -> (r: usize)
    requires
        start < moves@.len(),
    ensures
        start <= r < moves@.len(),
        forall|i: int| start <= i < moves@.len() ==> moves@[i].1 <= moves@[r as int].1,
        forall|i: int| start <= i < r ==> moves@[i].1 < moves@[r as int].1,
{
    let n = moves.len();
    let mut best = start;
    let mut i = start + 1;
    while i < n
        invariant
            n == moves@.len(),
            start <= best < i <= moves@.len(),
            forall|j: int| start <= j < i ==> moves@[j].1 <= moves@[best as int].1,
            forall|j: int| start <= j < best ==> moves@[j].1 < moves@[best as int].1,
        decreases moves@.len() - i,
    {
        if moves[i].1 > moves[best].1 {
            best = i;
        }
        i = i + 1;
    }
    best
}

/// Every entry holds a move generated for the position.
pub open spec fn entries_ok(pos: Position, v: Seq<(BitPackedMove, i32)>) -> bool {
    forall|i: int| 0 <= i < v.len() ==> generated_move_ok(pos, (#[trigger] v[i]).0)
}

/// A generated move can be looked up in the ordering tables.
proof fn lemma_generated_indexable(pos: Position, m: BitPackedMove)
    requires
        generated_move_ok(pos, m),
    ensures
        indexable(m),
{
}


impl Evaluator {
    /// Quiescence search: from the static evaluation (returning beta when it reaches beta, and
    /// alpha when not even winning a queen would reach alpha), the captures that do not lose
    /// material in a static exchange, best first, until one reaches beta. The position is left
    /// as it was found.
    #[verifier::rlimit(60)]
    #[verifier::spinoff_prover]
    fn quiescence(&mut self, position: &mut Position, _alpha: i32, beta: i32, tt: &TranspositionTable) -> (r: i32)
        requires
            old(self).wf(),
            tt.wf(),
            searchable(*old(position)),
            search_room(*old(self), *old(position)),
            -SCORE_LIMIT <= _alpha < beta <= SCORE_LIMIT,
        ensures
            final(self).wf(),
            final(self).result.ply == old(self).result.ply,
            searchable(*final(position)),
            same_board_state(*old(position), *final(position)),
            final(position).depth == old(position).depth,
            stack_kept(*old(position), *final(position)),
            score_within(r as int),
            in_window(r as int, _alpha as int, beta as int),
            final(self).repetition_table@ == old(self).repetition_table@,
            final(self).pv_table == old(self).pv_table,
            old(self).result.ply >= 63 ==> r == static_eval(*old(position)),
            old(self).result.ply < 63 && static_eval(*old(position)) >= beta ==> r == beta,
            old(self).result.ply < 63 && static_eval(*old(position)) < beta
                && static_eval(*old(position)) + 1100 < _alpha ==> r == _alpha,
            final(self).running && old(self).result.ply < 63 ==> r == beta || (_alpha <= r < beta
                && static_eval(*old(position)) <= r),
            final(self).running && old(self).result.ply < 63 && static_eval(*old(position)) < beta
                && none_accepted(*old(position), true) ==> r == max_score(_alpha as int, static_eval(*old(position))),
            final(self).running && old(self).result.ply < 63 && static_eval(*old(position)) < beta
                && static_eval(*old(position)) + 1100 >= _alpha ==> r == alpha_fold(max_score(_alpha as int,
                    static_eval(*old(position))), beta as int, final(self).node_scores@)
                    && final(self).node_calls@.len() == final(self).node_scores@.len()
                    && forall|i: int| 0 <= i < final(self).node_calls@.len() ==> {
                        let c = #[trigger] final(self).node_calls@[i];
                        &&& c.1 == old(self).result.ply + 1
                        &&& quiescence_outcome(c.0, c.1, c.3, c.4, -final(self).node_scores@[i])
                    },
            quiescence_outcome(*old(position), old(self).result.ply as int, _alpha as int, beta as int, r as int),
        decreases 64 - old(self).result.ply,
    {
        let mut alpha = _alpha;

        // Prevent stack overflow from deep recursion
        if self.result.ply >= MAX_PLY as u32 - 1 {
            return self.evaluate(position);
        }

        if self.result.nodes & 2047 == 0 {
            self.running = self.check_time();
        }

        self.result.nodes = self.result.nodes.wrapping_add(1);

        let stand_pat = self.evaluate(position);
        if stand_pat >= beta {
            return beta;
        }

        // === Delta Pruning ===
        // If even the best possible capture (queen value) can't raise our score
        // above alpha, don't bother searching captures.
        let queen_value = SEE_PIECE_VALUES[Piece::WhiteQueen.to_index()];
        assert(queen_value == 900);
        if stand_pat + queen_value + DELTA_MARGIN < alpha {
            return alpha;
        }

        if alpha < stand_pat {
            alpha = stand_pat;
        }

        let raw_moves = position.generate_moves(true);
        proof {
            assert forall|i: int| 0 <= i < raw_moves@.len() implies indexable(#[trigger] raw_moves@[i]) by {
                lemma_generated_indexable(*position, raw_moves@[i]);
            }
        }
        let mut moves = self.score_moves(raw_moves, position, None, tt);
        let ghost p0 = *position;
        let ghost ply0 = self.result.ply;
        let ghost alpha0 = alpha;
        let ghost mut scores: Seq<int> = Seq::empty();
        let ghost mut calls: Seq<(Position, int, Seq<u64>, int, int, int)> = Seq::empty();
        proof {
            assert forall|i: int| 0 <= i < moves@.len() implies is_pseudo_move(p0, true, (#[trigger] moves@[i]).0) by {
                assert(moves@[i].0 == raw_moves@[i]);
            }
        }

        let mut move_idx: usize = 0;
        while move_idx < moves.len()
            invariant
                self.wf(),
                tt.wf(),
                self.result.ply == ply0,
                ply0 == old(self).result.ply,
                ply0 < 63,
                searchable(*position),
                searchable(p0),
                stack_kept(*old(position), p0),
                same_board_state(*old(position), p0),
                p0.depth == old(position).depth,
                position.depth == p0.depth,
                p0.depth + 64 <= STACK_SIZE + ply0,
                same_board_state(p0, *position),
                stack_kept(p0, *position),
                entries_ok(p0, moves@),
                -SCORE_LIMIT <= alpha < beta <= SCORE_LIMIT,
                _alpha <= alpha,
                -VALUE_LIMIT <= stand_pat <= VALUE_LIMIT,
                move_idx <= moves@.len(),
                p0 == *old(position),
                self.repetition_table@ == old(self).repetition_table@,
                self.pv_table == old(self).pv_table,
                stand_pat == static_eval(p0),
                stand_pat <= alpha,
                stand_pat < beta,
                stand_pat + 1100 >= _alpha,
                alpha0 as int == max_score(_alpha as int, stand_pat as int),
                alpha as int == alpha_fold(alpha0 as int, beta as int, scores),
                calls.len() == scores.len(),
                forall|i: int| 0 <= i < calls.len() ==> {
                    let c = #[trigger] calls[i];
                    &&& c.1 == ply0 + 1
                    &&& quiescence_outcome(c.0, c.1, c.3, c.4, -scores[i])
                },
                none_accepted(p0, true) ==> alpha == max_score(_alpha as int, stand_pat as int),
                forall|i: int| 0 <= i < moves@.len() ==> is_pseudo_move(p0, true, (#[trigger] moves@[i]).0),
            decreases moves@.len() - move_idx,
        {
            // Pick-best
            let best = pick_best(&moves, move_idx);
            swap_entries(&mut moves, move_idx, best);
            let pm = moves[move_idx].0;
            proof {
                assert(generated_move_ok(p0, moves@[move_idx as int].0));
            }
            move_idx = move_idx + 1;

            if !pm.is_capture() {
                continue;
            }

            // === Delta pruning per-move ===
            // If this specific capture can't raise alpha, skip it
            if stand_pat + SEE_PIECE_VALUES[pm.get_capture().to_index()] + DELTA_MARGIN < alpha && !pm.is_promotion() {
                continue;
            }

            // === SEE pruning in quiescence ===
            // Don't search captures that lose material
            if self.see(position, pm) < 0 {
                continue;
            }

            let ghost before = *position;
            let is_legal_capture = position.make_move(&pm, true);
            proof {
                lemma_make_keeps_searchable(before, *position, pm, true, is_legal_capture);
            }
            if !is_legal_capture {
                continue;
            }

            let ghost after = *position;
            proof {
                assert(accepted(p0, pm));
            }
            self.result.ply = self.result.ply + 1;
            let a1 = -beta;
            let b1 = -alpha;
            let ghost pb = *position;
            let ghost eb = *self;
            let child = self.quiescence(position, a1, b1, tt);
            let ghost lc = (pb, eb.result.ply as int, eb.repetition_table@, a1 as int, b1 as int, 0int);
            let score = -child;
            self.result.ply = self.result.ply - 1;

            let ghost child_end = *position;
            position.unmake_move();
            proof {
                assert(child_end.position_stack@[before.depth as int] == saved_entry(before));
                lemma_unmake_restores_saved(before, child_end, *position);
                lemma_unmake_keeps_searchable(child_end, *position);
            }

            if !self.running {
                return 0;
            }

            let raised = raise_alpha(alpha, beta, score);
            proof {
                assert(quiescence_outcome(lc.0, lc.1, lc.3, lc.4, -score));
                assert(scores.push(score as int).drop_last() =~= scores);
                let old_calls = calls;
                let old_scores = scores;
                scores = scores.push(score as int);
                calls = calls.push(lc);
                assert forall|i: int| 0 <= i < calls.len() implies {
                    let c = #[trigger] calls[i];
                    &&& c.1 == ply0 + 1
                    &&& quiescence_outcome(c.0, c.1, c.3, c.4, -scores[i])
                } by {
                    if i < old_calls.len() {
                        assert(calls[i] == old_calls[i] && scores[i] == old_scores[i]);
                    }
                }
            }
            match raised {
                None => {
                    self.node_scores = Ghost(scores);
                    self.node_calls = Ghost(calls);
                    return beta;
                },
                Some(a) => {
                    alpha = a;
                },
            }
        }

        self.node_scores = Ghost(scores);
        self.node_calls = Ghost(calls);
        alpha
    }
}


/// The greater of two scores.
pub open spec fn max_score(a: int, b: int) -> int {
    if a < b { b } else { a }
}

/// No pseudo-legal move of the kind generated (captures only, or all) is one that
/// `make_move` plays.
pub open spec fn none_accepted(pos: Position, only_captures: bool) -> bool {
    forall|m: BitPackedMove| #[trigger] is_pseudo_move(pos, only_captures, m) ==> !accepted(pos, m)
}

/// The line is empty or begins with a pseudo-legal move that `make_move` plays in `pos`.
pub open spec fn line_starts_playable(pos: Position, line: Seq<BitPackedMove>) -> bool {
    line.len() > 0 ==> is_pseudo_move(pos, false, line[0]) && accepted(pos, line[0])
}

/// What every search of `negamax` returns, whatever the clock, the stop flag and the shared
/// table give, for the position `pos` searched at `ply` with the repetition table `reps`, the
/// window (`alpha`, `beta`) and `depth`: a score within the bounds and the window; the static
/// evaluation at the greatest ply; -15 for a position seen twice; and, at a full node with no
/// move to play, a mate (by ply) in check and 0 otherwise.
pub open spec fn negamax_outcome(pos: Position, ply: int, reps: Seq<u64>, alpha: int, beta: int, depth: int, r: int) -> bool {
    &&& score_within(r)
    &&& in_window(r, alpha, beta)
    &&& ply >= 63 ==> r == static_eval(pos)
    &&& ply < 63 && occurrences(reps, pos.hash) >= 2 ==> r == -15
    &&& full_node_at(ply, reps, pos, alpha, beta, depth) && none_accepted(pos, false)
        ==> r == (if in_check(pos.bitboards@, pos.turn, pos.occupancies[2]) { -49000 + ply } else { 0 })
}

/// What every quiescence search returns, whatever the clock, the stop flag and the shared
/// table give, for `pos` searched at `ply` with the window (`alpha`, `beta`): a score within
/// the bounds and the window; the static evaluation at the greatest ply; beta when the
/// evaluation reaches it; alpha when not even winning a queen would reach alpha.
pub open spec fn quiescence_outcome(pos: Position, ply: int, alpha: int, beta: int, r: int) -> bool {
    &&& score_within(r)
    &&& in_window(r, alpha, beta)
    &&& ply >= 63 ==> r == static_eval(pos)
    &&& ply < 63 && static_eval(pos) >= beta ==> r == beta
    &&& ply < 63 && static_eval(pos) < beta && static_eval(pos) + 1100 < alpha ==> r == alpha
}

/// The node at `ply` with repetition table `reps` is a full node (see `full_node`).
pub open spec fn full_node_at(ply: int, reps: Seq<u64>, pos: Position, alpha: int, beta: int, depth: int) -> bool {
    &&& beta - alpha > 1
    &&& ply < 63
    &&& occurrences(reps, pos.hash) < 2
    &&& (depth >= 1 || in_check(pos.bitboards@, pos.turn, pos.occupancies[2]))
}

/// A principal variation node (a window wider than one) below the greatest ply, in a position
/// not seen twice, searched at least one ply deep or in check: one where every move that can be
/// played is searched.
pub open spec fn full_node(e: Evaluator, pos: Position, alpha: i32, beta: i32, depth: u8) -> bool {
    full_node_at(e.result.ply as int, e.repetition_table@, pos, alpha as int, beta as int, depth as int)
}

/// Some entry of the scored list holds the move.
pub open spec fn lists_move(v: Seq<(BitPackedMove, i32)>, m: BitPackedMove) -> bool {
    exists|i: int| 0 <= i < v.len() && (#[trigger] v[i]).0 == m
}

/// Exchanging two entries keeps every listed move listed.
proof fn lemma_swap_keeps_listed(v: Seq<(BitPackedMove, i32)>, a: int, b: int, m: BitPackedMove)
    requires
        0 <= a < v.len(),
        0 <= b < v.len(),
        lists_move(v, m),
    ensures
        lists_move(v.update(a, v[b]).update(b, v[a]), m),
{
    let w = v.update(a, v[b]).update(b, v[a]);
    let i = choose|i: int| 0 <= i < v.len() && (#[trigger] v[i]).0 == m;
    if i == a {
        assert(w[b].0 == m);
    } else if i == b {
        assert(w[a].0 == m);
    } else {
        assert(w[i].0 == m);
    }
}

/// Whether the search may go on after `elapsed` milliseconds under the hard limit
/// `maximum_time` (none when it is `u32::MAX`).
pub fn within_time(elapsed: u32, maximum_time: u32) -> (r: bool)
    ensures
        r == (maximum_time == u32::MAX || elapsed < maximum_time),
{
    maximum_time == u32::MAX || elapsed < maximum_time
}

/// Whether an iteration that ended `elapsed` milliseconds into the search leaves too little of
/// the soft limit `optimum_time` for another: more than half of it is used.
pub fn past_half_time(elapsed: u32, optimum_time: u32) -> (r: bool)
    ensures
        r == (elapsed > optimum_time / 2),
{
    elapsed > optimum_time / 2
}

/// Whether any move can be played depends on the board alone.
proof fn lemma_same_board_none_accepted(a: Position, b: Position, only_captures: bool)
    requires
        same_board_state(a, b),
    ensures
        none_accepted(a, only_captures) == none_accepted(b, only_captures),
{
    assert forall|m: BitPackedMove| is_pseudo_move(a, only_captures, m) == is_pseudo_move(b, only_captures, m)
        && accepted(a, m) == accepted(b, m) by {
    }
}

/// What a search returns is stated of the board alone.
proof fn lemma_same_board_outcome(a: Position, b: Position, reps: Seq<u64>, alpha: int, beta: int, depth: int, r: int)
    requires
        same_board_state(a, b),
    ensures
        negamax_outcome(a, 0, reps, alpha, beta, depth, r) == negamax_outcome(b, 0, reps, alpha, beta, depth, r),
{
    lemma_same_board_none_accepted(a, b, false);
    assert(static_eval(a) == static_eval(b));
}

/// Whether a line begins with a playable move depends on the board alone.
proof fn lemma_same_board_playable(a: Position, b: Position, line: Seq<BitPackedMove>)
    requires
        same_board_state(a, b),
    ensures
        line_starts_playable(a, line) == line_starts_playable(b, line),
{
    if line.len() > 0 {
        assert(is_pseudo_move(a, false, line[0]) == is_pseudo_move(b, false, line[0]));
        assert(accepted(a, line[0]) == accepted(b, line[0]));
    }
}

/// The value of a node whose moves scored `scores`, in the order searched, with the window
/// (`alpha`, `beta`): `beta` once a score reaches `beta` (a cut-off), else the greater of
/// `alpha` and the best score.
pub open spec fn alpha_fold(alpha: int, beta: int, scores: Seq<int>) -> int
    decreases scores.len(),
{
    if scores.len() == 0 {
        alpha
    } else {
        let before = alpha_fold(alpha, beta, scores.drop_last());
        if before >= beta || scores.last() >= beta {
            beta
        } else {
            max_score(before, scores.last())
        }
    }
}

/// One step of the fold over the scores of a node's moves: `None` on a cut-off (the score
/// reaches `beta`), else the greater of `alpha` and the score.
pub fn raise_alpha(alpha: i32, beta: i32, score: i32) -> (r: Option<i32>)
    ensures
        score >= beta ==> r is None,
        score < beta ==> r == Some(max_score(alpha as int, score as int) as i32),
{
    if score >= beta {
        None
    } else if score > alpha {
        Some(score)
    } else {
        Some(alpha)
    }
}

/// How many times `h` occurs in `s`.
pub open spec fn occurrences(s: Seq<u64>, h: u64) -> nat
    decreases s.len(),
{
    if s.len() == 0 {
        0
    } else {
        occurrences(s.drop_last(), h) + (if s.last() == h { 1nat } else { 0nat })
    }
}

/// How many times `hash` occurs in the table.
pub fn count_repetitions(table: &Vec<u64>, hash: u64) -> (r: usize)
    ensures
        r == occurrences(table@, hash),
{
    let mut count: usize = 0;
    let mut i: usize = 0;
    while i < table.len()
        invariant
            i <= table@.len(),
            count <= i,
            count == occurrences(table@.subrange(0, i as int), hash),
        decreases table@.len() - i,
    {
        proof {
            assert(table@.subrange(0, i + 1).drop_last() =~= table@.subrange(0, i as int));
        }
        if table[i] == hash {
            count = count + 1;
        }
        i = i + 1;
    }
    proof {
        assert(table@.subrange(0, i as int) =~= table@);
    }
    count
}

impl Evaluator {
    /// Negamax alpha-beta search of `depth` plies with principal variation search, a
    /// transposition table, check extension, reverse futility pruning, razoring, null move
    /// pruning, internal iterative reduction, late move pruning and reductions, static exchange
    /// pruning of bad captures, and killer, history and counter move ordering; quiescence
    /// search at depth zero. A position seen twice in the search scores -15; no legal move
    /// scores a mate (by ply) in check and 0 otherwise. Returns 0 once the search is stopped.
    /// A principal variation node (a window wider than one) leaves the position as it was
    /// found; a null move in a narrower window may leave the board of an earlier history
    /// entry.
    #[verifier::rlimit(100)]
    #[verifier::spinoff_prover]
    pub fn negamax(&mut self, position: &mut Position, _alpha: i32, beta: i32, _depth: u8, was_last_move_null: bool, last_move: Option<BitPackedMove>, tt: &TranspositionTable) -> (r: i32)
        requires
            old(self).wf(),
            tt.wf(),
            searchable(*old(position)),
            search_room(*old(self), *old(position)),
            -SCORE_LIMIT <= _alpha < beta <= SCORE_LIMIT,
            _depth < 255,
            last_move matches Some(l) ==> l.wf(),
        ensures
            final(self).wf(),
            final(self).result.ply == old(self).result.ply,
            searchable(*final(position)),
            final(position).depth == old(position).depth,
            stack_kept(*old(position), *final(position)),
            beta - _alpha > 1 ==> same_board_state(*old(position), *final(position)),
            score_within(r as int),
            in_window(r as int, _alpha as int, beta as int),
            final(self).repetition_table@ == old(self).repetition_table@,
            old(self).result.ply >= 63 ==> r == static_eval(*old(position)),
            old(self).result.ply < 63 && occurrences(old(self).repetition_table@, old(position).hash) >= 2 ==> r == -15,
            full_node(*old(self), *old(position), _alpha, beta, _depth) && none_accepted(*old(position), false)
                ==> r == (if in_check(old(position).bitboards@, old(position).turn, old(position).occupancies[2]) {
                    -49000 + old(self).result.ply
                } else {
                    0
                }),
            full_node(*old(self), *old(position), _alpha, beta, _depth) && !none_accepted(*old(position), false)
                && final(self).running ==> _alpha <= r <= beta,
            full_node(*old(self), *old(position), _alpha, beta, _depth) && !none_accepted(*old(position), false)
                && final(self).running ==> r == alpha_fold(_alpha as int, beta as int, final(self).node_scores@)
                    && final(self).node_scores@.len() >= 1
                    && final(self).node_calls@.len() == final(self).node_scores@.len()
                    && forall|i: int| 0 <= i < final(self).node_calls@.len() ==> {
                        let c = #[trigger] final(self).node_calls@[i];
                        &&& c.1 == old(self).result.ply + 1
                        &&& negamax_outcome(c.0, c.1, c.2, c.3, c.4, c.5, -final(self).node_scores@[i])
                    },
            negamax_outcome(*old(position), old(self).result.ply as int, old(self).repetition_table@, _alpha as int,
                beta as int, _depth as int, r as int),
            forall|k: int| 0 <= k < old(self).result.ply ==> #[trigger] final(self).pv_table.line(k) == old(self).pv_table.line(k),
            full_node(*old(self), *old(position), _alpha, beta, _depth) ==> line_starts_playable(*old(position),
                final(self).pv_table.line(old(self).result.ply as int)),
        decreases 64 - old(self).result.ply,
    {
        let mut alpha = _alpha;
        let mut depth = _depth;
        let mut alpha_move = BitPackedMove::default();
        let is_pv_node = beta - alpha > 1;

        // Prevent stack overflow from deep recursion
        if self.result.ply >= MAX_PLY as u32 - 1 {
            return self.evaluate(position);
        }

        if self.result.nodes & 2047 == 0 {
            self.running = self.check_time();
        }

        // Repetition detection (check early to avoid wasting time)
        if count_repetitions(&self.repetition_table, position.hash) >= 2 {
            return -15;
        }

        self.result.nodes = self.result.nodes.wrapping_add(1);

        // TT probe
        let tt_entry = tt.probe_entry(position.hash, depth, alpha, beta);

        if tt_entry.is_valid() && !is_pv_node {
            if tt_entry.get_flag() == TranspositionTableEntryFlag::EXACT && self.result.ply == 0 {
                self.result.depth = depth;
                self.result.score = tt_entry.get_value();
            }
            return tt_entry.get_value();
        }

        let is_in_check = position.is_in_check();

        // Check extension
        if is_in_check {
            depth = depth + 1;
        }

        if depth == 0 {
            return self.quiescence(position, alpha, beta, tt);
        }

        // Static evaluation for pruning decisions (only when not in check)
        let static_eval = if !is_in_check {
            self.evaluate(position)
        } else {
            -50000 // Don't prune when in check
        };

        // === Reverse Futility Pruning (RFP) ===
        // If our position is so good that even with a margin, it beats beta,
        // the opponent would never allow this position. Prune.
        if !is_pv_node && !is_in_check && depth <= 7 && static_eval - RFP_MARGIN * depth as i32 >= beta
            && static_eval < 40000 {
            return static_eval;
        }

        // === Razoring ===
        // If eval is far below alpha at low depth, it's unlikely a quiet move
        // can raise it. Drop directly to quiescence search.
        if !is_pv_node && !is_in_check && depth <= 3
            && static_eval + RAZOR_MARGIN + RAZOR_MARGIN * (depth as i32 - 1) < alpha {
            let q_score = self.quiescence(position, alpha, beta, tt);
            if q_score < alpha {
                return q_score;
            }
        }

        // === Null Move Pruning ===
        // If our position is good enough that even passing the move still
        // causes a beta cutoff, prune the whole subtree.
        if !is_in_check && !is_pv_node && depth > 2 && !was_last_move_null && self._has_non_pawn_material(position) {
            // Adaptive reduction: deeper searches get more reduction
            let r: u32 = 3 + depth as u32 / 6;

            let ghost before_null = *position;
            position.make_null_move();
            proof {
                lemma_null_keeps_searchable(before_null, *position);
            }
            self.result.ply = self.result.ply + 1;

            let null_move_score = -self.negamax(position, -beta, -beta + 1, depth.saturating_sub(r as u8), true, None, tt);

            let ghost child_end = *position;
            position.unmake_move();
            proof {
                lemma_unmake_keeps_searchable(child_end, *position);
            }
            self.result.ply = self.result.ply - 1;

            if !self.running {
                return 0;
            }

            if null_move_score >= beta {
                return beta;
            }
        }

        // === Internal Iterative Reduction (IIR) ===
        // If we don't have a TT move at this node, the move ordering will be
        // worse. Reduce depth by 1 to save time on these poorly-ordered nodes.
        let tt_move = self.get_tt_move(position, tt);
        if depth >= 4 && tt_move == BitPackedMove::default() && !is_in_check {
            depth = depth - 1;
        }

        // Move generation and scoring
        let raw_moves = position.generate_moves(false);
        let ghost raw = raw_moves@;
        proof {
            assert forall|i: int| 0 <= i < raw_moves@.len() implies indexable(#[trigger] raw_moves@[i]) by {
                lemma_generated_indexable(*position, raw_moves@[i]);
            }
        }
        let mut moves = self.score_moves(raw_moves, position, last_move, tt);
        proof {
            assert forall|j: int| 0 <= j < raw.len() implies #[trigger] lists_move(moves@, raw[j]) by {
                assert(moves@[j].0 == raw[j]);
            }
        }

        let mut legal_moves_searched: u32 = 0;
        let mut found_pv = false;
        let mut hash_f = TranspositionTableEntryFlag::ALPHA;

        // Clear PV at this ply
        self.pv_table.clear_at(self.result.ply as usize);

        let ghost p0 = *position;
        let ghost ply0 = self.result.ply;
        let ghost mut scores: Seq<int> = Seq::empty();
        let ghost mut calls: Seq<(Position, int, Seq<u64>, int, int, int)> = Seq::empty();

        let mut move_idx: usize = 0;
        while move_idx < moves.len()
            invariant
                self.wf(),
                tt.wf(),
                self.result.ply == ply0,
                ply0 == old(self).result.ply,
                ply0 < 63,
                alpha as int == alpha_fold(_alpha as int, beta as int, scores),
                (legal_moves_searched == 0) == (scores.len() == 0),
                calls.len() == scores.len(),
                forall|i: int| 0 <= i < calls.len() ==> {
                    let c = #[trigger] calls[i];
                    &&& c.1 == ply0 + 1
                    &&& negamax_outcome(c.0, c.1, c.2, c.3, c.4, c.5, -scores[i])
                },
                searchable(*position),
                searchable(p0),
                position.depth == p0.depth,
                p0.depth == old(position).depth,
                p0.depth + 64 <= STACK_SIZE + ply0,
                same_board_state(p0, *position),
                stack_kept(p0, *position),
                stack_kept(*old(position), p0),
                is_pv_node == (beta - _alpha > 1),
                is_pv_node ==> same_board_state(*old(position), p0),
                entries_ok(p0, moves@),
                -SCORE_LIMIT <= alpha < beta <= SCORE_LIMIT,
                _alpha <= alpha,
                1 <= depth <= 255,
                alpha_move == null_move() || indexable(alpha_move),
                move_idx <= moves@.len(),
                occurrences(old(self).repetition_table@, old(position).hash) < 2,
                self.repetition_table@ == old(self).repetition_table@,
                forall|k: int| 0 <= k < ply0 ==> #[trigger] self.pv_table.line(k) == old(self).pv_table.line(k),
                line_starts_playable(p0, self.pv_table.line(ply0 as int)),
                is_pv_node ==> p0 == *old(position),
                is_pv_node ==> is_in_check == in_check(p0.bitboards@, p0.turn, p0.occupancies[2]),
                forall|i: int| 0 <= i < moves@.len() ==> is_pseudo_move(p0, false, (#[trigger] moves@[i]).0),
                forall|j: int| 0 <= j < raw.len() ==> #[trigger] lists_move(moves@, raw[j]),
                pseudo_complete(p0, false, raw),
                is_pv_node && legal_moves_searched == 0 ==> forall|i: int| 0 <= i < move_idx ==> !accepted(p0, (#[trigger] moves@[i]).0),
                is_pv_node && none_accepted(p0, false) ==> legal_moves_searched == 0,
            decreases moves@.len() - move_idx,
        {
            // Pick-best: find the highest-scored move from remaining
            let best = pick_best(&moves, move_idx);
            let ghost unswapped = moves@;
            swap_entries(&mut moves, move_idx, best);
            let pm = moves[move_idx].0;
            proof {
                assert(generated_move_ok(p0, moves@[move_idx as int].0));
                lemma_generated_indexable(p0, pm);
                assert forall|j: int| 0 <= j < raw.len() implies #[trigger] lists_move(moves@, raw[j]) by {
                    lemma_swap_keeps_listed(unswapped, move_idx as int, best as int, raw[j]);
                }
            }
            move_idx = move_idx + 1;

            let ghost before = *position;
            let is_legal_move = position.make_move(&pm, false);
            proof {
                lemma_make_keeps_searchable(before, *position, pm, false, is_legal_move);
            }
            if !is_legal_move {
                continue;
            }
            let ghost after = *position;
            proof {
                assert(accepted(p0, pm));
            }

            self.result.ply = self.result.ply + 1;
            self.repetition_table.push(position.hash);

            let is_quiet = !pm.is_capture() && !pm.is_promotion();

            // === Late Move Pruning (LMP) ===
            // At low depths, skip quiet moves that appear late in move ordering.
            // These are very unlikely to be the best move.
            if !is_pv_node && !is_in_check && is_quiet && depth <= 7
                && legal_moves_searched >= LMP_MOVE_COUNTS[depth as usize] as u32 {
                self.result.ply = self.result.ply - 1;
                self.repetition_table.pop();
                position.unmake_move();
                proof {
                    lemma_unmake_restores_saved(before, after, *position);
                    lemma_unmake_keeps_searchable(after, *position);
                }
                continue;
            }

            // === SEE pruning for bad captures at low depths ===
            if !is_pv_node && !is_in_check && pm.is_capture() && depth <= 4 && legal_moves_searched > 0
                && self.see(position, pm) < -(depth as i32 * 100) {
                self.result.ply = self.result.ply - 1;
                self.repetition_table.pop();
                position.unmake_move();
                proof {
                    lemma_unmake_restores_saved(before, after, *position);
                    lemma_unmake_keeps_searchable(after, *position);
                }
                continue;
            }

            let mut _score: i32;
            let ghost mut lc: (Position, int, Seq<u64>, int, int, int) = (*position, 0, Seq::empty(), 0, 0, 0);

            if found_pv {
                // PVS: search with null window first
                let a1 = -alpha - 1;
                let b1 = -alpha;
                let d1 = depth - 1;
                let ghost pb = *position;
                let ghost eb = *self;
                let child = self.negamax(position, a1, b1, d1, false, Some(pm), tt);
                proof {
                    lc = (pb, eb.result.ply as int, eb.repetition_table@, a1 as int, b1 as int, d1 as int);
                }
                _score = -child;

                // Re-search with full window if it beats alpha
                if (_score > alpha) && (_score < beta) {
                    let a1 = -beta;
                    let b1 = -alpha;
                    let d1 = depth - 1;
                    let ghost pb = *position;
                    let ghost eb = *self;
                    let child = self.negamax(position, a1, b1, d1, false, Some(pm), tt);
                    proof {
                        lc = (pb, eb.result.ply as int, eb.repetition_table@, a1 as int, b1 as int, d1 as int);
                    }
                    _score = -child;
                }
            } else if legal_moves_searched == 0 {
                // First move: full window search
                let a1 = -beta;
                let b1 = -alpha;
                let d1 = depth - 1;
                let ghost pb = *position;
                let ghost eb = *self;
                let child = self.negamax(position, a1, b1, d1, false, Some(pm), tt);
                proof {
                    lc = (pb, eb.result.ply as int, eb.repetition_table@, a1 as int, b1 as int, d1 as int);
                }
                _score = -child;
            } else {
                // === Late Move Reduction (LMR) ===
                // Later moves in the move list are less likely to be good.
                // Search them at reduced depth first.
                let do_lmr = legal_moves_searched >= _FULL_DEPTH_MOVES as u32 && depth >= _REDUCTION_LIMIT
                    && !is_in_check && is_quiet;

                if do_lmr {
                    // Use precomputed log-based reduction table
                    let di: usize = if depth < 63 { depth as usize } else { 63 };
                    let mi: usize = if legal_moves_searched < 63 { legal_moves_searched as usize } else { 63 };
                    let mut r: u32 = self.lmr_table[di][mi] as u32;

                    // Reduce more for non-PV nodes
                    if !is_pv_node {
                        r = r + 1;
                    }

                    // Don't reduce below 1
                    let d1: u32 = (depth - 1) as u32;
                    let reduced: u32 = if d1 > r { d1 - r } else { 0 };
                    let reduced_depth: u8 = if reduced < 1 { 1 } else { reduced as u8 };

                    let a1 = -alpha - 1;

                    let b1 = -alpha;

                    let d1 = reduced_depth;

                    let ghost pb = *position;

                    let ghost eb = *self;

                    let child = self.negamax(position, a1, b1, d1, false, Some(pm), tt);

                    proof {

                        lc = (pb, eb.result.ply as int, eb.repetition_table@, a1 as int, b1 as int, d1 as int);

                    }

                    _score = -child;
                } else {
                    // Force re-search at full depth
                    _score = alpha + 1;
                }

                // If LMR search found something interesting, re-search at full depth
                if _score > alpha {
                    let a1 = -alpha - 1;
                    let b1 = -alpha;
                    let d1 = depth - 1;
                    let ghost pb = *position;
                    let ghost eb = *self;
                    let child = self.negamax(position, a1, b1, d1, false, Some(pm), tt);
                    proof {
                        lc = (pb, eb.result.ply as int, eb.repetition_table@, a1 as int, b1 as int, d1 as int);
                    }
                    _score = -child;

                    // Full window re-search if null window failed
                    if (_score > alpha) && (_score < beta) {
                        let a1 = -beta;
                        let b1 = -alpha;
                        let d1 = depth - 1;
                        let ghost pb = *position;
                        let ghost eb = *self;
                        let child = self.negamax(position, a1, b1, d1, false, Some(pm), tt);
                        proof {
                            lc = (pb, eb.result.ply as int, eb.repetition_table@, a1 as int, b1 as int, d1 as int);
                        }
                        _score = -child;
                    }
                }
            }

            self.result.ply = self.result.ply - 1;
            self.repetition_table.pop();
            let ghost child_end = *position;
            position.unmake_move();
            proof {
                assert(child_end.position_stack@[before.depth as int] == saved_entry(before));
                lemma_unmake_restores_saved(before, child_end, *position);
                lemma_unmake_keeps_searchable(child_end, *position);
            }

            if !self.running {
                return 0;
            }

            legal_moves_searched = legal_moves_searched.saturating_add(1);
            let raised = raise_alpha(alpha, beta, _score);
            proof {
                assert(negamax_outcome(lc.0, lc.1, lc.2, lc.3, lc.4, lc.5, -_score));
                assert(lc.1 == ply0 + 1);
                assert(scores.push(_score as int).drop_last() =~= scores);
                let old_calls = calls;
                let old_scores = scores;
                scores = scores.push(_score as int);
                calls = calls.push(lc);
                assert forall|i: int| 0 <= i < calls.len() implies {
                    let c = #[trigger] calls[i];
                    &&& c.1 == ply0 + 1
                    &&& negamax_outcome(c.0, c.1, c.2, c.3, c.4, c.5, -scores[i])
                } by {
                    if i < old_calls.len() {
                        assert(calls[i] == old_calls[i] && scores[i] == old_scores[i]);
                    }
                }
            }

            if raised.is_none() {
                tt.save(position.hash, depth, TranspositionTableEntryFlag::BETA, beta, pm);

                // Update killer moves for quiet moves that cause beta cutoffs
                if is_quiet {
                    let ply = self.result.ply as usize;
                    if self.killer_moves[0][ply] != pm {
                        let k0 = self.killer_moves[0][ply];
                        self.killer_moves[1][ply] = k0;
                        self.killer_moves[0][ply] = pm;
                    }

                    // Update history heuristic (by piece and destination square)
                    assert((depth as i32) * (depth as i32) <= 65025) by (nonlinear_arith)
                        requires
                            depth <= 255,
                    ;
                    let bonus: i32 = (depth as i32) * (depth as i32);
                    let piece = pm.get_piece().to_index();
                    let to = pm.get_to() as usize;
                    self.history_moves[piece][to] = self.history_moves[piece][to].wrapping_add(bonus);

                    // Penalize quiet moves that didn't cause a cutoff (history malus)
                    let ghost pvt = self.pv_table;
                    let mut i: usize = 0;
                    while i < move_idx - 1
                        invariant
                            i <= move_idx - 1,
                            move_idx <= moves@.len(),
                            entries_ok(p0, moves@),
                            self.wf(),
                            self.result.ply == ply0,
                            ply0 == old(self).result.ply,
                            self.repetition_table@ == old(self).repetition_table@,
                            self.pv_table == pvt,
                        decreases move_idx - 1 - i,
                    {
                        let prev = moves[i].0;
                        proof {
                            assert(generated_move_ok(p0, moves@[i as int].0));
                            lemma_generated_indexable(p0, prev);
                        }
                        if !prev.is_capture() && !prev.is_promotion() {
                            let pp = prev.get_piece().to_index();
                            let pt = prev.get_to() as usize;
                            self.history_moves[pp][pt] = self.history_moves[pp][pt].wrapping_sub(bonus);
                        }
                        i = i + 1;
                    }
                }

                self.counter_move_table[pm.get_from() as usize][pm.get_to() as usize] = pm;

                // Cutoff tracking
                if legal_moves_searched == 1 {
                    self.result.cutoffs.move_1 = self.result.cutoffs.move_1.wrapping_add(1);
                }
                if legal_moves_searched == 2 {
                    self.result.cutoffs.move_2 = self.result.cutoffs.move_2.wrapping_add(1);
                }
                self.result.cutoffs.avg_cutoff_move_no = self.result.cutoffs.avg_cutoff_move_no.wrapping_add(legal_moves_searched as u64);
                self.result.cutoffs.total = self.result.cutoffs.total.wrapping_add(1);

                self.node_scores = Ghost(scores);
                self.node_calls = Ghost(calls);
                return beta;
            }

            let new_alpha = match raised {
                Some(a) => a,
                None => alpha,
            };
            if new_alpha > alpha {
                hash_f = TranspositionTableEntryFlag::EXACT;
                alpha_move = pm;
                found_pv = true;
                alpha = new_alpha;

                // Update PV table
                self.pv_table.update(self.result.ply as usize, pm);

                if self.result.ply == 0 {
                    self.result.depth = depth;
                    self.result.score = _score;
                    self.result.best_move = Some(pm);
                }
            }
        }

        proof {
            if is_pv_node && legal_moves_searched == 0 {
                assert forall|m: BitPackedMove| #[trigger] is_pseudo_move(p0, false, m) implies !accepted(p0, m) by {
                    law_pseudo_moves_listed(p0, false, raw, m);
                    let j = choose|j: int| 0 <= j < raw.len() && raw[j] == m;
                    assert(lists_move(moves@, raw[j]));
                }
            }
        }
        if legal_moves_searched == 0 {
            if is_in_check {
                alpha = -49000 + self.result.ply as i32;
            } else {
                alpha = 0;
            }
        }

        tt.save(position.hash, depth, hash_f, alpha, alpha_move);

        self.node_scores = Ghost(scores);
        self.node_calls = Ghost(calls);
        alpha
    }
}


/// The bound on the aspiration window of the iteration at `depth`: it widens by 50 on each
/// side with every iteration.
pub open spec fn window_bound(depth: int) -> int {
    VALUE_LIMIT + 100 * depth
}

/// The iteration state can go on: the window, wider than one, lies within the bound of the
/// next depth, which does not pass 255, and the last depth is below 255.
pub open spec fn state_ok(state: &SearchState) -> bool {
    &&& -window_bound(state.current_depth as int) <= state.alpha
    &&& state.alpha + 1 < state.beta
    &&& state.beta <= window_bound(state.current_depth as int)
    &&& state.depth < 255
    &&& 1 <= state.current_depth
}

/// Whether the move is one `make_move` plays in the position: a generated move, and not an en
/// passant capture that leaves the mover's king attacked.
pub open spec fn accepted(pos: Position, m: BitPackedMove) -> bool {
    move_playable(pos, m) && !enpassant_exposes_king(pos, m)
}

impl Position {
    /// Whether the position can be searched: it is searchable and leaves room on its history
    /// for a search of the greatest ply.
    pub fn is_searchable(&self) -> (r: bool)
        ensures
            r == (searchable(*self) && self.depth + 64 <= STACK_SIZE),
    {
        if !(self.depth <= STACK_SIZE - 64) {
            return false;
        }
        let b = &self.bitboards;
        if !(self.occupancies[0] == b[0] | b[1] | b[2] | b[3] | b[4] | b[5]
            && self.occupancies[1] == b[6] | b[7] | b[8] | b[9] | b[10] | b[11]
            && self.occupancies[2] == self.occupancies[0] | self.occupancies[1]) {
            return false;
        }
        if let Some(s) = self.enpassant {
            if s >= 64 {
                return false;
            }
        }
        if !(self.castling.get_rights_u8() < 16 && self.position_stack.len() >= STACK_SIZE && self.move_list_stack.len() == STACK_SIZE) {
            return false;
        }
        if !(-MATERIAL_BOUND <= self.material[0] && self.material[0] <= MATERIAL_BOUND && -MATERIAL_BOUND <= self.material[1]
            && self.material[1] <= MATERIAL_BOUND) {
            return false;
        }
        let mut k: usize = 0;
        while k < self.position_stack.len()
            invariant
                k <= self.position_stack@.len(),
                forall|j: int| 0 <= j < k ==> #[trigger] entry_ok(self.position_stack@[j]),
            decreases self.position_stack@.len() - k,
        {
            let e = self.position_stack[k];
            let eb = &e.bitboards;
            let ok = e.occupancies[0] == eb[0] | eb[1] | eb[2] | eb[3] | eb[4] | eb[5]
                && e.occupancies[1] == eb[6] | eb[7] | eb[8] | eb[9] | eb[10] | eb[11]
                && e.occupancies[2] == e.occupancies[0] | e.occupancies[1]
                && (match e.enpassant { Some(s) => s < 64, None => true })
                && e.castling.get_rights_u8() < 16
                && -MATERIAL_BOUND <= e.material[0] && e.material[0] <= MATERIAL_BOUND
                && -MATERIAL_BOUND <= e.material[1] && e.material[1] <= MATERIAL_BOUND;
            if !ok {
                proof {
                    assert(!entry_ok(self.position_stack@[k as int]));
                }
                return false;
            }
            k = k + 1;
        }
        true
    }
}

impl Evaluator {
    /// Starts a search of the position: shares the stop flag, keeps the ponder flag, clears
    /// what was found, takes the options and the side to move, sets the time limits (see
    /// `move_times`), starts the clock, and empties the repetition and line tables. The first
    /// generated move that `make_move` plays is kept for when no iteration completes. The
    /// iterations go from depth `1 + depth_offset` to the depth asked for (64 when none) with
    /// the widest window.
    pub fn start_search(&mut self, position: &mut Position, options: SearchOptions, stop_flag: &Arc<AtomicBool>, ponder_flag: Option<Arc<AtomicBool>>) -> (state: SearchState)
        requires
            old(self).wf(),
            searchable(*old(position)),
            old(position).depth + 64 <= STACK_SIZE,
            options.depth != Some(255u8),
        ensures
            final(self).wf(),
            searchable(*final(position)),
            same_board_state(*old(position), *final(position)),
            final(position).depth == old(position).depth,
            stack_kept(*old(position), *final(position)),
            final(self).running,
            final(self).result.ply == 0,
            final(self).result.score == 0 && final(self).result.best_move.is_none(),
            final(self).result.depth == 0 && final(self).result.nodes == 0,
            final(self).options == options,
            final(self).search_turn == old(position).turn,
            (final(self).optimum_time, final(self).maximum_time) == move_times(options, old(position).turn),
            final(self).stop_flag.is_some(),
            final(self).ponder_flag == ponder_flag,
            final(self).repetition_table@.len() == 0,
            final(self).depth_offset == old(self).depth_offset,
            final(self).is_main_thread == old(self).is_main_thread,
            final(self).silent == old(self).silent,
            state_ok(&state),
            state.alpha == -50000 && state.beta == 50000,
            state.current_depth == 1 + old(self).depth_offset,
            state.depth == (match options.depth { Some(d) => d, None => 64u8 }),
            state.pv@.len() == 0,
            !state.finished,
            state.fallback_move == null_move() || (generated_move_ok(*old(position), state.fallback_move)
                && accepted(*old(position), state.fallback_move)),
            state.fallback_move == null_move() ==> forall|m: BitPackedMove| #[trigger] is_pseudo_move(*old(position), false, m)
                ==> !accepted(*old(position), m),
    {
        self.stop_flag = Some(share_flag(stop_flag));
        self.ponder_flag = ponder_flag;
        self.result = PositionEvaluation { score: 0, best_move: None, depth: 0, ply: 0, nodes: 0, cutoffs: Cutoffs::new() };

        let depth: u8 = match options.depth {
            Some(depth) => depth,
            None => MAX_PLY as u8,
        };

        self.options = options;
        self.search_turn = position.turn;
        self.set_move_time(position.turn);

        self.running = true;
        self.started_at = Evaluator::_get_time_ms();

        self.repetition_table.clear();
        self.pv_table = PVTable::new();

        // Get a fallback move in case search doesn't complete
        let legal_moves = position.generate_moves(false);
        let ghost p0 = *position;
        let mut fallback_move = BitPackedMove::default();
        let mut found = false;
        let mut i: usize = 0;
        while i < legal_moves.len() && !found
            invariant
                searchable(*position),
                searchable(p0),
                position.depth == p0.depth,
                p0.depth + 64 <= STACK_SIZE,
                same_board_state(p0, *position),
                stack_kept(p0, *position),
                moves_ok(p0, legal_moves@),
                !found ==> fallback_move == null_move(),
                found ==> generated_move_ok(p0, fallback_move) && accepted(p0, fallback_move),
                i <= legal_moves@.len(),
                !found ==> forall|k: int| 0 <= k < i ==> !accepted(p0, #[trigger] legal_moves@[k]),
                crate::movegen::pseudo::pseudo_complete(p0, false, legal_moves@),
            decreases legal_moves@.len() - i,
        {
            let m = legal_moves[i];
            proof {
                assert(generated_move_ok(p0, legal_moves@[i as int]));
            }
            let ghost before = *position;
            let played = position.make_move(&m, false);
            proof {
                lemma_make_keeps_searchable(before, *position, m, false, played);
            }
            if played {
                let ghost after = *position;
                position.unmake_move();
                proof {
                    lemma_unmake_restores_saved(before, after, *position);
                    lemma_unmake_keeps_searchable(after, *position);
                }
                fallback_move = m;
                found = true;
            }
            i = i + 1;
        }
        proof {
            if !found {
                assert forall|m: BitPackedMove| #[trigger] is_pseudo_move(p0, false, m) implies !accepted(p0, m) by {
                    crate::movegen::pseudo::law_pseudo_moves_listed(p0, false, legal_moves@, m);
                    let k = choose|k: int| 0 <= k < legal_moves@.len() && legal_moves@[k] == m;
                    assert(!accepted(p0, legal_moves@[k]));
                }
            }
        }

        SearchState {
            alpha: -50000,
            beta: 50000,
            current_depth: 1 + self.depth_offset,
            depth,
            pv: Vec::new(),
            fallback_move,
            finished: false,
        }
    }

    /// Runs the next iteration of the search: searches at the current depth within the
    /// aspiration window, searching again with the widest window when the score falls outside
    /// a narrower one; then narrows the window to 50 around the score, keeps the line found
    /// when there is one, and reports the iteration. Reports nothing once the last depth is
    /// passed, the search was stopped, or the previous iteration ended past half the soft time
    /// limit.
    #[verifier::rlimit(60)]
    pub fn search_next(&mut self, position: &mut Position, state: &mut SearchState, tt: &TranspositionTable) -> (r: Option<SearchReport>)
        requires
            old(self).wf(),
            tt.wf(),
            old(self).result.ply == 0,
            searchable(*old(position)),
            old(position).depth + 64 <= STACK_SIZE,
            state_ok(old(state)),
        ensures
            final(self).wf(),
            final(self).result.ply == 0,
            searchable(*final(position)),
            same_board_state(*old(position), *final(position)),
            final(position).depth == old(position).depth,
            stack_kept(*old(position), *final(position)),
            state_ok(final(state)),
            final(state).depth == old(state).depth,
            final(state).fallback_move == old(state).fallback_move,
            old(state).finished ==> r.is_none() && *final(state) == *old(state),
            r.is_none() ==> final(state).finished,
            !old(state).finished && old(state).current_depth <= old(state).depth && final(self).running ==> r is Some,
            r is Some ==> final(state).current_depth == old(state).current_depth + 1,
            r matches Some(rep) ==> final(state).alpha == rep.score - 50 && final(state).beta == rep.score + 50,
            r matches Some(rep) ==> (occurrences(old(self).repetition_table@, old(position).hash) < 2
                && line_starts_playable(*old(position), old(state).pv@) ==> line_starts_playable(*old(position), rep.pv@)),
            r matches Some(rep) ==> (none_accepted(*old(position), false)
                && occurrences(old(self).repetition_table@, old(position).hash) < 2 ==> rep.score == (
                    if in_check(old(position).bitboards@, old(position).turn, old(position).occupancies[2]) { -49000 } else { 0 })),
            r matches Some(rep) ==> rep.pv@ == final(state).pv@ && -SCORE_LIMIT <= rep.score <= SCORE_LIMIT,
            r matches Some(rep) ==> negamax_outcome(*old(position), 0, old(self).repetition_table@, old(state).alpha as int,
                old(state).beta as int, old(state).current_depth as int, rep.score as int)
                || negamax_outcome(*old(position), 0, old(self).repetition_table@, -50000, 50000,
                old(state).current_depth as int, rep.score as int),
            final(state).pv@.len() == 0 || final(state).pv@ == old(state).pv@ || final(state).pv@ == final(self).pv_table.line(0),
    {
        if state.finished {
            return None;
        }
        loop
            invariant
                self.wf(),
                tt.wf(),
                self.result.ply == 0,
                searchable(*position),
                position.depth == old(position).depth,
                old(position).depth + 64 <= STACK_SIZE,
                same_board_state(*old(position), *position),
                stack_kept(*old(position), *position),
                state_ok(state),
                state.depth == old(state).depth,
                state.fallback_move == old(state).fallback_move,
                state.pv == old(state).pv,
                state.current_depth == old(state).current_depth,
                !state.finished,
                !old(state).finished,
                self.repetition_table@ == old(self).repetition_table@,
                (state.alpha == old(state).alpha && state.beta == old(state).beta) || (state.alpha == -50000 && state.beta == 50000),
            decreases (if state.alpha == -50000 && state.beta == 50000 { 0int } else { 1int }),
        {
            if state.current_depth > state.depth {
                state.finished = true;
                return None;
            }

            let start_time = Evaluator::_get_time_ms();

            let ghost pre_call = *position;
            let score = self.negamax(position, state.alpha, state.beta, state.current_depth, false, None, tt);
            proof {
                lemma_same_board_none_accepted(*old(position), pre_call, false);
                lemma_same_board_playable(*old(position), pre_call, self.pv_table.line(0));
                lemma_same_board_outcome(*old(position), pre_call, old(self).repetition_table@, state.alpha as int,
                    state.beta as int, state.current_depth as int, score as int);
            }

            // If score falls outside aspiration window and we haven't already widened it
            if (score <= state.alpha || score >= state.beta) && !(state.alpha == -50000 && state.beta == 50000) {
                // Widen the window and re-search at same depth
                state.alpha = -50000;
                state.beta = 50000;
                continue;
            }

            if !self.running {
                state.finished = true;
                return None;
            }

            state.alpha = score - 50;
            state.beta = score + 50;

            // Save PV only from fully completed iterations
            let pv = self.pv_table.get_pv();
            if pv.len() > 0 {
                state.pv = pv;
            }

            let report = SearchReport { start_time, score, pv: state.pv.clone() };
            state.current_depth = state.current_depth + 1;

            // Soft time check: don't start the next iteration if we've used
            // more than half the optimum time — it's unlikely to complete.
            if past_half_time(self.elapsed_ms(), self.optimum_time) {
                state.finished = true;
            }
            return Some(report);
        }
    }

    /// Ends the search: the best move is the first move of the last completed line, or the
    /// fallback move when there is none, kept when `make_move` plays it and replaced by the
    /// fallback otherwise; the ponder move is the second move of the line when `make_move`
    /// plays it after the best move. The moves played are taken back; the main thread raises
    /// the stop flag.
    pub fn finish_search(&mut self, position: &mut Position, state: &SearchState) -> (r: (Option<BitPackedMove>, Option<BitPackedMove>))
        requires
            searchable(*old(position)),
            old(position).depth + 64 <= STACK_SIZE,
        ensures
            searchable(*final(position)),
            same_board_state(*old(position), *final(position)),
            final(position).depth == old(position).depth,
            stack_kept(*old(position), *final(position)),
            *final(self) == *old(self),
            ({
                let best = if state.pv@.len() > 0 { state.pv@[0] } else { state.fallback_move };
                r.0 == Some(if accepted(*old(position), best) { best } else { state.fallback_move })
            }),
            r.1 matches Some(c) ==> state.pv@.len() >= 2 && c == state.pv@[1],
            r.1 is Some ==> exists|p: Position, q: Position| same_board_state(*old(position), p)
                && #[trigger] make_move_post(p, q, r.0->0, false, true) && accepted(q, r.1->0),
    {
        let best_move = if state.pv.len() > 0 { state.pv[0] } else { state.fallback_move };

        // Verify the best move is legal before outputting
        let ghost p0 = *position;
        let mut best_played = false;
        if position.is_move_playable(&best_move) {
            best_played = position.make_move(&best_move, false);
            proof {
                lemma_make_keeps_searchable(p0, *position, best_move, false, best_played);
            }
            if best_played {
                let ghost after = *position;
                position.unmake_move();
                proof {
                    lemma_unmake_restores_saved(p0, after, *position);
                    lemma_unmake_keeps_searchable(after, *position);
                }
            }
        }
        let final_move = if best_played { best_move } else { state.fallback_move };

        // Check if the 2nd PV move is a legal ponder move
        let ghost p1 = *position;
        let mut ponder_move: Option<BitPackedMove> = None;
        if state.pv.len() >= 2 && position.is_move_playable(&final_move) {
            let candidate = state.pv[1];
            let first = position.make_move(&final_move, false);
            proof {
                lemma_make_keeps_searchable(p1, *position, final_move, false, first);
            }
            if first {
                let ghost after1 = *position;
                let mut legal = false;
                if position.is_move_playable(&candidate) {
                    legal = position.make_move(&candidate, false);
                    proof {
                        lemma_make_keeps_searchable(after1, *position, candidate, false, legal);
                    }
                    if legal {
                        let ghost after2 = *position;
                        position.unmake_move();
                        proof {
                            lemma_unmake_restores_saved(after1, after2, *position);
                            lemma_unmake_keeps_searchable(after2, *position);
                        }
                    }
                }
                let ghost back1 = *position;
                proof {
                    assert(back1.position_stack@[p1.depth as int] == saved_entry(p1));
                }
                position.unmake_move();
                proof {
                    lemma_unmake_restores_saved(p1, back1, *position);
                    lemma_unmake_keeps_searchable(back1, *position);
                }
                if legal {
                    ponder_move = Some(candidate);
                    proof {
                        assert(make_move_post(p1, after1, final_move, false, true));
                        assert(same_board_state(*old(position), p1));
                        assert(accepted(after1, candidate));
                        assert(exists|p: Position, q: Position| same_board_state(*old(position), p)
                            && #[trigger] make_move_post(p, q, final_move, false, true) && accepted(q, candidate));
                    }
                }
            }
        }

        // Main thread signals helpers to stop
        if self.is_main_thread {
            if let Some(flag) = &self.stop_flag {
                raise_flag(flag);
            }
        }
        let r = (Some(final_move), ponder_move);
        proof {
            assert(ponder_move is Some ==> exists|p: Position, q: Position| same_board_state(*old(position), p)
                && #[trigger] make_move_post(p, q, final_move, false, true) && accepted(q, ponder_move->0));
            assert(r.0->0 == final_move);
        }
        r
    }
}


/// The move a search answers (the first move of its line when `make_move` plays it, else the
/// fallback move that `start_search` chose) is one that `make_move` plays in the position
/// whenever some pseudo-legal move is.
pub proof fn law_search_answers_a_playable_move(pos: Position, pv: Seq<BitPackedMove>, fallback: BitPackedMove, best: BitPackedMove)
    requires
        fallback == null_move() || accepted(pos, fallback),
        fallback == null_move() ==> forall|m: BitPackedMove| #[trigger] is_pseudo_move(pos, false, m) ==> !accepted(pos, m),
        best == ({
            let b = if pv.len() > 0 { pv[0] } else { fallback };
            if accepted(pos, b) { b } else { fallback }
        }),
    ensures
        (exists|m: BitPackedMove| #[trigger] is_pseudo_move(pos, false, m) && accepted(pos, m)) ==> accepted(pos, best),
{
}

/// Calls `std::time::SystemTime::elapsed` on the Unix epoch: the time since the epoch, or none
/// when the clock reads earlier than the epoch. No contract: the result is the time of day.
#[verifier::external_body]
fn time_since_epoch() -> Option<std::time::Duration> {
    match std::time::UNIX_EPOCH.elapsed() {
        Ok(d) => Some(d),
        Err(_) => None,
    }
}

/// Calls `std::time::Duration::as_millis`: the whole milliseconds of the duration. No contract:
/// a duration is opaque here, and the one it is called on is the time of day.
#[verifier::external_body]
fn duration_millis(d: &std::time::Duration) -> u128 {
    d.as_millis()
}

/// Calls `AtomicBool::load` (sequentially consistent) on the shared flag. No contract: another
/// thread may set or clear the flag at any time.
#[verifier::external_body]
fn read_flag(flag: &Arc<AtomicBool>) -> bool {
    flag.load(Ordering::SeqCst)
}

/// Calls `AtomicBool::store` (sequentially consistent) to set the shared flag. No contract:
/// the flag is seen only by other threads.
#[verifier::external_body]
fn raise_flag(flag: &Arc<AtomicBool>) {
    flag.store(true, Ordering::SeqCst)
}

/// Calls `Arc::clone` for another handle on the shared flag. No contract: the handle is only
/// passed to `read_flag` and `raise_flag`.
#[verifier::external_body]
fn share_flag(flag: &Arc<AtomicBool>) -> Arc<AtomicBool> {
    Arc::clone(flag)
}

} // verus!
