use vstd::prelude::*;

verus! {

use crate::board::{Position, STACK_SIZE};
use crate::board::make::{same_board_state, saved_entry, make_move_post};
use crate::chess::_move::{BitPackedMove, null_move};
use crate::movegen::{moves_ok, generated_move_ok, legal_list, movegen_ready};
use crate::tt::lemma_unmake_restores_saved;

/// The number of slots of the table of principal variation moves.
pub const PV_SIZE: usize = 0x400000;

/// A slot: the hash of a position and its best move.
#[derive(Clone, Copy, Debug)]
pub struct PrincipalVariationEntry {
    pub key: u64,
    pub m: BitPackedMove,
}

impl PrincipalVariationEntry {
    /// The empty slot: key zero and the null move.
    pub fn default() -> (r: PrincipalVariationEntry)
        ensures
            r.key == 0,
            r.m == null_move(),
    {
        PrincipalVariationEntry { key: 0, m: BitPackedMove::default() }
    }
}

/// A table of the best moves of positions, indexed by their hash modulo the table size.
pub struct PrincipalVariationTable {
    pub table: Vec<PrincipalVariationEntry>,
}

/// The slot of a hash.
pub open spec fn pv_slot(key: u64) -> int {
    (key % (PV_SIZE as u64)) as int
}

/// Playing `m` from a position with `a`'s board, `make_move` accepts it and leaves `b`'s board.
pub open spec fn plays_to(a: Position, b: Position, m: BitPackedMove) -> bool {
    exists|a2: Position, q: Position| same_board_state(a, a2) && #[trigger] make_move_post(a2, q, m, false, true)
        && same_board_state(q, b)
}

/// The `i`th move of the line leads from the `i`th position to the next.
pub open spec fn pv_step(ps: Seq<Position>, line: Seq<BitPackedMove>, i: int) -> bool {
    plays_to(ps[i], ps[i + 1], line[i])
}

impl PrincipalVariationTable {
    /// The table has its full number of slots.
    pub open spec fn wf(&self) -> bool {
        self.table@.len() == PV_SIZE
    }

    /// The slot of the position holds its hash and the move `m`, which is in a list of legal
    /// moves generated for the position.
    pub open spec fn entry_ok(&self, pos: Position, m: BitPackedMove) -> bool {
        &&& self.table@[pv_slot(pos.hash)].key == pos.hash
        &&& self.table@[pv_slot(pos.hash)].m == m
        &&& exists|v: Seq<BitPackedMove>| #[trigger] legal_list(pos, v) && v.contains(m)
    }

    /// The line was read along the positions `ps`: the first with the board of `p0`, each
    /// next one reached by playing the move before it, each move the one stored for its
    /// position and a legal move of it.
    pub open spec fn line_reached(&self, p0: Position, line: Seq<BitPackedMove>, ps: Seq<Position>) -> bool {
        &&& ps.len() == line.len()
        &&& ps.len() > 0 ==> same_board_state(p0, ps[0])
        &&& forall|i: int| 0 <= i < ps.len() ==> #[trigger] self.entry_ok(ps[i], line[i])
        &&& forall|i: int| 0 <= i < ps.len() - 1 ==> #[trigger] pv_step(ps, line, i)
    }

    /// A table of empty slots.
    pub fn new() -> (r: PrincipalVariationTable)
        ensures
            r.wf(),
            forall|i: int| 0 <= i < PV_SIZE ==> (#[trigger] r.table@[i]).key == 0 && r.table@[i].m == null_move(),
    {
        let mut table: Vec<PrincipalVariationEntry> = Vec::new();
        let mut i: usize = 0;
        while i < PV_SIZE
            invariant
                i <= PV_SIZE,
                table@.len() == i,
                forall|k: int| 0 <= k < i ==> (#[trigger] table@[k]).key == 0 && table@[k].m == null_move(),
            decreases PV_SIZE - i,
        {
            table.push(PrincipalVariationEntry::default());
            i = i + 1;
        }
        PrincipalVariationTable { table }
    }

    /// Empties every slot.
    pub fn clear(&mut self)
        requires
            old(self).wf(),
        ensures
            final(self).wf(),
            forall|i: int| 0 <= i < PV_SIZE ==> (#[trigger] final(self).table@[i]).key == 0 && final(self).table@[i].m == null_move(),
    {
        let mut i: usize = 0;
        while i < self.table.len()
            invariant
                self.table@.len() == PV_SIZE,
                i <= PV_SIZE,
                forall|k: int| 0 <= k < i ==> (#[trigger] self.table@[k]).key == 0 && self.table@[k].m == null_move(),
            decreases PV_SIZE - i,
        {
            self.table.set(i, PrincipalVariationEntry::default());
            i = i + 1;
        }
    }

    /// Stores the best move of the position with the given hash in its slot.
    pub fn store(&mut self, key: u64, m: BitPackedMove)
        requires
            old(self).wf(),
        ensures
            final(self).table@ == old(self).table@.update(pv_slot(key), PrincipalVariationEntry { key, m }),
            final(self).wf(),
    {
        let index = (key % (PV_SIZE as u64)) as usize;
        self.table.set(index, PrincipalVariationEntry { key, m });
    }

    /// The best move stored for the position with the given hash, when its slot holds that
    /// hash.
    pub fn probe(&self, key: u64) -> (r: Option<BitPackedMove>)
        requires
            self.wf(),
        ensures
            r == (if self.table@[pv_slot(key)].key == key { Some(self.table@[pv_slot(key)].m) } else { None }),
    {
        let index = (key % (PV_SIZE as u64)) as usize;
        let entry = self.table[index];
        if entry.key == key {
            Some(entry.m)
        } else {
            None
        }
    }

    /// The line of stored best moves from the position: while the position's slot holds a
    /// move that is one of its legal moves, that move is played; the moves played are taken
    /// back. The line stops when legal moves cannot be generated (no king of the side to move,
    /// or a pawn on its last rank) or when no room is left to play a move.
    pub fn get_pv_line(&self, position: &mut Position) -> (r: Vec<BitPackedMove>)
        requires
            self.wf(),
            old(position).wf(),
            old(position).depth < STACK_SIZE,
        ensures
            same_board_state(*old(position), *final(position)),
            final(position).depth == old(position).depth,
            final(position).wf(),
            r@.len() > 0 ==> self.table@[pv_slot(old(position).hash)].key == old(position).hash
                && r@[0] == self.table@[pv_slot(old(position).hash)].m,
            exists|ps: Seq<Position>| #[trigger] self.line_reached(*old(position), r@, ps),
            r@.len() == 0 && self.table@[pv_slot(old(position).hash)].key == old(position).hash
                && movegen_ready(*old(position)) && old(position).depth + 1 < STACK_SIZE
                ==> exists|v: Seq<BitPackedMove>| #[trigger] legal_list(*old(position), v)
                    && !v.contains(self.table@[pv_slot(old(position).hash)].m),
    {
        let mut pv_line: Vec<BitPackedMove> = Vec::new();
        let mut made: usize = 0;
        let ghost base = position.depth;
        let ghost p0 = *position;
        let ghost mut states: Seq<Position> = Seq::empty();
        let ghost mut ps: Seq<Position> = Seq::empty();
        while position.depth + 1 < STACK_SIZE
            invariant_except_break
                ps.len() > 0 ==> plays_to(ps.last(), *position, pv_line@.last()),
                pv_line@.len() == 0 ==> *position == p0,
            invariant
                self.wf(),
                position.wf(),
                self.line_reached(p0, pv_line@, ps),
                position.depth == base + made,
                base < STACK_SIZE,
                position.depth < STACK_SIZE,
                states.len() == made,
                forall|i: int| 0 <= i < made ==> (#[trigger] states[i]).wf() && states[i].depth == base + i,
                forall|i: int| 0 <= i < made ==> position.position_stack@[base + i] == saved_entry(#[trigger] states[i]),
                made > 0 ==> same_board_state(p0, states[0]),
                made == 0 ==> same_board_state(p0, *position),
                made <= pv_line@.len(),
                pv_line@.len() == 0 ==> made == 0,
                pv_line@.len() > 0 ==> self.table@[pv_slot(p0.hash)].key == p0.hash && pv_line@[0] == self.table@[pv_slot(p0.hash)].m,
            ensures
                pv_line@.len() == 0 ==> !(self.table@[pv_slot(p0.hash)].key == p0.hash && movegen_ready(p0)
                    && p0.depth + 1 < STACK_SIZE) || exists|v: Seq<BitPackedMove>| #[trigger] legal_list(p0, v)
                    && !v.contains(self.table@[pv_slot(p0.hash)].m),
            decreases STACK_SIZE - position.depth,
        {
            let move_found = self.probe(position.hash);
            if !position.is_movegen_ready() {
                break;
            }
            let ghost before_gen = *position;
            position.generate_legal_moves();
            let legal_moves = position.move_list_stack[position.depth].clone();
            proof {
                assert(legal_list(before_gen, legal_moves@));
                assert forall|i: int| 0 <= i < made implies position.position_stack@[base + i] == saved_entry(#[trigger] states[i]) by {
                    assert(position.position_stack@[base + i] == before_gen.position_stack@[base + i]);
                }
            }
            let m = match move_found {
                None => {
                    break;
                },
                Some(m) => m,
            };
            let mut found = false;
            let mut k: usize = 0;
            while k < legal_moves.len()
                invariant
                    k <= legal_moves@.len(),
                    found ==> legal_moves@.contains(m),
                    !found ==> forall|j: int| 0 <= j < k ==> legal_moves@[j] != m,
                decreases legal_moves.len() - k,
            {
                if legal_moves[k] == m {
                    found = true;
                }
                k = k + 1;
            }
            if !found {
                break;
            }
            proof {
                assert(legal_list(before_gen, legal_moves@) && legal_moves@.contains(m));
                let ps1 = ps.push(before_gen);
                let line1 = pv_line@.push(m);
                assert forall|i: int| 0 <= i < ps1.len() implies #[trigger] self.entry_ok(ps1[i], line1[i]) by {
                    if i < ps.len() {
                        assert(self.entry_ok(ps[i], pv_line@[i]));
                    }
                }
                assert forall|i: int| 0 <= i < ps1.len() - 1 implies #[trigger] pv_step(ps1, line1, i) by {
                    assert(ps1[i] == ps[i] && line1[i] == pv_line@[i]);
                    if i < ps.len() - 1 {
                        assert(pv_step(ps, pv_line@, i));
                        assert(ps1[i + 1] == ps[i + 1]);
                    }
                }
                ps = ps1;
            }
            pv_line.push(m);
            let ghost pre = *position;
            if position.make_move(&m, false) {
                proof {
                    assert(same_board_state(before_gen, pre) && make_move_post(pre, *position, m, false, true)
                        && same_board_state(*position, *position));
                    states = states.push(pre);
                    assert forall|i: int| 0 <= i < made + 1 implies position.position_stack@[base + i] == saved_entry(#[trigger] states[i]) by {
                        if i < made {
                            assert(position.position_stack@[base + i] == pre.position_stack@[base + i]);
                        }
                    }
                }
                made = made + 1;
            } else {
                break;
            }
        }
        while made > 0
            invariant
                position.wf(),
                position.depth == base + made,
                base + made < STACK_SIZE,
                states.len() >= made,
                forall|i: int| 0 <= i < made ==> (#[trigger] states[i]).wf() && states[i].depth == base + i,
                forall|i: int| 0 <= i < made ==> position.position_stack@[base + i] == saved_entry(#[trigger] states[i]),
                made > 0 ==> same_board_state(p0, states[0]),
                made == 0 ==> same_board_state(p0, *position),
                pv_line@.len() > 0 ==> self.table@[pv_slot(p0.hash)].key == p0.hash && pv_line@[0] == self.table@[pv_slot(p0.hash)].m,
            decreases made,
        {
            let ghost pre = *position;
            position.unmake_move();
            proof {
                let s = states[made - 1];
                assert(pre.position_stack@[base + (made - 1)] == saved_entry(s));
                lemma_unmake_restores_saved(s, pre, *position);
            }
            made = made - 1;
        }
        pv_line
    }
}

/// A move stored for a hash is the move probed for it, until another hash sharing its slot is
/// stored.
pub proof fn law_store_then_probe(t0: PrincipalVariationTable, t1: PrincipalVariationTable, key: u64, m: BitPackedMove)
    requires
        t0.wf(),
        t1.table@ == t0.table@.update(pv_slot(key), PrincipalVariationEntry { key, m }),
    ensures
        t1.wf(),
        (if t1.table@[pv_slot(key)].key == key { Some(t1.table@[pv_slot(key)].m) } else { None }) == Some(m),
{
}

} // verus!
