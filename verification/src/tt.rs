use vstd::prelude::*;
use std::sync::atomic::{AtomicU64, AtomicU8, Ordering};

verus! {

use crate::board::Position;
use crate::board::make::{move_playable, same_board_state, same_keys_and_lists, make_move_post, unmake_move_post, saved_entry};
use crate::chess::_move::null_move;
use crate::board::STACK_SIZE;
use crate::chess::_move::BitPackedMove;

// A transposition table is a hash table of positions already searched: for each, the depth of
// the search, the kind of score found, the score and the best move. It is shared by the search
// threads without locks: each slot holds its key, data and age in atomics, and a slot is
// trusted only when its key equals the position's hash xor its data, which also catches a slot
// read while another thread was writing it.

/// The size in bytes of one entry (its key, data and age).
pub const ENTRY_SIZE: usize = 24;

/// The offset added to a score before it is packed, so that it is stored as a non-negative
/// number.
pub const SCORE_OFFSET: i32 = 50000;

/// The kind of score an entry holds.
#[derive(PartialEq, Eq, Structural, Clone, Copy, Debug)]
pub enum TranspositionTableEntryFlag {
    EXACT,
    BETA,
    ALPHA,
    NULL,
}

impl TranspositionTableEntryFlag {
    /// The flag with the given number: exact 0, beta 1, alpha 2, null 3.
    pub fn from_u8(value: u8) -> (r: TranspositionTableEntryFlag)
        requires
            value <= 3,
        ensures
            r.number() == value,
    {
        match value {
            0 => TranspositionTableEntryFlag::EXACT,
            1 => TranspositionTableEntryFlag::BETA,
            2 => TranspositionTableEntryFlag::ALPHA,
            _ => TranspositionTableEntryFlag::NULL,
        }
    }

    /// The number of the flag: exact 0, beta 1, alpha 2, null 3.
    pub open spec fn number(self) -> u8 {
        match self {
            TranspositionTableEntryFlag::EXACT => 0,
            TranspositionTableEntryFlag::BETA => 1,
            TranspositionTableEntryFlag::ALPHA => 2,
            TranspositionTableEntryFlag::NULL => 3,
        }
    }

    /// The number of the flag.
    pub fn to_u8(self) -> (r: u8)
        ensures
            r == self.number(),
    {
        match self {
            TranspositionTableEntryFlag::EXACT => 0,
            TranspositionTableEntryFlag::BETA => 1,
            TranspositionTableEntryFlag::ALPHA => 2,
            TranspositionTableEntryFlag::NULL => 3,
        }
    }
}

/// An entry as read from the table: the key (the position's hash xor the data), the packed
/// data and the age of the search that wrote it.
///
/// ```text
///        score + 50000 (25)       | flag (2) | depth (8) |  move (29)
/// ```
#[derive(Clone, Copy, Debug)]
pub struct TranspositionTableEntry {
    pub key: u64,
    pub data: u64,
    pub age: u8,
}

/// The depth packed in the data.
pub open spec fn depth_of(data: u64) -> u8 {
    ((data >> 27u64) & 0xFFu64) as u8
}

/// The flag number packed in the data.
pub open spec fn flag_of(data: u64) -> u8 {
    ((data >> 25u64) & 3u64) as u8
}

/// The score packed in the data.
pub open spec fn value_of(data: u64) -> int {
    (data & 0x1FFFFFFu64) - SCORE_OFFSET
}

/// The move packed in the data.
pub open spec fn move_of(data: u64) -> u32 {
    (data >> 35u64) as u32
}

/// The data packing a score, flag, depth and move.
pub open spec fn packed(value: i32, flag: u8, depth: u8, move_bits: u32) -> u64 {
    ((value + SCORE_OFFSET) as u64) | ((flag as u64) << 25u64) | ((depth as u64) << 27u64) | ((move_bits as u64) << 35u64)
}

impl TranspositionTableEntry {
    /// The empty entry: key, data and age zero.
    pub fn new() -> (r: TranspositionTableEntry)
        ensures
            r.key == 0,
            r.data == 0,
            r.age == 0,
    {
        TranspositionTableEntry { key: 0, data: 0, age: 0 }
    }

    /// Returns the depth of the search that produced the score.
    pub fn get_depth(&self) -> (r: u8)
        ensures
            r == depth_of(self.data),
    {
        ((self.data >> 27) & 0xFF) as u8
    }

    /// Returns the type of score (exact, alpha, beta, or null).
    pub fn get_flag(&self) -> (r: TranspositionTableEntryFlag)
        ensures
            r.number() == flag_of(self.data),
    {
        let v = ((self.data >> 25) & 3) as u8;
        proof {
            let d = self.data;
            assert((d >> 25u64) & 3u64 <= 3u64) by (bit_vector);
        }
        TranspositionTableEntryFlag::from_u8(v)
    }

    /// Returns whether the entry is valid.
    pub fn is_valid(&self) -> (r: bool)
        ensures
            r == (self.key != 0),
    {
        self.key != 0
    }

    /// Returns the evaluation of the position.
    pub fn get_value(&self) -> (r: i32)
        ensures
            r == value_of(self.data),
            -SCORE_OFFSET <= r < 0x2000000 - SCORE_OFFSET,
    {
        let low = (self.data & 0x1FFFFFF) as i32;
        proof {
            let d = self.data;
            assert(d & 0x1FFFFFFu64 <= 0x1FFFFFFu64) by (bit_vector);
        }
        low - SCORE_OFFSET
    }

    /// Returns the move that produced the score.
    pub fn get_move(&self) -> (r: BitPackedMove)
        ensures
            r.move_bits == move_of(self.data),
    {
        BitPackedMove { move_bits: (self.data >> 35) as u32 }
    }
}

/// Unpacking the packed data gives back the score, flag, depth and move, for a score within
/// the 25 bits the layout gives it and a move within its 29 bits.
pub proof fn law_packed_round_trip(value: i32, flag: u8, depth: u8, move_bits: u32)
    requires
        -SCORE_OFFSET <= value < 0x2000000 - SCORE_OFFSET,
        flag <= 3,
        move_bits < 0x20000000,
    ensures
        value_of(packed(value, flag, depth, move_bits)) == value,
        flag_of(packed(value, flag, depth, move_bits)) == flag,
        depth_of(packed(value, flag, depth, move_bits)) == depth,
        move_of(packed(value, flag, depth, move_bits)) == move_bits,
{
    let v = (value + SCORE_OFFSET) as u64;
    let f = flag as u64;
    let d = depth as u64;
    let m = move_bits as u64;
    assert(v < 0x2000000u64 && f <= 3u64 && d < 256u64 && m < 0x20000000u64 ==> {
        let x = v | (f << 25u64) | (d << 27u64) | (m << 35u64);
        &&& x & 0x1FFFFFFu64 == v
        &&& (x >> 25u64) & 3u64 == f
        &&& (x >> 27u64) & 0xFFu64 == d
        &&& x >> 35u64 == m
    }) by (bit_vector);
}

/// The entry a lookup trusts: its key equals the hash xor its data and its flag is not null.
pub open spec fn entry_matches(entry: TranspositionTableEntry, key: u64) -> bool {
    entry.key == key ^ entry.data && flag_of(entry.data) != 3
}

/// Whether an entry read for `key` gives a score the search can use at `depth` with the window
/// (`alpha`, `beta`): it belongs to the key, was searched at least as deep, and is exact, an
/// upper bound at most `alpha`, or a lower bound at least `beta`.
pub open spec fn entry_usable(entry: TranspositionTableEntry, key: u64, depth: u8, alpha: i32, beta: i32) -> bool {
    let f = flag_of(entry.data);
    let v = value_of(entry.data);
    &&& entry.key == key ^ entry.data
    &&& depth_of(entry.data) >= depth
    &&& (f == 0 || (f == 2 && v <= alpha) || (f == 1 && v >= beta))
}

/// The slot of a key: its low bits, masked by the table size less one.
pub open spec fn slot_of(key: u64, hash_size: usize) -> usize {
    (key as usize) & ((hash_size - 1) as usize)
}

/// The slot of a key in a table of `hash_size` slots.
pub fn slot_index(key: u64, hash_size: usize) -> (r: usize)
    requires
        hash_size >= 1,
    ensures
        r == slot_of(key, hash_size),
        r < hash_size,
{
    let k = key as usize;
    let m = hash_size - 1;
    let r = k & m;
    assert(r <= m) by (bit_vector)
        requires
            r == k & m,
    ;
    r
}

/// The data a save packs.
pub fn pack_data(value: i32, flag: TranspositionTableEntryFlag, depth: u8, m: BitPackedMove) -> (r: u64)
    requires
        value <= i32::MAX - SCORE_OFFSET,
    ensures
        r == packed(value, flag.number(), depth, m.move_bits),
{
    ((value + SCORE_OFFSET) as u64) | ((flag.to_u8() as u64) << 25) | ((depth as u64) << 27) | ((m.move_bits as u64) << 35)
}

/// The entry `get` returns of the one read from the key's slot: it when it matches the key.
pub fn match_entry(entry: TranspositionTableEntry, key: u64) -> (r: Option<TranspositionTableEntry>)
    ensures
        r == (if entry_matches(entry, key) { Some(entry) } else { None }),
{
    if entry.key == (key ^ entry.data) && entry.get_flag() != TranspositionTableEntryFlag::NULL {
        Some(entry)
    } else {
        None
    }
}

/// The entry `probe_entry` returns of the one read from the key's slot: it when its score is
/// usable, else the empty entry.
pub fn usable_entry(entry: TranspositionTableEntry, key: u64, depth: u8, alpha: i32, beta: i32) -> (r: TranspositionTableEntry)
    ensures
        r == (if entry_usable(entry, key, depth, alpha, beta) { entry } else { TranspositionTableEntry { key: 0, data: 0, age: 0 } }),
{
    if entry.key == (key ^ entry.data) {
        if entry.get_depth() >= depth {
            let flag = entry.get_flag();
            if flag == TranspositionTableEntryFlag::EXACT {
                return entry;
            }
            if flag == TranspositionTableEntryFlag::ALPHA && entry.get_value() <= alpha {
                return entry;
            }
            if flag == TranspositionTableEntryFlag::BETA && entry.get_value() >= beta {
                return entry;
            }
        }
    }
    TranspositionTableEntry::new()
}

/// One slot of the table.
struct AtomicTTEntry {
    key: AtomicU64,
    data: AtomicU64,
    age: AtomicU8,
}

/// The shared cells of a table: its slots, the number of slots filled and the age of the
/// current search.
pub struct TableCells {
    table: Vec<AtomicTTEntry>,
    size: AtomicU64,
    age: AtomicU8,
}

/// The table: its shared cells and its number of slots.
pub struct TranspositionTable {
    pub cells: TableCells,
    pub hash_size: usize,
}

impl TranspositionTable {
    /// The table has `hash_size` slots, at least one.
    pub closed spec fn wf(&self) -> bool {
        &&& self.hash_size >= 1
        &&& self.cells.table@.len() == self.hash_size
    }

    /// The number of slots.
    pub fn slot_count(&self) -> (r: usize)
        ensures
            r == self.hash_size,
    {
        self.hash_size
    }

    /// The number of slots of a table of `hash_size_in_mb` megabytes.
    pub open spec fn slots_for(hash_size_in_mb: usize) -> int {
        hash_size_in_mb * 1048576 / ENTRY_SIZE as int
    }

    /// A table of `hash_size_in_mb` megabytes, every slot empty, age zero. A table of zero
    /// megabytes has no slot, and no store or lookup can be made in it.
    pub fn new(hash_size_in_mb: usize) -> (r: TranspositionTable)
        requires
            hash_size_in_mb * 1048576 <= usize::MAX,
        ensures
            r.wf() == (hash_size_in_mb >= 1),
            r.hash_size == Self::slots_for(hash_size_in_mb),
    {
        let hash_size = hash_size_in_mb * 1024 * 1024 / ENTRY_SIZE;
        let mut table: Vec<AtomicTTEntry> = Vec::new();
        let mut i: usize = 0;
        while i < hash_size
            invariant
                i <= hash_size,
                table@.len() == i,
            decreases hash_size - i,
        {
            table.push(AtomicTTEntry { key: AtomicU64::new(0), data: AtomicU64::new(0), age: AtomicU8::new(0) });
            i = i + 1;
        }
        TranspositionTable { cells: TableCells { table, size: AtomicU64::new(0), age: AtomicU8::new(0) }, hash_size }
    }

    /// Starts a new search: the age grows by one (wrapping).
    pub fn increment_age(&self) {
        self.cells.age.fetch_add(1, Ordering::Relaxed);
    }

    /// Empties every slot and sets the count of filled slots and the age to zero.
    pub fn clear(&self) {
        let mut i: usize = 0;
        while i < self.cells.table.len()
            decreases self.cells.table.len() - i,
        {
            let entry = &self.cells.table[i];
            entry.key.store(0, Ordering::Relaxed);
            entry.data.store(0, Ordering::Relaxed);
            entry.age.store(0, Ordering::Relaxed);
            i = i + 1;
        }
        self.cells.size.store(0, Ordering::Relaxed);
        self.cells.age.store(0, Ordering::Relaxed);
    }

    /// Reads the entry of a slot.
    fn load_entry(&self, index: usize) -> (r: TranspositionTableEntry)
        requires
            index < self.cells.table@.len(),
    {
        let slot = &self.cells.table[index];
        TranspositionTableEntry {
            key: slot.key.load(Ordering::Relaxed),
            data: slot.data.load(Ordering::Relaxed),
            age: slot.age.load(Ordering::Relaxed),
        }
    }

    /// Stores an entry for `key` in its slot, packing the score, flag, depth and move, with the
    /// table's age; an entry already there is overwritten, and filling an empty slot counts it
    /// as filled.
    pub fn save(&self, key: u64, depth: u8, flag: TranspositionTableEntryFlag, value: i32, m: BitPackedMove)
        requires
            self.wf(),
            value <= i32::MAX - SCORE_OFFSET,
    {
        let hash_index = slot_index(key, self.hash_size);
        let data = pack_data(value, flag, depth, m);
        let existing = self.load_entry(hash_index);
        let current_age = self.cells.age.load(Ordering::Relaxed);
        if existing.key == 0 {
            self.cells.size.fetch_add(1, Ordering::Relaxed);
        }
        let slot = &self.cells.table[hash_index];
        slot.data.store(data, Ordering::Relaxed);
        slot.key.store(key ^ data, Ordering::Relaxed);
        slot.age.store(current_age, Ordering::Relaxed);
    }

    /// Returns the entry if the hash matches (any bound type), otherwise returns None.
    pub fn get(&self, key: u64) -> (r: Option<TranspositionTableEntry>)
        requires
            self.wf(),
        ensures
            r matches Some(e) ==> entry_matches(e, key),
    {
        let entry = self.load_entry(slot_index(key, self.hash_size));
        match_entry(entry, key)
    }

    /// Returns the entry if it exists and is suitable for the given lower and upper bound,
    /// otherwise returns the empty entry.
    pub fn probe_entry(&self, key: u64, depth: u8, alpha: i32, beta: i32) -> (r: TranspositionTableEntry)
        requires
            self.wf(),
        ensures
            entry_usable(r, key, depth, alpha, beta) || (r.key == 0 && r.data == 0 && r.age == 0),
    {
        let entry = self.load_entry(slot_index(key, self.hash_size));
        usable_entry(entry, key, depth, alpha, beta)
    }

    /// The number of slots filled since the table was made or cleared.
    pub fn filled(&self) -> u64 {
        self.cells.size.load(Ordering::Relaxed)
    }
}


/// Taking back the move whose saved entry is that of a well-formed position restores that
/// position's board.
pub proof fn lemma_unmake_restores_saved(s: Position, pre: Position, post: Position)
    requires
        s.wf(),
        pre.wf(),
        1 <= pre.depth <= pre.position_stack@.len(),
        pre.position_stack@[pre.depth - 1] == saved_entry(s),
        unmake_move_post(pre, post),
    ensures
        same_board_state(s, post),
        post.wf(),
        post.position_stack == pre.position_stack,
        post.depth == pre.depth - 1,
{
}

/// The move an entry holds.
pub open spec fn entry_move(e: TranspositionTableEntry) -> BitPackedMove {
    BitPackedMove { move_bits: move_of(e.data) }
}

/// Playing `m` in `a` (whether `make_move` accepts it or refuses it) leaves the board of `b`.
pub open spec fn stepped(a: Position, b: Position, m: BitPackedMove) -> bool {
    exists|q: Position, ok: bool| #[trigger] make_move_post(a, q, m, false, ok) && same_board_state(q, b)
}

/// The position after the `i`th entry's move is the one the next entry was read for.
pub open spec fn step_ok(ps: Seq<Position>, line: Seq<TranspositionTableEntry>, i: int) -> bool {
    stepped(ps[i], ps[i + 1], entry_move(line[i]))
}

/// Each entry of the line matched the hash of the position it was read for: the first that of
/// `p0`, each next one that of the position its predecessor's move leads to.
pub open spec fn entries_reached(p0: Position, line: Seq<TranspositionTableEntry>, ps: Seq<Position>) -> bool {
    &&& ps.len() == line.len()
    &&& ps.len() > 0 ==> same_board_state(p0, ps[0])
    &&& forall|i: int| 0 <= i < ps.len() ==> (#[trigger] line[i]).key == ps[i].hash ^ line[i].data
    &&& forall|i: int| 0 <= i < ps.len() - 1 ==> #[trigger] step_ok(ps, line, i)
}

impl TranspositionTable {
    /// The principal variation stored for the position: from the position, the entry of its
    /// slot while it matches the hash and holds a move, playing each move `make_move` accepts,
    /// up to 65 entries, and stopping after a move that leaves the side to move checkmated (no
    /// legal move while in check, or no king). The moves played are taken back.
    pub fn get_pv_line(&self, position: &mut Position) -> (r: Vec<TranspositionTableEntry>)
        requires
            self.wf(),
            old(position).wf(),
            old(position).depth + 66 <= STACK_SIZE,
        ensures
            same_board_state(*old(position), *final(position)),
            final(position).depth == old(position).depth,
            final(position).wf(),
            r@.len() <= 65,
            forall|i: int| 0 <= i < r@.len() ==> move_of((#[trigger] r@[i]).data) != null_move().move_bits,
            exists|ps: Seq<Position>| #[trigger] entries_reached(*old(position), r@, ps),
    {
        let mut pv_line: Vec<TranspositionTableEntry> = Vec::new();
        let mut made: usize = 0;
        let ghost base = position.depth;
        let ghost p0 = *position;
        let ghost mut states: Seq<Position> = Seq::empty();
        let ghost mut ps: Seq<Position> = Seq::empty();
        loop
            invariant_except_break
                ps.len() > 0 ==> stepped(ps.last(), *position, entry_move(pv_line@.last())),
            invariant
                self.wf(),
                position.wf(),
                position.depth == base + made,
                made <= pv_line@.len() <= 65,
                entries_reached(p0, pv_line@, ps),
                ps.len() == 0 ==> same_board_state(p0, *position),
                base + 66 <= STACK_SIZE,
                states.len() == made,
                forall|i: int| 0 <= i < made ==> (#[trigger] states[i]).wf() && states[i].depth == base + i,
                forall|i: int| 0 <= i < made ==> position.position_stack@[base + i] == saved_entry(#[trigger] states[i]),
                made > 0 ==> same_board_state(p0, states[0]),
                made == 0 ==> same_board_state(p0, *position),
                forall|i: int| 0 <= i < pv_line@.len() ==> move_of((#[trigger] pv_line@[i]).data) != null_move().move_bits,
            decreases 65 - pv_line@.len(),
        {
            let entry = self.load_entry(slot_index(position.hash, self.hash_size));
            let m = entry.get_move();
            if entry.key != (position.hash ^ entry.data) || m == BitPackedMove::default() || pv_line.len() > 64 {
                break;
            }
            proof {
                let ghost ps1 = ps.push(*position);
                let ghost line1 = pv_line@.push(entry);
                assert forall|i: int| 0 <= i < ps1.len() - 1 implies #[trigger] step_ok(ps1, line1, i) by {
                    assert(ps1[i] == ps[i] && line1[i] == pv_line@[i]);
                    if i < ps.len() - 1 {
                        assert(step_ok(ps, pv_line@, i));
                        assert(ps1[i + 1] == ps[i + 1]);
                    }
                }
                assert forall|i: int| 0 <= i < ps1.len() implies line1[i].key == ps1[i].hash ^ line1[i].data by {
                    if i < ps.len() {
                        assert(pv_line@[i].key == ps[i].hash ^ pv_line@[i].data);
                    }
                }
                ps = ps1;
            }
            pv_line.push(entry);
            if !position.is_move_playable(&m) {
                break;
            }
            let ghost pre = *position;
            let accepted = position.make_move(&m, false);
            proof {
                assert(m == entry_move(entry));
                assert(make_move_post(pre, *position, m, false, accepted) && same_board_state(*position, *position));
            }
            if accepted {
                proof {
                    states = states.push(pre);
                    assert forall|i: int| 0 <= i < made + 1 implies position.position_stack@[base + i] == saved_entry(#[trigger] states[i]) by {
                        if i < made {
                            assert(position.position_stack@[base + i] == pre.position_stack@[base + i]);
                        }
                    }
                }
                made = made + 1;
            } else {
                proof {
                    assert forall|i: int| 0 <= i < made implies position.position_stack@[base + i] == saved_entry(#[trigger] states[i]) by {
                        assert(position.position_stack@[base + i] == pre.position_stack@[base + i]);
                    }
                }
            }
            if position.is_in_check() {
                if !position.is_movegen_ready() {
                    break;
                }
                let ghost before_gen = *position;
                position.generate_legal_moves();
                proof {
                    assert forall|i: int| 0 <= i < made implies position.position_stack@[base + i] == saved_entry(#[trigger] states[i]) by {
                        assert(position.position_stack@[base + i] == before_gen.position_stack@[base + i]);
                    }
                    let q = choose|q: Position, ok: bool| #[trigger] make_move_post(ps.last(), q, entry_move(pv_line@.last()), false, ok)
                        && same_board_state(q, before_gen);
                    assert(same_board_state(q.0, *position));
                }
                if position.move_list_stack[position.depth].len() == 0 {
                    break;
                }
            }
        }
        while made > 0
            invariant
                position.wf(),
                position.depth == base + made,
                made <= 65,
                base + 66 <= STACK_SIZE,
                states.len() >= made,
                forall|i: int| 0 <= i < made ==> (#[trigger] states[i]).wf() && states[i].depth == base + i,
                forall|i: int| 0 <= i < made ==> position.position_stack@[base + i] == saved_entry(#[trigger] states[i]),
                made > 0 ==> same_board_state(p0, states[0]),
                made == 0 ==> same_board_state(p0, *position),
            decreases made,
        {
            let ghost pre = *position;
            position.unmake_move();
            proof {
                let s = states[made - 1];
                assert(pre.position_stack@[base + (made - 1)] == saved_entry(s));
                lemma_unmake_restores_saved(s, pre, *position);
            }
            made = made - 1;
        }
        pv_line
    }
}

} // verus!
