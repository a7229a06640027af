use vstd::prelude::*;
use std::sync::Arc;
use std::sync::atomic::AtomicBool;

verus! {

use crate::board::{Position, STACK_SIZE, MATERIAL_LIMIT};
use crate::board::fen::{is_valid_fen, fen_valid};
use crate::board::make::{same_board_state, make_move_post, move_playable};
use crate::chess::_move::{BitPackedMove, uci_chars};
use crate::movegen::pseudo::is_pseudo_move;
use crate::chess::constants::STARTING_FEN;
use crate::search::utils::parse_move;
use crate::tt::TranspositionTable;
use vstd::string::StringExecFns;
use vstd::string::StringSliceAdditionalSpecFns;

/// The engine's state between commands: the position, the transposition table, the flags that
/// stop a search and end pondering, and the number of search threads.
pub struct UCI {
    pub position: Position,
    pub transposition_table: TranspositionTable,
    pub stop_flag: Arc<AtomicBool>,
    pub ponder_flag: Arc<AtomicBool>,
    pub num_threads: usize,
}

/// The hash table size of the engine, in megabytes.
pub const HASH_SIZE_MB: usize = 2048;

/// Whether the two strings hold the same characters.
fn same_text(a: &str, b: &str) -> (r: bool)
    ensures
        r == (a@ == b@),
{
    let x = a.to_owned();
    let y = b.to_owned();
    x == y
}

/// Whether the reader takes the FEN string: it is valid, and the position's material counts
/// leave room for the reader's additions.
pub open spec fn fen_accepted(position: Position, fen: Seq<char>) -> bool {
    &&& fen_valid(vstd::utf8::encode_utf8(fen))
    &&& -MATERIAL_LIMIT <= position.material[0] <= MATERIAL_LIMIT
    &&& -MATERIAL_LIMIT <= position.material[1] <= MATERIAL_LIMIT
}

/// Sets the position to the FEN string when it is valid and the material counts leave room
/// for the reader's additions; else leaves it as it is.
fn set_fen_checked(position: &mut Position, fen: &str)
    requires
        old(position).wf(),
    ensures
        final(position).wf(),
        fen_accepted(*old(position), fen@) ==> final(position).holds_fen(fen.spec_bytes()) && final(position).depth == old(position).depth,
        !fen_accepted(*old(position), fen@) ==> *final(position) == *old(position),
{
    if is_valid_fen(fen) && -MATERIAL_LIMIT <= position.material[0] && position.material[0] <= MATERIAL_LIMIT
        && -MATERIAL_LIMIT <= position.material[1] && position.material[1] <= MATERIAL_LIMIT {
        position.set_fen(fen);
    }
}

/// The position with its depth set back to zero.
pub open spec fn at_depth_zero(p: Position) -> Position {
    Position { depth: 0, ..p }
}

/// Whether `q` is what playing the move written `tok` leaves of `p`: at depth zero, a
/// pseudo-legal move with that UCI text is handed to `make_move` when it is playable, and the
/// depth goes back to zero.
pub open spec fn token_played(p: Position, tok: Seq<char>, q: Position) -> bool {
    let p0 = at_depth_zero(p);
    exists|m: BitPackedMove| #[trigger] is_pseudo_move(p0, false, m) && uci_chars(m) == tok && (if move_playable(p0, m) {
        exists|q1: Position, r: bool| #[trigger] make_move_post(p0, q1, m, false, r) && q == at_depth_zero(q1)
    } else {
        q == p0
    })
}

/// The positions `ps` start from `p` and each follows its predecessor by playing the next
/// token from `start` on.
pub open spec fn game_line(p: Position, tokens: Seq<&str>, start: int, ps: Seq<Position>) -> bool {
    &&& ps.len() >= 1
    &&& ps[0] == p
    &&& forall|k: int| 0 <= k < ps.len() - 1 ==> start + k < tokens.len()
        && #[trigger] token_played(ps[k], tokens[start + k]@, ps[k + 1])
}

/// Whether playing the tokens from `start` on, as `parse_and_make_moves` does, takes `p` to
/// `q`: along a line of positions, each following its predecessor by its token, ending when
/// the tokens run out (at the last position) or at a token that is no pseudo-legal move of
/// the last position (at that position with its depth set back to zero).
pub open spec fn plays_tokens(p: Position, tokens: Seq<&str>, start: int, q: Position) -> bool {
    exists|ps: Seq<Position>| #[trigger] game_line(p, tokens, start, ps) && {
        let n = ps.len() - 1;
        ||| (start + n >= tokens.len() && q == ps[n])
        ||| (start + n < tokens.len() && q == at_depth_zero(ps[n])
            && forall|m: BitPackedMove| is_pseudo_move(at_depth_zero(ps[n]), false, m) ==> uci_chars(m) != tokens[start + n]@)
    }
}

/// The FEN string of a `position fen` command: tokens 2 to 7 joined by spaces.
pub open spec fn joined_tokens(tokens: Seq<&str>, i: int) -> Seq<char>
    decreases i,
{
    if i <= 2 {
        Seq::empty()
    } else if i == 3 {
        tokens[2]@
    } else {
        joined_tokens(tokens, i - 1) + seq![' '] + tokens[i - 1]@
    }
}

impl UCI {
    /// The engine at the start position, with a table of `HASH_SIZE_MB` megabytes, the flags
    /// down and one search thread.
    pub fn new() -> (r: UCI)
        ensures
            r.position.wf(),
            r.transposition_table.wf(),
            r.num_threads == 1,
    {
        let mut position = Position::new(None);
        set_fen_checked(&mut position, STARTING_FEN);
        UCI {
            position,
            transposition_table: TranspositionTable::new(HASH_SIZE_MB),
            stop_flag: Arc::new(AtomicBool::new(false)),
            ponder_flag: Arc::new(AtomicBool::new(false)),
            num_threads: 1,
        }
    }

    /// Plays the moves given in UCI notation from token `start` on, each on the position its
    /// predecessor left; stops at the first token that is no pseudo-legal move of its position.
    /// After each move the depth goes back to zero, so that a game of any length leaves the
    /// saved entries room for a search.
    pub fn parse_and_make_moves(&mut self, tokens: &Vec<&str>, start: usize)
        requires
            old(self).position.wf(),
        ensures
            final(self).position.wf(),
            final(self).transposition_table == old(self).transposition_table,
            start >= tokens@.len() ==> final(self).position == old(self).position,
            plays_tokens(old(self).position, tokens@, start as int, final(self).position),
    {
        let ghost mut ps: Seq<Position> = seq![self.position];
        let mut i = start;
        while i < tokens.len()
            invariant_except_break
                ps.len() - 1 == i - start,
                self.position == ps.last(),
            invariant
                self.position.wf(),
                self.transposition_table == old(self).transposition_table,
                start <= i,
                start >= tokens@.len() ==> self.position == old(self).position,
                game_line(old(self).position, tokens@, start as int, ps),
            ensures
                ps.len() - 1 == i - start,
                ({
                    let n = ps.len() - 1;
                    ||| (start + n >= tokens@.len() && self.position == ps[n])
                    ||| (start + n < tokens@.len() && self.position == at_depth_zero(ps[n])
                        && forall|m: BitPackedMove| is_pseudo_move(at_depth_zero(ps[n]), false, m) ==> uci_chars(m) != tokens@[start + n]@)
                }),
            decreases tokens.len() - i,
        {
            let ghost prev = self.position;
            self.position.depth = 0;
            proof {
                assert(self.position == at_depth_zero(prev));
            }
            match parse_move(&mut self.position, tokens[i]) {
                Some(m) => {
                    let ghost p0 = self.position;
                    if self.position.is_move_playable(&m) {
                        let r = self.position.make_move(&m, false);
                        let ghost q1 = self.position;
                        self.position.depth = 0;
                        proof {
                            assert(make_move_post(p0, q1, m, false, r));
                            assert(self.position == at_depth_zero(q1));
                        }
                    } else {
                        self.position.depth = 0;
                        proof {
                            assert(self.position == p0);
                        }
                    }
                    proof {
                        assert(is_pseudo_move(at_depth_zero(prev), false, m));
                        assert(token_played(prev, tokens@[i as int]@, self.position));
                        let old_ps = ps;
                        ps = ps.push(self.position);
                        assert forall|k: int| 0 <= k < ps.len() - 1 implies start + k < tokens@.len()
                            && #[trigger] token_played(ps[k], tokens@[start + k]@, ps[k + 1]) by {
                            if k < old_ps.len() - 1 {
                                assert(ps[k] == old_ps[k] && ps[k + 1] == old_ps[k + 1]);
                            }
                        }
                    }
                },
                None => {
                    break;
                },
            }
            i = i + 1;
        }
        proof {
            assert(game_line(old(self).position, tokens@, start as int, ps));
        }
    }

    /// Applies the value of a `setoption name Threads value <n>` command, once the value has
    /// been read as a number: at least one thread. Other options change nothing.
    pub fn set_threads_option(&mut self, tokens: &Vec<&str>, value: usize)
        ensures
            (tokens@.len() >= 5 && tokens@[1]@ == "name"@ && tokens@[2]@ == "Threads"@ && tokens@[3]@ == "value"@)
                ==> final(self).num_threads == (if value < 1 { 1 } else { value }),
            !(tokens@.len() >= 5 && tokens@[1]@ == "name"@ && tokens@[2]@ == "Threads"@ && tokens@[3]@ == "value"@)
                ==> final(self).num_threads == old(self).num_threads,
            final(self).position == old(self).position,
            final(self).transposition_table == old(self).transposition_table,
    {
        if tokens.len() >= 5 && same_text(tokens[1], "name") && same_text(tokens[2], "Threads") && same_text(tokens[3], "value") {
            self.num_threads = if value < 1 { 1 } else { value };
        }
    }

    /// Sets the position of a `position` command: `position startpos [moves ...]` or
    /// `position fen <six fields> [moves ...]`; an invalid FEN string leaves the position as it
    /// is. Other commands change nothing.
    pub fn handle_position(&mut self, tokens: &Vec<&str>)
        requires
            old(self).position.wf(),
        ensures
            final(self).position.wf(),
            final(self).transposition_table == old(self).transposition_table,
            tokens@.len() < 2 ==> final(self).position == old(self).position,
            tokens@.len() == 2 && tokens@[1]@ == "startpos"@ ==> (if fen_accepted(old(self).position, STARTING_FEN@) {
                final(self).position.holds_fen(STARTING_FEN.spec_bytes())
            } else {
                final(self).position == old(self).position
            }),
            tokens@.len() >= 2 && tokens@[1]@ != "startpos"@ && tokens@[1]@ != "fen"@ ==> final(self).position == old(self).position,
            tokens@.len() > 2 && tokens@[1]@ == "startpos"@ && tokens@[2]@ == "moves"@ ==> (if fen_accepted(old(self).position, STARTING_FEN@) {
                exists|p: Position| #[trigger] p.holds_fen(STARTING_FEN.spec_bytes()) && plays_tokens(p, tokens@, 3, final(self).position)
            } else {
                plays_tokens(old(self).position, tokens@, 3, final(self).position)
            }),
            tokens@.len() >= 8 && tokens@[1]@ == "fen"@ ==> ({
                let f = joined_tokens(tokens@, 8);
                let with_moves = tokens@.len() > 8 && tokens@[8]@ == "moves"@;
                if fen_accepted(old(self).position, f) {
                    exists|p: Position| #[trigger] p.holds_fen(vstd::utf8::encode_utf8(f))
                        && (if with_moves { plays_tokens(p, tokens@, 9, final(self).position) } else { final(self).position == p })
                } else {
                    if with_moves { plays_tokens(old(self).position, tokens@, 9, final(self).position) } else { final(self).position == old(self).position }
                }
            }),
    {
        proof {
            reveal_strlit("startpos");
            reveal_strlit("fen");
            reveal_strlit(" ");
            assert("startpos"@.len() != "fen"@.len());
            assert("startpos"@ != "fen"@);
        }
        if tokens.len() < 2 {
            return;
        }
        if same_text(tokens[1], "startpos") {
            set_fen_checked(&mut self.position, STARTING_FEN);
            let ghost after_fen = self.position;
            if tokens.len() > 2 && same_text(tokens[2], "moves") {
                self.parse_and_make_moves(tokens, 3);
                proof {
                    if fen_accepted(old(self).position, STARTING_FEN@) {
                        assert(after_fen.holds_fen(STARTING_FEN.spec_bytes()));
                    }
                }
            }
        }
        if same_text(tokens[1], "fen") && tokens.len() >= 8 {
            let mut fen = String::new();
            let mut i: usize = 2;
            while i < 8
                invariant
                    2 <= i <= 8,
                    tokens@.len() >= 8,
                    fen@ == joined_tokens(tokens@, i as int),
                    " "@ == seq![' '],
                decreases 8 - i,
            {
                if i > 2 {
                    fen.append(" ");
                }
                fen.append(tokens[i]);
                i = i + 1;
            }
            proof {
                assert(self.position == old(self).position);
                assert(fen@ == joined_tokens(tokens@, 8));
            }
            set_fen_checked(&mut self.position, fen.as_str());
            let ghost after_fen = self.position;
            if tokens.len() > 8 && same_text(tokens[8], "moves") {
                self.parse_and_make_moves(tokens, 9);
                proof {
                    if fen_accepted(old(self).position, joined_tokens(tokens@, 8)) {
                        assert(after_fen.holds_fen(vstd::utf8::encode_utf8(joined_tokens(tokens@, 8))));
                    }
                }
            }
        }
    }
}

} // verus!
