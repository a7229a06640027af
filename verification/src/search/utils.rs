use vstd::prelude::*;

verus! {

use crate::board::Position;
use crate::chess::_move::{BitPackedMove, uci_chars};
use crate::movegen::pseudo::{is_pseudo_move, law_pseudo_moves_listed};

/// Parses a move written in UCI notation: the first pseudo-legal move of the position whose
/// UCI text is the string, or none when no pseudo-legal move has that text.
pub fn parse_move(position: &mut Position, move_string: &str) -> (r: Option<BitPackedMove>)
    requires
        old(position).wf(),
    ensures
        *final(position) == *old(position),
        r matches Some(m) ==> is_pseudo_move(*old(position), false, m) && uci_chars(m) == move_string@,
        r is None ==> forall|m: BitPackedMove| is_pseudo_move(*old(position), false, m) ==> uci_chars(m) != move_string@,
{
    let moves = position.generate_moves(false);
    let target = move_string.to_owned();
    let mut i: usize = 0;
    while i < moves.len()
        invariant
            position.wf(),
            target@ == move_string@,
            forall|k: int| 0 <= k < moves@.len() ==> is_pseudo_move(*position, false, #[trigger] moves@[k]),
            crate::movegen::pseudo::pseudo_complete(*position, false, moves@),
            forall|k: int| 0 <= k < i && k < moves@.len() ==> uci_chars(#[trigger] moves@[k]) != move_string@,
        decreases moves.len() - i,
    {
        let m = moves[i];
        if m.to_uci_string() == target {
            return Some(m);
        }
        i = i + 1;
    }
    proof {
        assert forall|m: BitPackedMove| is_pseudo_move(*position, false, m) implies uci_chars(m) != move_string@ by {
            law_pseudo_moves_listed(*position, false, moves@, m);
            let k = choose|k: int| 0 <= k < moves@.len() && moves@[k] == m;
            assert(uci_chars(moves@[k]) != move_string@);
        }
    }
    None
}

} // verus!
