use redtail::board::Position;
use redtail::chess::constants::STARTING_FEN;

#[test]
fn movegen_get_piece_at_square_and_set_fen_works() {
    let mut position = Position::new(Some(STARTING_FEN));
    assert!(position.perft(0) == 1);
    assert!(position.perft(1) == 20);
    assert!(position.perft(2) == 400);
    assert!(position.perft(3) == 8902);
    assert!(position.perft(4) == 197281);
}

#[test]
fn legal_moves_other_than_king_moves_are_pseudo_legal() {
    let fens = [
        STARTING_FEN,
        "r3k2r/p1ppqpb1/bn2pnp1/3PN3/1p2P3/2N2Q1p/PPPBBPPP/R3K2R w KQkq - 0 1",
        "4r1k1/8/8/8/8/8/4N3/4K3 w - - 0 1",
        "8/2p5/3p4/KP5r/1R3p1k/8/4P1P1/8 w - - 0 1",
    ];
    for fen in fens.iter() {
        let mut position = Position::new(Some(fen));
        let pseudo = position.generate_moves(false);
        position.generate_legal_moves();
        let legal = position.move_list_stack[position.depth].clone();
        let king = 5 + 6 * position.turn.to_index();
        for m in legal.iter() {
            if m.get_piece().to_index() != king {
                assert!(pseudo.contains(m), "{} is not pseudo-legal in {}", m.to_uci_string(), fen);
            }
        }
    }
}

fn legal_texts_of_piece(fen: &str, piece_index: usize) -> Vec<String> {
    let mut position = Position::new(Some(fen));
    position.generate_legal_moves();
    let list = position.move_list_stack[position.depth].clone();
    let mut texts: Vec<String> = list.iter().filter(|m| m.get_piece().to_index() == piece_index).map(|m| m.to_uci_string()).collect();
    texts.sort();
    texts
}

#[test]
fn a_pinned_knight_does_not_move_and_a_check_is_answered() {
    // The knight on e2 is pinned by the rook on e8.
    assert!(legal_texts_of_piece("4r1k1/8/8/8/8/8/4N3/4K3 w - - 0 1", 1).is_empty());
    // Unpinned, it has its six moves.
    assert_eq!(legal_texts_of_piece("6k1/8/8/8/8/8/4N3/4K3 w - - 0 1", 1).len(), 6);
    // The rook on a1 checks the king on e1: the knight on d2 may only block on b1.
    assert_eq!(legal_texts_of_piece("4k3/8/8/8/8/8/3N4/r3K3 w - - 0 1", 1), vec!["d2b1"]);
}

#[test]
fn a_pinned_rook_moves_along_its_pin() {
    // The rook on e3 is pinned by the rook on e8: it stays on the e-file.
    assert_eq!(
        legal_texts_of_piece("4r1k1/8/8/8/8/4R3/8/4K3 w - - 0 1", 3),
        vec!["e3e2", "e3e4", "e3e5", "e3e6", "e3e7", "e3e8"]
    );
    // A pinned pawn may still push along the pin: the pawn on e2 is pinned on the e-file.
    assert_eq!(legal_texts_of_piece("4r1k1/8/8/8/8/8/4P3/4K3 w - - 0 1", 0), vec!["e2e3", "e2e4"]);
}

fn all_legal_texts(fen: &str) -> Vec<String> {
    let mut position = Position::new(Some(fen));
    position.generate_legal_moves();
    let list = position.move_list_stack[position.depth].clone();
    let mut texts: Vec<String> = list.iter().map(|m| m.to_uci_string()).collect();
    texts.sort();
    texts
}

#[test]
fn a_king_checked_along_a_file_steps_off_it() {
    assert_eq!(
        all_legal_texts("4r3/8/8/8/4K3/8/8/7k w - - 0 1"),
        vec!["e4d3", "e4d4", "e4d5", "e4f3", "e4f4", "e4f5"]
    );
}

#[test]
fn a_pinned_rook_and_its_king_have_ten_moves() {
    assert_eq!(
        all_legal_texts("4r2k/8/8/8/8/8/4R3/4K3 w - - 0 1"),
        vec!["e1d1", "e1d2", "e1f1", "e1f2", "e2e3", "e2e4", "e2e5", "e2e6", "e2e7", "e2e8"]
    );
}

#[test]
fn perft_at_depth_zero_leaves_the_position_alone() {
    let mut position = Position::new(Some(STARTING_FEN));
    assert_eq!(position.perft(0), 1);
    assert_eq!(position.depth, 0);
    assert_eq!(position.as_fen(), STARTING_FEN);
    assert_eq!(position.perft(1), 20);
    assert_eq!(position.as_fen(), STARTING_FEN);
}

#[test]
fn a_king_does_not_step_next_to_the_other_king() {
    assert_eq!(
        all_legal_texts("8/8/8/3k4/8/3K4/8/8 w - - 0 1"),
        vec!["d3c2", "d3c3", "d3d2", "d3e2", "d3e3"]
    );
}
