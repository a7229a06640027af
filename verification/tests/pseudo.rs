use redtail::board::Position;
use redtail::chess::_move::BitPackedMove;
use redtail::chess::piece::Piece;
use redtail::chess::constants::STARTING_FEN;
use redtail::search::utils::parse_move;

#[test]
fn start_position_has_twenty_pseudo_legal_moves_and_no_captures() {
    let position = Position::new(Some(STARTING_FEN));
    assert_eq!(position.generate_moves(false).len(), 20);
    assert_eq!(position.generate_moves(true).len(), 0);
}

#[test]
fn pseudo_legal_moves_include_moves_into_check() {
    // The king on e1 is pinned against nothing, but the knight on e2 is pinned by the rook on
    // e8: pseudo-legal generation still lists the knight's moves.
    let position = Position::new(Some("4r1k1/8/8/8/8/8/4N3/4K3 w - - 0 1"));
    let moves = position.generate_moves(false);
    assert!(moves.iter().any(|m| m.to_uci_string() == "e2c3"));
}

#[test]
fn promotions_come_in_four() {
    let position = Position::new(Some("8/P6k/8/8/8/8/8/K7 w - - 0 1"));
    let moves = position.generate_moves(false);
    let promotions: Vec<String> = moves.iter().filter(|m| m.is_promotion()).map(|m| m.to_uci_string()).collect();
    assert_eq!(promotions, vec!["a7a8q", "a7a8r", "a7a8b", "a7a8n"]);
}

#[test]
fn captures_only_lists_captures_and_en_passant() {
    let position = Position::new(Some("4k3/8/8/3pP3/8/8/8/4K3 w - d6 0 2"));
    let moves = position.generate_moves(true);
    let texts: Vec<String> = moves.iter().map(|m| m.to_uci_string()).collect();
    assert_eq!(texts, vec!["e5d6"]);
    assert!(moves[0].is_enpassant());
}

#[test]
fn castling_moves_are_generated_when_allowed() {
    let position = Position::new(Some("r3k2r/8/8/8/8/8/8/R3K2R w KQkq - 0 1"));
    let moves = position.generate_moves(false);
    let castles: Vec<String> = moves.iter().filter(|m| m.is_castle()).map(|m| m.to_uci_string()).collect();
    assert_eq!(castles, vec!["e1g1", "e1c1"]);
    let position = Position::new(Some("r3k2r/8/8/8/8/8/8/R3K2R w KQkq - 0 1"));
    assert_eq!(position.generate_moves(true).iter().filter(|m| m.is_castle()).count(), 0);
}

#[test]
fn parse_move_finds_the_move_with_that_text() {
    let mut position = Position::new(Some(STARTING_FEN));
    let m = parse_move(&mut position, "e2e4").unwrap();
    assert_eq!(m.to_uci_string(), "e2e4");
    assert!(parse_move(&mut position, "e2e5").is_none());
    assert!(parse_move(&mut position, "").is_none());
}

#[test]
fn attacked_squares_of_the_opponent() {
    let position = Position::new(Some("4k3/8/8/8/8/8/8/4K3 w - - 0 1"));
    let attacked = position.get_attacked_squares();
    // The black king on e8 (square 4) attacks d8, f8, d7, e7, f7.
    let expected: u64 = (1 << 3) | (1 << 5) | (1 << 11) | (1 << 12) | (1 << 13);
    assert_eq!(attacked, expected);
}

#[test]
fn divide_perft_splits_the_count_by_move() {
    let mut position = Position::new(Some(STARTING_FEN));
    let (total, generated, per_move) = position.divide_perft(2);
    assert_eq!(total, 400);
    assert_eq!(generated, 20);
    assert_eq!(per_move.len(), 20);
    assert!(per_move.iter().all(|(_, n)| *n == 20));
}

#[test]
fn bitboard_targets_become_moves_lowest_square_first() {
    // White knight on b1 (square 57), black pawn on a3 (square 40).
    let position = Position::new(Some("4k3/8/8/8/8/p7/8/1N2K3 w - - 0 1"));
    let mut moves = Vec::new();
    position.append_bb_movelist_captures(&mut moves, 1u64 << 40, Piece::WhiteKnight, 57);
    position.append_bb_movelist(&mut moves, (1u64 << 51) | (1u64 << 42), Piece::WhiteKnight, 57);
    let texts: Vec<String> = moves.iter().map(|m| m.to_uci_string()).collect();
    assert_eq!(texts, vec!["b1a3", "b1c3", "b1d2"]);
    assert_eq!(moves[0].get_capture(), Piece::BlackPawn);
    assert_eq!(moves[1].get_capture(), Piece::Empty);
}

#[test]
fn a_pawn_on_the_seventh_promotes_four_ways_each_move() {
    let p = Position::new(Some("3r3k/4P3/8/8/8/8/8/4K3 w - - 0 1"));
    let mut v: Vec<BitPackedMove> = Vec::new();
    p.generate_white_pawn_moves(&mut v, false);
    assert_eq!(v.len(), 8);
    let pushes = v.iter().filter(|m| m.to_uci_string().starts_with("e7e8") && m.get_capture() == Piece::Empty).count();
    let captures = v.iter().filter(|m| m.to_uci_string().starts_with("e7d8") && m.get_capture() == Piece::BlackRook).count();
    assert_eq!(pushes, 4);
    assert_eq!(captures, 4);
    let mut only: Vec<BitPackedMove> = Vec::new();
    p.generate_white_pawn_moves(&mut only, true);
    assert_eq!(only.len(), 4);
}

#[test]
fn both_castlings_are_listed_once_each() {
    let p = Position::new(Some("r3k2r/8/8/8/8/8/8/R3K2R w KQkq - 0 1"));
    let mut v: Vec<BitPackedMove> = Vec::new();
    p.generate_castle_moves(&mut v);
    let mut texts: Vec<String> = v.iter().map(|m| m.to_uci_string()).collect();
    texts.sort();
    assert_eq!(texts, vec!["e1c1", "e1g1"]);
}
