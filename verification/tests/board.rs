use redtail::board::Position;
use redtail::chess::piece::Piece;

#[test]
fn board_get_piece_at_square_and_set_fen_works() {
    let position = Position::new(Some(
        "rnbqkbnr/pppppppp/8/8/8/8/PPPPPPPP/RNBQKBNR w KQkq - 0 1",
    ));
    assert_eq!(position.get_piece_at_square(0), Piece::BlackRook);
    assert_eq!(position.get_piece_at_square(1), Piece::BlackKnight);
    assert_eq!(position.get_piece_at_square(2), Piece::BlackBishop);
    assert_eq!(position.get_piece_at_square(3), Piece::BlackQueen);
    assert_eq!(position.get_piece_at_square(4), Piece::BlackKing);
    assert_eq!(position.get_piece_at_square(5), Piece::BlackBishop);
    assert_eq!(position.get_piece_at_square(6), Piece::BlackKnight);
    assert_eq!(position.get_piece_at_square(7), Piece::BlackRook);
    assert_eq!(position.get_piece_at_square(8), Piece::BlackPawn);
    assert_eq!(position.get_piece_at_square(9), Piece::BlackPawn);
    assert_eq!(position.get_piece_at_square(10), Piece::BlackPawn);
    assert_eq!(position.get_piece_at_square(11), Piece::BlackPawn);
    assert_eq!(position.get_piece_at_square(12), Piece::BlackPawn);
    assert_eq!(position.get_piece_at_square(13), Piece::BlackPawn);
    assert_eq!(position.get_piece_at_square(14), Piece::BlackPawn);
    assert_eq!(position.get_piece_at_square(15), Piece::BlackPawn);
    assert_eq!(position.get_piece_at_square(48), Piece::WhitePawn);
    assert_eq!(position.get_piece_at_square(49), Piece::WhitePawn);
    assert_eq!(position.get_piece_at_square(50), Piece::WhitePawn);
    assert_eq!(position.get_piece_at_square(51), Piece::WhitePawn);
    assert_eq!(position.get_piece_at_square(52), Piece::WhitePawn);
    assert_eq!(position.get_piece_at_square(53), Piece::WhitePawn);
    assert_eq!(position.get_piece_at_square(54), Piece::WhitePawn);
    assert_eq!(position.get_piece_at_square(55), Piece::WhitePawn);
    assert_eq!(position.get_piece_at_square(56), Piece::WhiteRook);
    assert_eq!(position.get_piece_at_square(57), Piece::WhiteKnight);
}

fn small_engine() -> redtail::uci::UCI {
    redtail::uci::UCI {
        position: Position::new(None),
        transposition_table: redtail::tt::TranspositionTable::new(1),
        stop_flag: std::sync::Arc::new(std::sync::atomic::AtomicBool::new(false)),
        ponder_flag: std::sync::Arc::new(std::sync::atomic::AtomicBool::new(false)),
        num_threads: 1,
    }
}

#[test]
fn position_command_plays_the_moves() {
    let mut engine = small_engine();
    let tokens: Vec<&str> = "position startpos moves e2e4 e7e5".split_whitespace().collect();
    engine.handle_position(&tokens);
    assert!(engine.position.as_fen().starts_with("rnbqkbnr/pppp1ppp/8/4p3/4P3/8/PPPP1PPP/RNBQKBNR w KQkq e6"));
    assert_eq!(engine.position.depth, 0);

    let tokens: Vec<&str> = "position fen 8/8/8/8/8/8/8/K6k w - - 0 1 moves a1a2 h1h2 zzzz a2a3".split_whitespace().collect();
    engine.handle_position(&tokens);
    // The moves stop at the first token that is no move.
    assert!(engine.position.as_fen().starts_with("8/8/8/8/8/8/K6k/8 w -"));
}

#[test]
fn the_hash_after_a_move_is_the_fresh_hash_of_the_new_position() {
    let mut p = Position::new(Some(redtail::chess::constants::STARTING_FEN));
    let start = p.hash;
    for text in ["e2e4", "e7e5", "g1f3", "b8c6", "f1c4", "g8f6", "e1g1"].iter() {
        let m = redtail::search::utils::parse_move(&mut p, text).unwrap();
        assert!(p.make_move(&m, false));
        let incremental = p.hash;
        p.update_hash();
        assert_eq!(incremental, p.hash, "after {}", text);
    }
    // Knights out and back: the same position gets the same hash.
    let mut q = Position::new(Some(redtail::chess::constants::STARTING_FEN));
    for text in ["g1f3", "g8f6", "f3g1", "f6g8"].iter() {
        let m = redtail::search::utils::parse_move(&mut q, text).unwrap();
        assert!(q.make_move(&m, false));
    }
    assert_eq!(q.hash, start);
}

#[test]
fn written_fen_reads_back_to_the_same_fen() {
    let mut engine = small_engine();
    let tokens: Vec<&str> = "position startpos moves e2e4 c7c5 g1f3 d7d6 f1b5".split_whitespace().collect();
    engine.handle_position(&tokens);
    let fen = engine.position.as_fen();
    assert!(fen.starts_with("rnbqkbnr/pp2pppp/3p4/1Bp5/4P3/5N2/PPPP1PPP/RNBQK2R b KQkq - "));
    let read = Position::new(Some(&fen));
    assert_eq!(read.as_fen(), fen);
}
