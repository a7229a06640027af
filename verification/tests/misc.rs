use redtail::chess::castling_rights::CastlingRights;
use redtail::bitboard::Bitboard;
use redtail::board::Position;
use redtail::chess::constants::STARTING_FEN;
use redtail::movegen::PerftResult;
use redtail::search::options::SearchOptions;

#[test]
fn bitboard_operations_on_words() {
    let mut b: u64 = 0;
    b.set_bit(3);
    assert_eq!(b.get_bit(3), 8);
    assert!(b.test_bit(3));
    assert!(!b.test_bit(4));
    b.set_bit(10);
    assert_eq!(b.get_lsb(), 3);
    assert_eq!(b.pop_lsb(), 3);
    assert_eq!(b, 1 << 10);
    b.clear_bit(10);
    assert_eq!(b, 0);
    assert_eq!(b.get_lsb(), 64);
}

#[test]
fn fen_of_the_start_position() {
    let position = Position::new(Some(STARTING_FEN));
    assert_eq!(position.as_fen(), STARTING_FEN);
    let fen = "r3k2r/p1ppqpb1/bn2pnp1/3PN3/1p2P3/2N2Q1p/PPPBBPPP/R3K2R b Kq e3 12 40";
    assert_eq!(Position::new(Some(fen)).as_fen(), fen);
    let fen = "8/8/8/8/8/8/8/K6k w - - 0 1";
    assert_eq!(Position::new(Some(fen)).as_fen(), fen);
}

#[test]
fn go_tokens_set_the_limits() {
    let tokens = vec!["go", "wtime", "1000", "btime", "2000", "winc", "10", "binc", "20", "movestogo", "30",
        "depth", "7", "movetime", "500", "infinite", "ponder"];
    assert!(SearchOptions::tokens_valid(&tokens));
    let o = SearchOptions::from_tokens(&tokens);
    assert_eq!(o.wtime, Some(1000));
    assert_eq!(o.btime, Some(2000));
    assert_eq!(o.winc, Some(10));
    assert_eq!(o.binc, Some(20));
    assert_eq!(o.movestogo, Some(30));
    assert_eq!(o.depth, Some(7));
    assert_eq!(o.movetime, Some(500));
    assert!(o.infinite);
    assert!(o.ponder);
    let o = SearchOptions::from_tokens(&vec!["go", "depth", "300"]);
    assert_eq!(o.depth, Some(44));
    let o = SearchOptions::from_tokens(&vec!["go"]);
    assert_eq!(o.depth, None);
    assert!(!o.infinite);
}

#[test]
fn go_tokens_without_numbers_are_refused() {
    assert!(!SearchOptions::tokens_valid(&vec!["go", "depth"]));
    assert!(!SearchOptions::tokens_valid(&vec!["go", "wtime", "soon"]));
    assert!(!SearchOptions::tokens_valid(&vec!["go", "movetime", "-5"]));
    assert!(SearchOptions::tokens_valid(&vec!["go", "infinite"]));
}

#[test]
fn perft_results_add_up() {
    let a = PerftResult { depth: 2, nodes: 10, captures: 1, enpassants: 0, castles: 2, promotions: 0, checks: 3,
        discovery_checks: 0, double_checks: 1, checkmates: 0 };
    let b = PerftResult { depth: 3, nodes: 5, captures: 4, enpassants: 1, castles: 0, promotions: 2, checks: 0,
        discovery_checks: 1, double_checks: 0, checkmates: 1 };
    let c = a.add(b);
    assert_eq!(c.depth, 2);
    assert_eq!(c.nodes, 15);
    assert_eq!(c.captures, 5);
    assert_eq!(c.enpassants, 1);
    assert_eq!(c.castles, 2);
    assert_eq!(c.promotions, 2);
    assert_eq!(c.checks, 3);
    assert_eq!(c.discovery_checks, 1);
    assert_eq!(c.double_checks, 1);
    assert_eq!(c.checkmates, 1);
}

#[test]
fn a_bishop_magic_number_is_found() {
    let mut position = Position::new(None);
    let magic = position._find_magic_number(0, 6, true);
    assert_ne!(magic, 0);
}

#[test]
fn castling_rights_from_fen_text() {
    assert_eq!(CastlingRights::from_text("KQkq").get_rights_u8(), 15);
    assert_eq!(CastlingRights::from_text("Kq").get_rights_u8(), 9);
    assert_eq!(CastlingRights::from_text("-").get_rights_u8(), 0);
    assert_eq!(CastlingRights::from_text("k-Q").get_rights_u8(), 4);
}

#[test]
fn setting_the_from_square_and_back_gives_the_move_again() {
    let mut m = redtail::chess::_move::BitPackedMove::new(52, 36, redtail::chess::piece::Piece::WhitePawn);
    let old = m;
    m.set_from(12);
    assert_eq!(m.get_from(), 12);
    assert_eq!(m.get_to(), 36);
    m.set_from(old.get_from());
    assert!(m == old);
}

#[test]
fn raising_alpha() {
    assert_eq!(redtail::search::evaluate::raise_alpha(10, 50, 60), None);
    assert_eq!(redtail::search::evaluate::raise_alpha(10, 50, 50), None);
    assert_eq!(redtail::search::evaluate::raise_alpha(10, 50, 30), Some(30));
    assert_eq!(redtail::search::evaluate::raise_alpha(10, 50, 5), Some(10));
}
