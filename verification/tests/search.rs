use std::sync::atomic::AtomicBool;
use std::sync::Arc;

use redtail::board::Position;
use redtail::chess::constants::STARTING_FEN;
use redtail::chess::_move::BitPackedMove;
use redtail::chess::piece::Piece;
use redtail::search::evaluate::{count_repetitions, past_half_time, static_exchange, within_time, Evaluator};
use redtail::search::options::SearchOptions;
use redtail::tt::TranspositionTable;

fn search_to_depth(fen: &str, depth: u8) -> (Option<BitPackedMove>, Position) {
    let mut position = Position::new(Some(fen));
    let mut evaluator = Evaluator::new();
    evaluator.set_silent(true);
    let tt = TranspositionTable::new(1);
    let stop_flag = Arc::new(AtomicBool::new(false));
    let mut options = SearchOptions::new();
    options.depth = Some(depth);
    tt.increment_age();
    let mut state = evaluator.start_search(&mut position, options, &stop_flag, None);
    while let Some(_report) = evaluator.search_next(&mut position, &mut state, &tt) {}
    let (best, _ponder) = evaluator.finish_search(&mut position, &state);
    (best, position)
}

#[test]
fn search_from_start_returns_a_generated_move() {
    let (best, mut position) = search_to_depth(STARTING_FEN, 3);
    let m = best.unwrap();
    let moves = position.generate_moves(false);
    assert!(moves.contains(&m));
    assert!(position.make_move(&m, false));
}

#[test]
fn search_takes_a_hanging_queen() {
    let (best, _position) = search_to_depth("4k3/8/8/3q4/8/8/3R4/4K3 w - - 0 1", 2);
    assert_eq!(best.unwrap().to_uci_string(), "d2d5");
}

#[test]
fn evaluation_terms_of_small_positions() {
    let position = Position::new(Some("4k3/8/8/8/8/8/P7/4K3 w - - 0 1"));
    assert_eq!(position.evaluate_pawn_structure(), -10);
    let position = Position::new(Some("4k3/8/8/8/8/8/8/R3K3 w - - 0 1"));
    assert_eq!(position.evaluate_open_files(), 30);
    let position = Position::new(Some("4k3/8/8/8/8/8/3PPP2/4K3 w - - 0 1"));
    assert_eq!(position.evaluate_king_safety(), 18);
    let position = Position::new(Some("4k3/8/8/8/8/8/8/2B1KB2 w - - 0 1"));
    assert_eq!(position.evaluate_bishop_pair(), 30);
    let position = Position::new(Some("4k3/8/8/8/8/8/8/2B1KB2 b - - 0 1"));
    assert_eq!(position.evaluate_bishop_pair(), -30);
}

#[test]
fn evaluation_of_the_start_position_is_balanced_apart_from_material() {
    let position = Position::new(Some(STARTING_FEN));
    assert_eq!(position.evaluate_pawn_structure(), 0);
    assert_eq!(position.evaluate_open_files(), 0);
    assert_eq!(position.evaluate_king_safety(), 0);
    assert_eq!(position.evaluate_bishop_pair(), 0);
    assert_eq!(position.evaluate(), position.material[0] - position.material[1]);
}

#[test]
fn short_movetime_returns_legal_move() {
    let mut position = Position::new(Some(STARTING_FEN));
    let mut evaluator = Evaluator::new();
    let tt = TranspositionTable::new(32);
    let stop_flag = Arc::new(AtomicBool::new(false));

    let mut options = SearchOptions::new();
    options.movetime = Some(1); // 1ms - very short time

    tt.increment_age();
    evaluator.set_silent(true);
    let mut state = evaluator.start_search(&mut position, options, &stop_flag, None);
    while let Some(_report) = evaluator.search_next(&mut position, &mut state, &tt) {}
    let (best_move, _ponder_move) = evaluator.finish_search(&mut position, &state);

    assert!(best_move.is_some());
    let m = best_move.unwrap();

    // The move should not be the default a8a8 move
    assert!(!(m.get_from() == 0 && m.get_to() == 0), "Expected a legal move, got default a8a8");

    // Verify the move is actually legal by trying to make it
    let is_legal = position.make_move(&m, false);
    assert!(is_legal, "Expected a legal move, but move was illegal");
}

#[test]
fn search_raises_the_stop_flag_when_done() {
    let (_best, _position) = search_to_depth(STARTING_FEN, 1);
    let mut position = Position::new(Some(STARTING_FEN));
    let mut evaluator = Evaluator::new();
    evaluator.set_silent(true);
    let tt = TranspositionTable::new(1);
    let stop_flag = Arc::new(AtomicBool::new(false));
    let mut options = SearchOptions::new();
    options.depth = Some(1);
    let mut state = evaluator.start_search(&mut position, options, &stop_flag, None);
    while let Some(report) = evaluator.search_next(&mut position, &mut state, &tt) {
        assert_eq!(report.pv.len(), 1);
    }
    evaluator.finish_search(&mut position, &state);
    assert!(stop_flag.load(std::sync::atomic::Ordering::SeqCst));
}

#[test]
fn static_exchange_counts_the_recapture() {
    // Rook d1 takes a pawn on d5 that the pawn on e6 defends: +100 - 500.
    let defended = Position::new(Some("4k3/8/4p3/3p4/8/8/8/3RK3 w - - 0 1"));
    let mut m = BitPackedMove::new(59, 27, Piece::WhiteRook);
    m.set_capture(Piece::BlackPawn);
    assert_eq!(static_exchange(&defended, m), -400);
    // Without the defender the pawn is simply won.
    let undefended = Position::new(Some("4k3/8/8/3p4/8/8/8/3RK3 w - - 0 1"));
    assert_eq!(static_exchange(&undefended, m), 100);
}

#[test]
fn time_limits_from_the_clock() {
    let mut position = Position::new(Some(STARTING_FEN));
    let mut evaluator = Evaluator::new();
    evaluator.set_silent(true);
    let stop_flag = Arc::new(AtomicBool::new(false));
    let mut options = SearchOptions::new();
    options.wtime = Some(60000);
    options.winc = Some(1000);
    let _state = evaluator.start_search(&mut position, options, &stop_flag, None);
    // 60000 / 25 + 1000 / 2 = 2900, below a third of the time left; three times that is 8700.
    assert_eq!(evaluator.optimum_time, 2900);
    assert_eq!(evaluator.maximum_time, 8700);
}

#[test]
fn repetitions_are_counted() {
    let table: Vec<u64> = vec![5, 7, 5, 9, 5];
    assert_eq!(count_repetitions(&table, 5), 3);
    assert_eq!(count_repetitions(&table, 8), 0);
}

#[test]
fn positions_are_searchable() {
    assert!(Position::new(Some(STARTING_FEN)).is_searchable());
}

fn first_report_score(fen: &str) -> i32 {
    let mut position = Position::new(Some(fen));
    let mut evaluator = Evaluator::new();
    evaluator.set_silent(true);
    let tt = TranspositionTable::new(1);
    let stop_flag = Arc::new(AtomicBool::new(false));
    let mut options = SearchOptions::new();
    options.depth = Some(1);
    let mut state = evaluator.start_search(&mut position, options, &stop_flag, None);
    let report = evaluator.search_next(&mut position, &mut state, &tt).unwrap();
    evaluator.finish_search(&mut position, &state);
    report.score
}

#[test]
fn a_checkmated_side_scores_a_mate() {
    // The queen on g2, guarded by the king on g3, mates the king on h1.
    assert_eq!(first_report_score("8/8/8/8/8/6k1/6q1/7K w - - 0 1"), -49000);
}

#[test]
fn a_stalemated_side_scores_a_draw() {
    // The black king on h8 has no move and is not in check.
    assert_eq!(first_report_score("7k/5Q2/6K1/8/8/8/8/8 b - - 0 1"), 0);
}

#[test]
fn time_decisions() {
    assert!(within_time(999, 1000));
    assert!(!within_time(1000, 1000));
    assert!(within_time(5000, u32::MAX));
    assert!(past_half_time(501, 1000));
    assert!(!past_half_time(500, 1000));
}

#[test]
fn a_queen_taking_a_defended_pawn_loses_material() {
    // The pawn on d5 is defended by the pawn on c6: +100 for the pawn, -900 for the queen.
    let p = Position::new(Some("4k3/8/2p5/3p4/8/8/8/3QK3 w - - 0 1"));
    let mut m = BitPackedMove::new(59, 27, Piece::WhiteQueen);
    m.set_capture(Piece::BlackPawn);
    assert_eq!(static_exchange(&p, m), -800);
}
