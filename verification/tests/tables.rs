use redtail::board::Position;
use redtail::chess::_move::BitPackedMove;
use redtail::chess::constants::STARTING_FEN;
use redtail::chess::piece::Piece;
use redtail::pv::PrincipalVariationTable;
use redtail::search::evaluate::PVTable;
use redtail::search::utils::parse_move;
use redtail::tt::{TranspositionTable, TranspositionTableEntry, TranspositionTableEntryFlag};

#[test]
fn table_size_follows_the_megabytes() {
    let tt = TranspositionTable::new(1);
    assert_eq!(tt.hash_size, 1048576 / 24);
    let empty = TranspositionTable::new(0);
    assert_eq!(empty.slot_count(), 0);
}

#[test]
fn saved_entry_is_read_back() {
    let tt = TranspositionTable::new(1);
    let m = BitPackedMove::new(52, 36, Piece::WhitePawn);
    tt.save(12345, 5, TranspositionTableEntryFlag::EXACT, 123, m);
    let e = tt.get(12345).unwrap();
    assert_eq!(e.get_value(), 123);
    assert_eq!(e.get_depth(), 5);
    assert!(e.get_flag() == TranspositionTableEntryFlag::EXACT);
    assert_eq!(e.get_move(), m);
    assert!(e.is_valid());
    assert_eq!(tt.filled(), 1);
    assert!(tt.get(54321).is_none());
}

#[test]
fn negative_scores_and_bounds_round_trip() {
    let tt = TranspositionTable::new(1);
    let m = BitPackedMove::new(6, 21, Piece::BlackKnight);
    tt.save(777, 9, TranspositionTableEntryFlag::ALPHA, -49000, m);
    let e = tt.get(777).unwrap();
    assert_eq!(e.get_value(), -49000);
    assert!(e.get_flag() == TranspositionTableEntryFlag::ALPHA);
    assert_eq!(e.get_move(), m);
}

#[test]
fn probe_returns_only_usable_entries() {
    let tt = TranspositionTable::new(1);
    let m = BitPackedMove::new(52, 36, Piece::WhitePawn);
    tt.save(99, 4, TranspositionTableEntryFlag::BETA, 300, m);
    // A lower bound of 300 cuts a window whose beta is at most 300.
    assert!(tt.probe_entry(99, 4, 0, 300).is_valid());
    assert!(tt.probe_entry(99, 3, 0, 200).is_valid());
    // Not when beta is above it, nor when searched too shallow.
    assert!(!tt.probe_entry(99, 4, 0, 301).is_valid());
    assert!(!tt.probe_entry(99, 5, 0, 200).is_valid());
}

#[test]
fn a_save_overwrites_the_entry_already_there() {
    let tt = TranspositionTable::new(1);
    let a = BitPackedMove::new(52, 36, Piece::WhitePawn);
    let b = BitPackedMove::new(51, 35, Piece::WhitePawn);
    tt.save(12345, 5, TranspositionTableEntryFlag::EXACT, 10, a);
    tt.save(12345, 3, TranspositionTableEntryFlag::EXACT, 20, b);
    let e = tt.get(12345).unwrap();
    assert_eq!(e.get_value(), 20);
    assert_eq!(e.get_depth(), 3);
    assert!(e.get_move() == b);
    assert_eq!(tt.filled(), 1);
}

#[test]
fn cleared_table_finds_nothing() {
    let tt = TranspositionTable::new(1);
    let m = BitPackedMove::new(52, 36, Piece::WhitePawn);
    tt.save(12345, 5, TranspositionTableEntryFlag::EXACT, 123, m);
    tt.clear();
    assert!(tt.get(12345).is_none());
    assert_eq!(tt.filled(), 0);
}

#[test]
fn flags_from_numbers() {
    assert!(TranspositionTableEntryFlag::from_u8(0) == TranspositionTableEntryFlag::EXACT);
    assert!(TranspositionTableEntryFlag::from_u8(1) == TranspositionTableEntryFlag::BETA);
    assert!(TranspositionTableEntryFlag::from_u8(2) == TranspositionTableEntryFlag::ALPHA);
    assert!(TranspositionTableEntryFlag::from_u8(3) == TranspositionTableEntryFlag::NULL);
    assert!(!TranspositionTableEntry::new().is_valid());
}

#[test]
fn stored_line_is_read_and_the_position_restored() {
    let tt = TranspositionTable::new(1);
    let mut position = Position::new(Some(STARTING_FEN));
    let e2e4 = parse_move(&mut position, "e2e4").unwrap();
    tt.save(position.hash, 3, TranspositionTableEntryFlag::EXACT, 20, e2e4);
    let hash = position.hash;
    let line = tt.get_pv_line(&mut position);
    assert_eq!(line.len(), 1);
    assert_eq!(line[0].get_move(), e2e4);
    assert_eq!(position.hash, hash);
    assert_eq!(position.depth, 0);
}

#[test]
fn triangular_table_prepends_the_move_to_the_next_line() {
    let mut pv = PVTable::new();
    let m0 = BitPackedMove::new(52, 36, Piece::WhitePawn);
    let m1 = BitPackedMove::new(12, 28, Piece::BlackPawn);
    pv.update(1, m1);
    pv.update(0, m0);
    assert_eq!(pv.get_pv(), vec![m0, m1]);
    pv.clear_at(0);
    assert_eq!(pv.get_pv(), Vec::<BitPackedMove>::new());
    pv.update(63, m1);
    pv.update(70, m0);
}

#[test]
fn principal_variation_table_stores_and_probes() {
    let mut table = PrincipalVariationTable::new();
    let m = BitPackedMove::new(52, 36, Piece::WhitePawn);
    table.store(42, m);
    assert_eq!(table.probe(42), Some(m));
    assert_eq!(table.probe(43), None);
    // Another hash in the same slot takes it over.
    table.store(42 + 0x400000, m);
    assert_eq!(table.probe(42), None);
    table.clear();
    assert_eq!(table.probe(42 + 0x400000), None);
}

#[test]
fn principal_variation_line_follows_legal_moves() {
    let mut table = PrincipalVariationTable::new();
    let mut position = Position::new(Some(STARTING_FEN));
    let e2e4 = parse_move(&mut position, "e2e4").unwrap();
    table.store(position.hash, e2e4);
    let line = table.get_pv_line(&mut position);
    assert_eq!(line, vec![e2e4]);
    assert_eq!(position.depth, 0);
}

#[test]
fn a_table_of_one_megabyte_has_its_slots() {
    let tt = TranspositionTable::new(1);
    assert_eq!(tt.slot_count(), tt.hash_size);
    assert!(tt.slot_count() >= 1);
}
