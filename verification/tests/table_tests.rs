use chess_engine::input::{mouse_pos_to_coord, parse_input};
use chess_engine::stats::TranspositionTableStats;
use chess_engine::transposition_table::TranspositionTable;

#[test]
fn test_insert_then_get() {
    let mut t: TranspositionTable<u64> = TranspositionTable::new(16);
    assert_eq!(t.get(42), None);
    t.insert(42, 7);
    assert_eq!(t.get(42), Some(7));
    assert_eq!(t.used, 1);
    assert_eq!(t.collisions, 0);
}

#[test]
fn test_collision_evicts_without_wrong_result() {
    // 5 and 9 share the slot 1 of a 4-entry table. After the second
    // insert, a probe for the evicted fingerprint must miss; it must
    // never answer with the other position's entry.
    let mut t: TranspositionTable<u64> = TranspositionTable::new(4);
    t.insert(5, 100);
    assert_eq!(t.get(5), Some(100));
    t.insert(9, 200);
    assert_eq!(t.get(5), None);
    assert_eq!(t.get(9), Some(200));
    assert_eq!(t.collisions, 1);
    assert_eq!(t.used, 1);
}

#[test]
fn test_distinct_slots_coexist() {
    let mut t: TranspositionTable<u64> = TranspositionTable::new(4);
    t.insert(1, 10);
    t.insert(2, 20);
    assert_eq!(t.get(1), Some(10));
    assert_eq!(t.get(2), Some(20));
    assert_eq!(t.used, 2);
}

#[test]
fn test_transposition_stats_counters() {
    let mut s = TranspositionTableStats::new();
    s.hit();
    s.hit();
    s.collision();
    s.colisionless_insert();
    assert_eq!(s.hits, 2);
    assert_eq!(s.collisions, 1);
    assert_eq!(s.colisionless_insertions, 1);
}

#[test]
fn test_parse_input_accepts_board_squares() {
    assert_eq!(parse_input("3 4"), Some((3, 4)));
    assert_eq!(parse_input("  0\t7 "), Some((0, 7)));
}

#[test]
fn test_parse_input_rejects_bad_input() {
    assert_eq!(parse_input(""), None);
    assert_eq!(parse_input("8 0"), None);
    assert_eq!(parse_input("3"), None);
    assert_eq!(parse_input("a b"), None);
    assert_eq!(parse_input("-1 2"), None);
}

#[test]
fn test_mouse_pos_to_coord() {
    assert_eq!(mouse_pos_to_coord(2, 1), (0, 0));
    assert_eq!(mouse_pos_to_coord(23, 8), (7, 7));
}

#[test]
fn test_used_counter_only_on_fresh_slots() {
    let mut t: TranspositionTable<u64> = TranspositionTable::new(4);
    t.insert(3, 1);
    t.insert(3, 2);
    // Overwriting the same fingerprint reuses its slot: one slot in use,
    // one collision recorded.
    assert_eq!(t.used, 1);
    assert_eq!(t.collisions, 1);
    assert_eq!(t.get(3), Some(2));
}
