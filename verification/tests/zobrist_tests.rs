use chess_engine::basic::BasicBoard;
use chess_engine::chess_move::{Extra, Location, Move};
use chess_engine::piece::Piece;
use chess_engine::display::DisplayableBoard;
use chess_engine::pst::PSTBoard;
use chess_engine::random_play::RandomPlay;
use chess_engine::zobrist::{ZobristBoard, ZobristKeys};

fn start_board(keys: &ZobristKeys) -> ZobristBoard {
    ZobristBoard::new(PSTBoard::new(BasicBoard::default_board()), keys)
}

fn quiet(fx: i8, fy: i8, tx: i8, ty: i8) -> Move {
    Move::new(Location::new(fx, fy), Location::new(tx, ty), Extra::Quiet)
}

#[test]
fn test_switch_color_twice() {
    let keys = ZobristKeys::new(10);
    let hash = 0;
    let hash = keys.switch_color(hash);
    assert_ne!(0, hash);
    let hash = keys.switch_color(hash);
    assert_eq!(0, hash);
}

#[test]
fn test_hash_move_back() {
    let keys = ZobristKeys::new(10);
    let mut zboard = start_board(&keys);
    let initial_hash = zboard.hash;

    zboard = zboard.transition(quiet(1, 7, 0, 5), &keys);
    assert_ne!(initial_hash, zboard.hash);

    zboard = zboard.transition(quiet(1, 0, 0, 2), &keys);
    assert_ne!(initial_hash, zboard.hash);

    zboard = zboard.transition(quiet(0, 5, 1, 7), &keys);
    assert_ne!(initial_hash, zboard.hash);

    zboard = zboard.transition(quiet(0, 2, 1, 0), &keys);
    assert_eq!(initial_hash, zboard.hash);
}

#[test]
fn test_hash_two_boards() {
    // Two key tables drawn from the same seed are identical, so two fresh
    // starting positions fingerprint identically.
    let keys1 = ZobristKeys::new(10);
    let keys2 = ZobristKeys::new(10);
    let zboard1 = start_board(&keys1);
    let zboard2 = start_board(&keys2);

    assert_eq!(zboard1.hash, zboard2.hash);
    assert_ne!(zboard1.hash, 0);
}

#[test]
fn test_hash_fuzzer() {
    let keys = ZobristKeys::new(10);
    for _ in 0..10 {
        let mut board = DisplayableBoard::new(start_board(&keys));
        let random_player = RandomPlay::new();

        for _ in 0..100 {
            board = match random_player.make_move(&board, &keys) {
                Some(i) => i,
                None => break,
            }
        }

        let rebuilt = ZobristBoard::new(board.inner.inner.clone(), &keys);
        assert_eq!(board.inner.hash, rebuilt.hash);
    }
}

#[test]
fn test_move_piece_capture_keys() {
    // A capture XORs the moved piece out of its source and into its
    // destination, and the captured piece out of the destination where it
    // stood; repeating the update restores the hash.
    let keys = ZobristKeys::new(10);
    let from = Location::new(3, 3);
    let to = Location::new(3, 5);
    let h1 = keys.move_piece(0, Piece::WhiteRook, from, to, Piece::BlackPawn);
    assert_ne!(h1, 0);
    let h2 = keys.move_piece(h1, Piece::WhiteRook, from, to, Piece::BlackPawn);
    assert_eq!(h2, 0);
    // Without a capture only the moved piece's two squares contribute.
    let quiet = keys.move_piece(0, Piece::WhiteRook, from, to, Piece::Empty);
    assert_ne!(quiet, h1);
}
