use chess_engine::basic::BasicBoard;
use chess_engine::chess_move::Location;
use chess_engine::display::DisplayableBoard;
use chess_engine::piece::Piece;
use chess_engine::pst::{pos_score, PSTBoard};
use chess_engine::random_play::RandomPlay;
use chess_engine::zobrist::{ZobristBoard, ZobristKeys};

#[test]
fn test_heuristic_fuzzer() {
    let keys = ZobristKeys::new(10);
    for _ in 0..1000 {
        let mut board = DisplayableBoard::new(ZobristBoard::new(
            PSTBoard::new(BasicBoard::default_board()),
            &keys,
        ));
        let random_player = RandomPlay::new();

        for _ in 0..50 {
            board = match random_player.make_move(&board, &keys) {
                Some(i) => i,
                None => break,
            }
        }

        let rebuilt = PSTBoard::new(board.inner.inner.inner.clone());
        assert_eq!(board.inner.inner.heuristic_value, rebuilt.heuristic_value);
    }
}

#[test]
fn test_pos_score_values() {
    // The pawn table rewards the center advance for White...
    assert_eq!(pos_score(Piece::WhitePawn, Location::new(3, 4)), 20);
    // ...and mirrors it, negated, for Black.
    assert_eq!(pos_score(Piece::BlackPawn, Location::new(3, 3)), -20);
    // A knight in the corner is penalized either way.
    assert_eq!(pos_score(Piece::WhiteKnight, Location::new(0, 0)), -50);
    assert_eq!(pos_score(Piece::BlackKnight, Location::new(0, 0)), 50);
    // Empty squares contribute nothing.
    assert_eq!(pos_score(Piece::Empty, Location::new(4, 4)), 0);
}

#[test]
fn test_material_worth_values() {
    assert_eq!(Piece::BlackQueen.material_worth(), 900);
    assert_eq!(Piece::WhiteQueen.material_worth(), -900);
    assert_eq!(Piece::Empty.material_worth(), 0);
    assert_eq!(Piece::WhitePawn.material_worth(), -100);
}

#[test]
fn test_start_position_is_balanced() {
    // The starting arrangement is symmetric: material and positional
    // bonuses cancel exactly.
    let pst = PSTBoard::new(BasicBoard::default_board());
    assert_eq!(pst.heuristic_value, 0);
    assert_eq!(pst.inner.get_material_score(), 0);
}

#[test]
fn test_capture_changes_material() {
    let mut b = BasicBoard::new(1000);
    b.set_piece(Location::new(0, 0), Piece::WhiteKing);
    b.set_piece(Location::new(7, 7), Piece::BlackKing);
    b.set_piece(Location::new(3, 3), Piece::WhiteRook);
    b.set_piece(Location::new(3, 5), Piece::BlackPawn);
    // White is up a rook against a pawn.
    assert_eq!(b.get_material_score(), 500 - 100);
    let m = chess_engine::chess_move::Move::new(
        Location::new(3, 3),
        Location::new(3, 5),
        chess_engine::chess_move::Extra::Captures,
    );
    let after = b.transition(m);
    // The pawn is gone; the score is a clean rook.
    assert_eq!(after.get_material_score(), 500);
    assert_eq!(after.piece_at(Location::new(3, 5)), Piece::WhiteRook);
    assert_eq!(after.piece_at(Location::new(3, 3)), Piece::Empty);
}
