use chess_engine::basic::BasicBoard;
use chess_engine::chess_move::{Extra, Location, Move};
use chess_engine::color::Color;
use chess_engine::display::DisplayableBoard;
use chess_engine::piece::Piece;
use chess_engine::pst::PSTBoard;
use chess_engine::zobrist::{ZobristBoard, ZobristKeys};

fn kings_at_corners(b: &mut BasicBoard) {
    b.set_piece(Location::new(0, 7), Piece::WhiteKing);
    b.set_piece(Location::new(7, 0), Piece::BlackKing);
}

fn contains_extra(moves: &Vec<Move>, extra: Extra) -> bool {
    moves.iter().any(|m| m.extra == extra)
}

#[test]
fn test_double_push_opens_en_passant_window() {
    let mut b = BasicBoard::new(1000);
    kings_at_corners(&mut b);
    b.set_piece(Location::new(4, 6), Piece::WhitePawn);
    b.set_piece(Location::new(3, 4), Piece::BlackPawn);
    assert_eq!(b.get_en_passant(), 8);

    let push = Move::new(Location::new(4, 6), Location::new(4, 4), Extra::DoublePawn);
    let after = b.transition(push);
    // The double push opens the file for exactly one ply.
    assert_eq!(after.get_en_passant(), 4);
    assert_eq!(after.current_player(), Color::Black);

    // The adjacent black pawn may capture en passant right now.
    let moves = after.moves(Location::new(3, 4));
    assert!(contains_extra(&moves, Extra::EnPassantCaptures));

    // Playing the capture removes the bypassed pawn, not the landing square.
    let ep = Move::new(Location::new(3, 4), Location::new(4, 5), Extra::EnPassantCaptures);
    let taken = after.transition(ep);
    assert_eq!(taken.piece_at(Location::new(4, 4)), Piece::Empty);
    assert_eq!(taken.piece_at(Location::new(4, 5)), Piece::BlackPawn);
}

#[test]
fn test_en_passant_window_closes_after_any_other_move() {
    let mut b = BasicBoard::new(1000);
    kings_at_corners(&mut b);
    b.set_piece(Location::new(4, 6), Piece::WhitePawn);
    b.set_piece(Location::new(3, 4), Piece::BlackPawn);

    let push = Move::new(Location::new(4, 6), Location::new(4, 4), Extra::DoublePawn);
    let after = b.transition(push);
    assert_eq!(after.get_en_passant(), 4);

    // Black plays something else; the window must close.
    let king_step = Move::new(Location::new(7, 0), Location::new(7, 1), Extra::Quiet);
    let b2 = after.transition(king_step);
    assert_eq!(b2.get_en_passant(), 8);

    // White answers; with the file reset the capture is no longer offered.
    let white_step = Move::new(Location::new(0, 7), Location::new(0, 6), Extra::Quiet);
    let b3 = b2.transition(white_step);
    assert_eq!(b3.get_en_passant(), 8);
    let moves = b3.moves(Location::new(3, 4));
    assert!(!contains_extra(&moves, Extra::EnPassantCaptures));
}

fn castle_setup() -> BasicBoard {
    // White king and king-side rook on their home squares, nothing between.
    let mut b = BasicBoard::new(1000);
    b.set_piece(Location::new(4, 7), Piece::WhiteKing);
    b.set_piece(Location::new(7, 7), Piece::WhiteRook);
    b.set_piece(Location::new(7, 0), Piece::BlackKing);
    b
}

#[test]
fn test_castling_offered_when_conditions_hold() {
    let b = castle_setup();
    let moves = b.moves(Location::new(4, 7));
    assert!(contains_extra(&moves, Extra::KingCastle));

    // And the castle relocates the rook as its secondary move.
    let castle = Move::new(Location::new(4, 7), Location::new(6, 7), Extra::KingCastle);
    let after = b.transition(castle);
    assert_eq!(after.piece_at(Location::new(6, 7)), Piece::WhiteKing);
    assert_eq!(after.piece_at(Location::new(5, 7)), Piece::WhiteRook);
    assert_eq!(after.piece_at(Location::new(7, 7)), Piece::Empty);
    assert_eq!(after.piece_at(Location::new(4, 7)), Piece::Empty);
    // Castling consumes the rights.
    let rights = after.get_castling_rights();
    assert!(!rights[2] && !rights[3]);
}

#[test]
fn test_castling_rejected_when_passage_attacked() {
    let mut b = castle_setup();
    // A black rook eyes the square the king would pass through.
    b.set_piece(Location::new(5, 0), Piece::BlackRook);
    let moves = b.moves(Location::new(4, 7));
    assert!(!contains_extra(&moves, Extra::KingCastle));
}

#[test]
fn test_castling_rejected_when_rights_cleared() {
    let mut b = castle_setup();
    b.set_castling_right(3, false);
    let moves = b.moves(Location::new(4, 7));
    assert!(!contains_extra(&moves, Extra::KingCastle));
}

#[test]
fn test_castling_rejected_when_square_occupied() {
    let mut b = castle_setup();
    b.set_piece(Location::new(6, 7), Piece::WhiteKnight);
    let moves = b.moves(Location::new(4, 7));
    assert!(!contains_extra(&moves, Extra::KingCastle));
}

#[test]
fn test_terminal_checkmate() {
    // Black king cornered by a protected queen: checkmate, White wins.
    let mut b = BasicBoard::new(1000);
    b.set_piece(Location::new(0, 0), Piece::BlackKing);
    b.set_piece(Location::new(1, 1), Piece::WhiteQueen);
    b.set_piece(Location::new(2, 2), Piece::WhiteKing);
    b.set_current(Color::Black);
    assert_eq!(b.is_terminal(), Some(Color::White));
}

#[test]
fn test_terminal_stalemate() {
    // Black king cornered but not in check, with no legal move: a draw.
    let mut b = BasicBoard::new(1000);
    b.set_piece(Location::new(0, 0), Piece::BlackKing);
    b.set_piece(Location::new(2, 1), Piece::WhiteQueen);
    b.set_piece(Location::new(7, 7), Piece::WhiteKing);
    b.set_current(Color::Black);
    assert_eq!(b.is_terminal(), Some(Color::EmptyColor));
}

#[test]
fn test_terminal_ongoing() {
    let b = BasicBoard::default_board();
    assert_eq!(b.is_terminal(), None);
}

#[test]
fn test_promotion_substitutes_piece() {
    let mut b = BasicBoard::new(1000);
    kings_at_corners(&mut b);
    b.set_piece(Location::new(3, 1), Piece::WhitePawn);
    let promote = Move::new(Location::new(3, 1), Location::new(3, 0), Extra::QueenPromotion);
    let after = b.transition(promote);
    assert_eq!(after.piece_at(Location::new(3, 0)), Piece::WhiteQueen);
    assert_eq!(after.piece_at(Location::new(3, 1)), Piece::Empty);
    // The score reflects a queen where a pawn stood.
    assert_eq!(after.get_material_score(), 900 - 100 + 100);
}

#[test]
fn test_decrement_clock() {
    let keys = ZobristKeys::new(10);
    let mut basic = BasicBoard::default_board();
    basic.set_clock(2);
    let mut board = DisplayableBoard::new(ZobristBoard::new(PSTBoard::new(basic), &keys));
    assert_eq!(board.get_clock(), [2000, 2000]);
    board.decrement_clock(Color::White, 500);
    assert_eq!(board.get_clock(), [1500, 2000]);
    // The clock saturates at zero rather than wrapping.
    board.decrement_clock(Color::Black, 5000);
    assert_eq!(board.get_clock(), [1500, 0]);
}

#[test]
fn test_transition_reports_exactly_the_touched_squares() {
    // A quiet pawn push emits exactly two changes, in write order: the
    // destination gains the pawn, then the source is emptied.
    let b = BasicBoard::default_board();
    let push = Move::new(Location::new(4, 6), Location::new(4, 5), Extra::Quiet);
    let (after, changes) = b.transition_with_changes(push);
    assert_eq!(changes.len(), 2);
    assert_eq!(changes[0].index, 5 * 8 + 4);
    assert_eq!(changes[0].was, Piece::Empty);
    assert_eq!(changes[0].now, Piece::WhitePawn);
    assert_eq!(changes[1].index, 6 * 8 + 4);
    assert_eq!(changes[1].was, Piece::WhitePawn);
    assert_eq!(changes[1].now, Piece::Empty);
    assert_eq!(after.piece_at(Location::new(4, 5)), Piece::WhitePawn);
    assert_eq!(after.piece_at(Location::new(4, 6)), Piece::Empty);
}
