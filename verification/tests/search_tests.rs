use chess_engine::alpha_beta::AlphaBeta;
use chess_engine::alpha_beta_transp::AlphaBetaTransp;
use chess_engine::basic::BasicBoard;
use chess_engine::chess_move::Location;
use chess_engine::color::Color;
use chess_engine::display::DisplayableBoard;
use chess_engine::minimax::Minimax;
use chess_engine::movegen::terminal_outcome;
use chess_engine::piece::Piece;
use chess_engine::pst::PSTBoard;
use chess_engine::score::SCORE_INF;
use chess_engine::id_quiescence::IDQuiescence;
use chess_engine::iterative_deepening::IterativeDeepening;
use chess_engine::quiescence::Quiescence;
use chess_engine::random_play::RandomPlay;
use chess_engine::search_tree::{tree_minimax, tree_search, SearchTree};
use chess_engine::zobrist::{ZobristBoard, ZobristKeys};

fn small_position(keys: &ZobristKeys) -> ZobristBoard {
    // A constrained position with few pieces: two kings and a white rook.
    let mut b = BasicBoard::new(1000);
    b.set_piece(Location::new(0, 7), Piece::WhiteKing);
    b.set_piece(Location::new(7, 0), Piece::BlackKing);
    b.set_piece(Location::new(3, 3), Piece::WhiteRook);
    ZobristBoard::new(PSTBoard::new(b), keys)
}

#[test]
fn test_alpha_beta_equals_minimax_on_position() {
    let keys = ZobristKeys::new(10);
    let zb = small_position(&keys);
    for depth in 0..3 {
        let plain = Minimax::mini_max(&zb, depth, &keys);
        let pruned = AlphaBeta::mini_max_ab(&zb, depth, -SCORE_INF - 1, SCORE_INF + 1, &keys);
        assert_eq!(plain, pruned);
    }
}

#[test]
fn test_alpha_beta_transp_equals_minimax_on_position() {
    let keys = ZobristKeys::new(10);
    let zb = small_position(&keys);
    let plain = Minimax::mini_max(&zb, 2, &keys);
    let mut searcher = AlphaBetaTransp::new(2, 1024);
    let cached = searcher.mini_max_ab(&zb, 2, -SCORE_INF - 1, SCORE_INF + 1, &keys).0;
    assert_eq!(plain, cached);
}

#[test]
fn test_tree_alpha_beta_equals_minimax() {
    // max( min(3, 5), min(2, 9) ) == 3
    let t = SearchTree::Node(
        true,
        vec![
            SearchTree::Node(false, vec![SearchTree::Leaf(3), SearchTree::Leaf(5)]),
            SearchTree::Node(false, vec![SearchTree::Leaf(2), SearchTree::Leaf(9)]),
        ],
    );
    assert_eq!(tree_minimax(&t), 3);
    assert_eq!(tree_search(&t), 3);
}

#[test]
fn test_tree_empty_node_is_decided() {
    let t = SearchTree::Node(true, vec![]);
    assert_eq!(tree_minimax(&t), -SCORE_INF);
    assert_eq!(tree_search(&t), -SCORE_INF);
}

#[test]
fn test_terminal_outcome_classification() {
    assert_eq!(terminal_outcome(Color::White, 5, true), None);
    assert_eq!(terminal_outcome(Color::White, 0, true), Some(Color::Black));
    assert_eq!(terminal_outcome(Color::Black, 0, true), Some(Color::White));
    assert_eq!(terminal_outcome(Color::White, 0, false), Some(Color::EmptyColor));
}

#[test]
fn test_make_move_none_when_no_moves() {
    // The checkmate corner: the side to move has nothing to play.
    let keys = ZobristKeys::new(10);
    let mut b = BasicBoard::new(1000);
    b.set_piece(Location::new(0, 0), Piece::BlackKing);
    b.set_piece(Location::new(1, 1), Piece::WhiteQueen);
    b.set_piece(Location::new(2, 2), Piece::WhiteKing);
    b.set_current(Color::Black);
    let board = DisplayableBoard::new(ZobristBoard::new(PSTBoard::new(b), &keys));
    let solver = AlphaBeta::new(2);
    assert!(solver.make_move(&board, &keys).is_none());
}

#[test]
fn test_make_move_plays_a_legal_move() {
    let keys = ZobristKeys::new(10);
    let board = DisplayableBoard::new(ZobristBoard::new(
        PSTBoard::new(BasicBoard::default_board()),
        &keys,
    ));
    let solver = AlphaBeta::new(1);
    let next = solver.make_move(&board, &keys).expect("the start position has moves");
    assert_eq!(next.current_player(), Color::Black);
    // A ply was played and the fingerprint moved with it.
    assert_ne!(next.hash(), board.hash());
}

#[test]
fn test_search_prefers_winning_capture() {
    // White to move can take the black queen with the rook.
    let keys = ZobristKeys::new(10);
    let mut b = BasicBoard::new(1000);
    b.set_piece(Location::new(0, 7), Piece::WhiteKing);
    b.set_piece(Location::new(7, 0), Piece::BlackKing);
    b.set_piece(Location::new(3, 3), Piece::WhiteRook);
    b.set_piece(Location::new(3, 6), Piece::BlackQueen);
    let board = DisplayableBoard::new(ZobristBoard::new(PSTBoard::new(b), &keys));
    let solver = AlphaBeta::new(2);
    let next = solver.make_move(&board, &keys).expect("moves exist");
    assert_eq!(next.piece_at(Location::new(3, 6)), Piece::WhiteRook);
}

#[test]
fn test_random_play_makes_a_move() {
    let keys = ZobristKeys::new(10);
    let board = DisplayableBoard::new(ZobristBoard::new(
        PSTBoard::new(BasicBoard::default_board()),
        &keys,
    ));
    let player = RandomPlay::new();
    let next = player.make_move(&board, &keys).expect("the start position has moves");
    assert_eq!(next.current_player(), Color::Black);
}

#[test]
fn test_iterative_deepening_falls_back_on_empty_budget() {
    let keys = ZobristKeys::new(10);
    let mut basic = BasicBoard::default_board();
    // A spent clock leaves no search budget: the fallback random legal
    // move must still be played.
    basic.set_clock(0);
    let board = DisplayableBoard::new(ZobristBoard::new(PSTBoard::new(basic), &keys));
    let solver = IterativeDeepening::new();
    let next = solver.make_move(&board, &keys).expect("a legal move exists");
    assert_eq!(next.current_player(), Color::Black);
}

#[test]
fn test_quiescence_prefers_winning_capture() {
    let keys = ZobristKeys::new(10);
    let mut b = BasicBoard::new(1000);
    b.set_piece(Location::new(0, 7), Piece::WhiteKing);
    b.set_piece(Location::new(7, 0), Piece::BlackKing);
    b.set_piece(Location::new(3, 3), Piece::WhiteRook);
    b.set_piece(Location::new(3, 6), Piece::BlackQueen);
    let board = DisplayableBoard::new(ZobristBoard::new(PSTBoard::new(b), &keys));
    let solver = Quiescence::new(2);
    let next = solver.make_move(&board, &keys).expect("moves exist");
    assert_eq!(next.piece_at(Location::new(3, 6)), Piece::WhiteRook);
}

#[test]
fn test_id_quiescence_falls_back_on_empty_budget() {
    let keys = ZobristKeys::new(10);
    let mut basic = BasicBoard::default_board();
    basic.set_clock(0);
    let board = DisplayableBoard::new(ZobristBoard::new(PSTBoard::new(basic), &keys));
    let solver = IDQuiescence::new();
    let next = solver.make_move(&board, &keys).expect("a legal move exists");
    assert_eq!(next.current_player(), Color::Black);
}

#[test]
fn test_alpha_beta_window_answers_exactly_at_the_edge() {
    // With alpha pinned at the true value, the integer window leaves the
    // search no room: a fail-low result must still bound the true value,
    // which forces the exact answer back.
    let keys = ZobristKeys::new(10);
    let zb = small_position(&keys);
    let v = Minimax::mini_max(&zb, 2, &keys);
    let r = AlphaBeta::mini_max_ab(&zb, 2, v, v + 1, &keys);
    assert_eq!(r, v);
}

#[test]
fn test_deadline_search_matches_alpha_beta_when_not_timed() {
    // With an unreachable deadline the deadline-checked search never times
    // out, and its flagged result equals the plain alpha-beta answer.
    let keys = ZobristKeys::new(10);
    let zb = small_position(&keys);
    for depth in 0..3 {
        let plain = AlphaBeta::mini_max_ab(&zb, depth, -SCORE_INF - 1, SCORE_INF + 1, &keys);
        let (val, timed) = IterativeDeepening::mini_max_ab(
            &zb,
            depth,
            -SCORE_INF - 1,
            SCORE_INF + 1,
            u64::MAX,
            &keys,
        );
        assert!(!timed);
        assert_eq!(plain, val);
    }
}

#[test]
fn test_quiescence_stands_pat_without_captures() {
    // The starting position offers no capture, so the capture-only
    // extension answers the raw heuristic under a wide window.
    let keys = ZobristKeys::new(10);
    let zb = ZobristBoard::new(PSTBoard::new(BasicBoard::default_board()), &keys);
    let stand = zb.heuristic() as i64;
    let r = Quiescence::quiescense(&zb, -SCORE_INF - 1, SCORE_INF + 1, &keys);
    assert_eq!(r, stand);
    let (rq, timed) = IDQuiescence::quiescense(&zb, -SCORE_INF - 1, SCORE_INF + 1, u64::MAX, &keys);
    assert!(!timed);
    assert_eq!(rq, stand);
}
