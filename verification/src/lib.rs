//! A two-player chess engine: board representation, legal move generation
//! (castling, en passant, promotion), incremental material/positional
//! evaluation, an incremental Zobrist-style position fingerprint, a
//! fixed-capacity transposition table, and alpha-beta game-tree search with
//! quiescence extension and time-bounded iterative deepening.
//!
//! The board stack layers observers over the canonical `basic::BasicBoard`:
//! `pst::PSTBoard` keeps the heuristic score and `zobrist::ZobristBoard`
//! the fingerprint incrementally in sync with the squares, each proved
//! equal to a from-scratch recomputation; `display::DisplayableBoard` adds
//! presentation state. `movegen` and `piece_moves` generate legal moves
//! against the attack semantics of `king_check`; the searchers in
//! `minimax`, `alpha_beta`, `alpha_beta_transp`, `quiescence` and the two
//! iterative-deepening modules walk the tree. The pruning law — alpha-beta
//! answers exactly what full minimax answers — is proved both over
//! explicit game trees in `search_tree` and for the board search itself in
//! `alpha_beta`, against the position-level value in `minimax`. The
//! capture-only extension is held to a capture-restricted position value
//! in `quiescence`, the deadline-checked searchers flag any timed-out
//! result and otherwise carry the same fail-soft guarantees, and the
//! table-assisted searcher records in ghost state which position each
//! cached entry was computed for, so its soundness is stated despite
//! fingerprint collisions.

pub mod color;
pub mod piece;
pub mod chess_move;
pub mod sums;
pub mod basic;
pub mod pst;
pub mod rng;
pub mod zobrist;
pub mod king_check;
pub mod piece_moves;
pub mod movegen;
pub mod transposition_table;
pub mod move_order;
pub mod score;
pub mod display;
pub mod minimax;
pub mod alpha_beta;
pub mod alpha_beta_transp;
pub mod clock;
pub mod quiescence;
pub mod iterative_deepening;
pub mod id_quiescence;
pub mod random_play;
pub mod stats;
pub mod input;
pub mod search_tree;
