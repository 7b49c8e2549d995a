//! Zobrist-style position fingerprints: one pseudo-random 64-bit key per
//! (square, piece) pair, per castling-rights flag, per en-passant file, and
//! one for the side to move. A position's fingerprint is the XOR of the keys
//! active in it, and a board layer maintains the fingerprint incrementally
//! across transitions, proved equal to the from-scratch recomputation.

use vstd::prelude::*;
use crate::color::Color;
use crate::piece::Piece;
use crate::chess_move::{Location, Move};
use crate::basic::{
    BoardView, SquareChange, apply_changes, changes_ok, lemma_apply_changes_len,
    lemma_changes_ok_prefix, lemma_apply_changes_take_step,
};
use crate::pst::PSTBoard;
use crate::sums::{xor_squares, lemma_xor_update, lemma_xor_take_step};
use crate::rng::{rng_stream, sample_u64s};

verus! {

pub proof fn lemma_xor_zero(a: u64)
    ensures
        a ^ 0 == a,
        0 ^ a == a,
{
    assert(a ^ 0 == a && 0 ^ a == a) by (bit_vector);
}

pub proof fn lemma_xor_self(a: u64)
    ensures
        a ^ a == 0,
{
    assert(a ^ a == 0) by (bit_vector);
}

/// The bytes the key generator is seeded with: the seed's eight big-endian
/// bytes, repeated four times.
pub open spec fn seed_bytes(seed: u64) -> Seq<u8> {
    Seq::new(32, |i: int| ((seed >> ((7 - (i % 8)) * 8)) & 0xff) as u8)
}

/// The fixed table of independent pseudo-random 64-bit keys that all
/// fingerprints are built from. Generated deterministically from a seed,
/// so every table built from the same seed is identical.
pub struct ZobristKeys {
    pub pieces: Vec<u64>,
    pub color: u64,
    pub castling: Vec<u64>,
    pub en_passant: Vec<u64>,
}

impl ZobristKeys {
    pub open spec fn wf(self) -> bool {
        &&& self.pieces@.len() == 768
        &&& self.castling@.len() == 4
        &&& self.en_passant@.len() == 8
    }

    /// The key a piece on a square contributes; an empty square
    /// contributes nothing.
    pub open spec fn piece_key(self, i: int, p: Piece) -> u64 {
        if p == Piece::Empty {
            0u64
        } else {
            self.pieces@[i * 12 + p.number_spec()]
        }
    }

    pub open spec fn square_keys(self) -> spec_fn(int, Piece) -> u64 {
        |i: int, p: Piece| self.piece_key(i, p)
    }

    /// The combined contribution of the active castling-rights flags.
    pub open spec fn castle_mask(self, rights: Seq<bool>) -> u64 {
        let t0 = if rights[0] {
            self.castling@[0]
        } else {
            0u64
        };
        let t1 = if rights[1] {
            self.castling@[1]
        } else {
            0u64
        };
        let t2 = if rights[2] {
            self.castling@[2]
        } else {
            0u64
        };
        let t3 = if rights[3] {
            self.castling@[3]
        } else {
            0u64
        };
        ((t0 ^ t1) ^ t2) ^ t3
    }

    /// The contribution of the active en-passant file, if any.
    pub open spec fn ep_mask(self, ep: int) -> u64 {
        if 0 <= ep < 8 {
            self.en_passant@[ep]
        } else {
            0u64
        }
    }

    /// The side-to-move contribution: the color key when Black moves.
    pub open spec fn color_term(self, c: Color) -> u64 {
        if c == Color::Black {
            self.color
        } else {
            0u64
        }
    }

    /// The from-scratch fingerprint of a position: the XOR of the keys of
    /// every occupied square, the side to move, the active castling rights
    /// and the active en-passant file. Two equal positions always have
    /// equal fingerprints.
    pub open spec fn hash_of(self, v: BoardView) -> u64 {
        ((xor_squares(v.squares, self.square_keys()) ^ self.color_term(v.current)) ^ self.castle_mask(
            v.rights,
        )) ^ self.ep_mask(v.en_passant)
    }

    /// Draws the whole key table from the deterministic generator. Every
    /// key is pinned to the seed-determined draw stream, so two tables
    /// built from the same seed are equal, key for key.
    pub fn new(seed: usize) -> (r: ZobristKeys)
        ensures
            r.wf(),
            forall|j: int| 0 <= j < 768 ==> r.pieces@[j] == rng_stream(seed_bytes(seed as u64))[j],
            r.color == rng_stream(seed_bytes(seed as u64))[768],
            forall|j: int|
                0 <= j < 4 ==> r.castling@[j] == rng_stream(seed_bytes(seed as u64))[769 + j],
            forall|j: int|
                0 <= j < 8 ==> r.en_passant@[j] == rng_stream(seed_bytes(seed as u64))[773 + j],
    {
        let seed64 = seed as u64;
        let mut bytes = [0u8; 32];
        let mut i: usize = 0;
        while i < 32
            invariant
                i <= 32,
                forall|j: int| 0 <= j < i ==> bytes@[j] == seed_bytes(seed64)[j],
            decreases 32 - i,
        {
            let shift: u64 = ((7 - (i % 8)) * 8) as u64;
            let b = ((seed64 >> shift) & 0xff) as u8;
            bytes.set(i, b);
            i += 1;
        }
        assert(bytes@ =~= seed_bytes(seed64));
        let draws = sample_u64s(&bytes, 781);

        let mut pieces: Vec<u64> = Vec::new();
        let mut j: usize = 0;
        while j < 768
            invariant
                j <= 768,
                draws@.len() == 781,
                forall|t: int| 0 <= t < 781 ==> draws@[t] == rng_stream(seed_bytes(seed64))[t],
                pieces@.len() == j,
                forall|t: int| 0 <= t < j ==> pieces@[t] == rng_stream(seed_bytes(seed64))[t],
            decreases 768 - j,
        {
            pieces.push(draws[j]);
            j += 1;
        }
        let color = draws[768];
        let mut castling: Vec<u64> = Vec::new();
        castling.push(draws[769]);
        castling.push(draws[770]);
        castling.push(draws[771]);
        castling.push(draws[772]);
        let mut en_passant: Vec<u64> = Vec::new();
        let mut j: usize = 0;
        while j < 8
            invariant
                j <= 8,
                draws@.len() == 781,
                forall|t: int| 0 <= t < 781 ==> draws@[t] == rng_stream(seed_bytes(seed64))[t],
                en_passant@.len() == j,
                forall|t: int|
                    0 <= t < j ==> en_passant@[t] == rng_stream(seed_bytes(seed64))[773 + t],
            decreases 8 - j,
        {
            en_passant.push(draws[773 + j]);
            j += 1;
        }
        ZobristKeys { pieces, color, castling, en_passant }
    }

    /// The key of a piece on the square with the given row-major index.
    fn key_at(&self, i: usize, p: Piece) -> (r: u64)
        requires
            self.wf(),
            i < 64,
        ensures
            r == self.piece_key(i as int, p),
    {
        if p.is_empty() {
            0
        } else {
            self.pieces[i * 12 + p.to_number()]
        }
    }

    /// XORs a moved piece's key out of its source square and into its
    /// destination square, and a captured piece's key out of the
    /// destination square where it stood; empty pieces contribute nothing,
    /// and applying the same update twice restores the hash.
    pub fn move_piece(&self, hash: u64, piece_type: Piece, from: Location, to: Location, replaces: Piece) -> (r: u64)
        requires
            self.wf(),
            from.wf(),
            to.wf(),
        ensures
            r == ((hash ^ self.piece_key(from.index(), piece_type)) ^ self.piece_key(
                to.index(),
                piece_type,
            )) ^ self.piece_key(to.index(), replaces),
    {
        let from_idx = (from.y as usize) * 8 + (from.x as usize);
        let to_idx = (to.y as usize) * 8 + (to.x as usize);
        let mut h = hash;
        proof {
            lemma_xor_zero(h ^ self.piece_key(from.index(), piece_type));
            lemma_xor_zero(h);
        }
        if !piece_type.is_empty() {
            h = h ^ self.key_at(from_idx, piece_type);
            h = h ^ self.key_at(to_idx, piece_type);
        }
        proof {
            lemma_xor_zero(h);
        }
        if !replaces.is_empty() {
            h = h ^ self.key_at(to_idx, replaces);
        }
        h
    }

    /// XORs in the keys of the set flags.
    pub fn apply_castling(&self, hash: u64, apply: [bool; 4]) -> (r: u64)
        requires
            self.wf(),
        ensures
            r == hash ^ self.castle_mask(apply@),
    {
        let mut h = hash;
        proof {
            lemma_xor_zero(h);
        }
        if apply[0] {
            h = h ^ self.castling[0];
        }
        proof {
            lemma_xor_zero(h);
        }
        if apply[1] {
            h = h ^ self.castling[1];
        }
        proof {
            lemma_xor_zero(h);
        }
        if apply[2] {
            h = h ^ self.castling[2];
        }
        proof {
            lemma_xor_zero(h);
        }
        if apply[3] {
            h = h ^ self.castling[3];
        }
        proof {
            let t0 = self.castle_mask_term(apply@, 0);
            let t1 = self.castle_mask_term(apply@, 1);
            let t2 = self.castle_mask_term(apply@, 2);
            let t3 = self.castle_mask_term(apply@, 3);
            assert((((hash ^ t0) ^ t1) ^ t2) ^ t3 == hash ^ (((t0 ^ t1) ^ t2) ^ t3))
                by (bit_vector);
        }
        h
    }

    /// One flag's contribution to the castling mask.
    pub open spec fn castle_mask_term(self, rights: Seq<bool>, i: int) -> u64 {
        if rights[i] {
            self.castling@[i]
        } else {
            0u64
        }
    }

    /// XORs out the old flags' keys and XORs in the new ones.
    pub fn update_castling(&self, hash: u64, previous_rights: [bool; 4], rights: [bool; 4]) -> (r:
        u64)
        requires
            self.wf(),
        ensures
            r == (hash ^ self.castle_mask(previous_rights@)) ^ self.castle_mask(rights@),
    {
        let hash = self.apply_castling(hash, previous_rights);
        let hash = self.apply_castling(hash, rights);
        hash
    }

    /// XORs in the key of the given en-passant file, if one is active.
    pub fn apply_en_passant(&self, hash: u64, apply_file: i8) -> (r: u64)
        requires
            self.wf(),
        ensures
            r == hash ^ self.ep_mask(apply_file as int),
    {
        if apply_file >= 8 || apply_file < 0 {
            proof {
                lemma_xor_zero(hash);
            }
            hash
        } else {
            hash ^ self.en_passant[apply_file as usize]
        }
    }

    /// XORs out the old en-passant file's key and XORs in the new one's.
    pub fn update_en_passant(&self, hash: u64, previous_file: i8, file: i8) -> (r: u64)
        requires
            self.wf(),
        ensures
            r == (hash ^ self.ep_mask(previous_file as int)) ^ self.ep_mask(file as int),
    {
        let hash = self.apply_en_passant(hash, previous_file);
        let hash = self.apply_en_passant(hash, file);
        hash
    }

    /// XORs the side-to-move key; applying it twice restores the hash.
    pub fn switch_color(&self, hash: u64) -> (r: u64)
        ensures
            r == hash ^ self.color,
            r ^ self.color == hash,
    {
        proof {
            let c = self.color;
            assert((hash ^ c) ^ c == hash) by (bit_vector);
        }
        hash ^ self.color
    }
}

/// Regrouping of a fingerprint into its square fold and its flag terms.
proof fn lemma_hash_regroup(x: u64, c: u64, m: u64, e: u64)
    ensures
        ((x ^ c) ^ m) ^ e == x ^ ((c ^ m) ^ e),
{
    assert(((x ^ c) ^ m) ^ e == x ^ ((c ^ m) ^ e)) by (bit_vector);
}

/// Folding one square change through a fingerprint that carries unrelated
/// flag terms.
proof fn lemma_hash_fold_step(h: u64, x: u64, rest: u64, a: u64, b: u64)
    requires
        h == x ^ rest,
    ensures
        (h ^ a) ^ b == ((x ^ a) ^ b) ^ rest,
{
    assert(((x ^ rest) ^ a) ^ b == ((x ^ a) ^ b) ^ rest) by (bit_vector);
}

/// Replacing the old flag terms of a fingerprint by the new ones.
proof fn lemma_hash_flags(x: u64, c0: u64, m0: u64, e0: u64, c1: u64, m1: u64, e1: u64, kc: u64, h0: u64)
    requires
        h0 == x ^ ((c0 ^ m0) ^ e0),
        c1 == c0 ^ kc,
    ensures
        ((((h0 ^ kc) ^ e0) ^ e1) ^ m0) ^ m1 == ((x ^ c1) ^ m1) ^ e1,
{
    assert((((((x ^ ((c0 ^ m0) ^ e0)) ^ kc) ^ e0) ^ e1) ^ m0) ^ m1 == ((x ^ (c0 ^ kc)) ^ m1)
        ^ e1) by (bit_vector);
}

/// A board layer that maintains the Zobrist fingerprint incrementally
/// across transitions. Its invariant ties the cached fingerprint to the
/// from-scratch recomputation over the whole position.
#[derive(Clone, Debug)]
pub struct ZobristBoard {
    pub inner: PSTBoard,
    pub hash: u64,
}

impl ZobristBoard {
    /// The cached fingerprint equals the bulk recomputation under the
    /// given key table; this is the incremental/bulk hash equivalence,
    /// kept as an invariant.
    pub open spec fn wf_with(self, k: ZobristKeys) -> bool {
        &&& self.inner.wf()
        &&& k.wf()
        &&& self.hash == k.hash_of(self.inner.inner@)
    }

    /// Builds the layer by hashing the whole position from scratch.
    pub fn new(inner: PSTBoard, keys: &ZobristKeys) -> (r: ZobristBoard)
        requires
            inner.wf(),
            keys.wf(),
        ensures
            r.wf_with(*keys),
            r.inner == inner,
            r.hash == keys.hash_of(inner.inner@),
    {
        let ghost v = inner.inner@;
        let mut h: u64 = 0;
        let mut i: usize = 0;
        while i < 64
            invariant
                inner.wf(),
                keys.wf(),
                v == inner.inner@,
                i <= 64,
                h == xor_squares(v.squares.take(i as int), keys.square_keys()),
            decreases 64 - i,
        {
            let x = i % 8;
            let y = i / 8;
            let l = Location::new(x as i8, y as i8);
            assert(l.index() == i) by {
                vstd::arithmetic::div_mod::lemma_fundamental_div_mod(i as int, 8);
            }
            let p = inner.piece_at(l);
            let k = keys.key_at(i, p);
            proof {
                lemma_xor_take_step(v.squares, keys.square_keys(), i as int);
            }
            h = h ^ k;
            i += 1;
        }
        assert(v.squares.take(64) =~= v.squares);
        let h = if inner.current_player() == Color::Black {
            keys.switch_color(h)
        } else {
            proof {
                lemma_xor_zero(h);
            }
            h
        };
        let h = keys.apply_castling(h, inner.get_castling_rights());
        let h = keys.apply_en_passant(h, inner.get_en_passant());
        ZobristBoard { inner, hash: h }
    }

    pub fn hash(&self) -> (r: u64)
        ensures
            r == self.hash,
    {
        self.hash
    }

    pub fn heuristic(&self) -> (r: i32)
        ensures
            r == self.inner.heuristic_value,
    {
        self.inner.heuristic()
    }

    pub fn get_material_score(&self) -> (r: i32)
        ensures
            r == self.inner.heuristic_value,
    {
        self.inner.get_material_score()
    }

    pub fn current_player(&self) -> (r: Color)
        ensures
            r == self.inner.inner@.current,
    {
        self.inner.current_player()
    }

    pub fn piece_at(&self, l: Location) -> (r: Piece)
        requires
            self.inner.wf(),
            l.wf(),
        ensures
            r == self.inner.inner@.squares[l.index()],
    {
        self.inner.piece_at(l)
    }

    pub fn get_en_passant(&self) -> (r: i8)
        ensures
            r == self.inner.inner@.en_passant,
    {
        self.inner.get_en_passant()
    }

    pub fn get_castling_rights(&self) -> (r: [bool; 4])
        requires
            self.inner.wf(),
        ensures
            r@ =~= self.inner.inner@.rights,
    {
        self.inner.get_castling_rights()
    }

    /// The legal moves of the side to move.
    pub fn all_moves(&self) -> (r: Vec<Move>)
        requires
            self.inner.wf(),
        ensures
            r@ == crate::movegen::all_moves_spec(self.inner.inner@),
            forall|i: int|
                0 <= i < r@.len() ==> crate::movegen::legal_ok(
                    self.inner.inner@,
                    #[trigger] r@[i],
                ),
    {
        self.inner.all_moves()
    }

    /// Checkmate, stalemate, or an ongoing game.
    pub fn is_terminal(&self) -> (r: Option<Color>)
        requires
            self.inner.wf(),
        ensures
            r is Some <==> crate::movegen::all_moves_spec(self.inner.inner@).len() == 0,
            (crate::movegen::all_moves_spec(self.inner.inner@).len() == 0
                && crate::king_check::in_check(
                self.inner.inner@.squares,
                self.inner.inner@.current,
            )) ==> r == Some(self.inner.inner@.current.other_spec()),
            (crate::movegen::all_moves_spec(self.inner.inner@).len() == 0
                && !crate::king_check::in_check(
                self.inner.inner@.squares,
                self.inner.inner@.current,
            )) ==> r == Some(Color::EmptyColor),
    {
        self.inner.is_terminal()
    }

    /// Applies a move, updating the cached fingerprint from the
    /// square-level changes and the flag transitions alone; the result
    /// provably carries the fingerprint a from-scratch recomputation would
    /// give.
    pub fn transition(&self, m: Move, keys: &ZobristKeys) -> (r: ZobristBoard)
        requires
            self.wf_with(*keys),
            self.inner.inner@.move_ok(m),
        ensures
            r.wf_with(*keys),
            r.inner.inner@ == self.inner.inner@.transition_view(m),
    {
        let ghost v0 = self.inner.inner@;
        let ghost s0 = v0.squares;
        let old_rights = self.get_castling_rights();
        let old_ep = self.get_en_passant();
        let (inner2, ds) = self.inner.transition_with_changes(m);
        let ghost c0 = keys.color_term(v0.current);
        let ghost m0 = keys.castle_mask(v0.rights);
        let ghost e0 = keys.ep_mask(v0.en_passant);
        let ghost rest = (c0 ^ m0) ^ e0;
        proof {
            lemma_hash_regroup(xor_squares(s0, keys.square_keys()), c0, m0, e0);
            assert(ds@.take(0) =~= Seq::<SquareChange>::empty());
        }
        let mut h: u64 = self.hash;
        let mut k: usize = 0;
        while k < ds.len()
            invariant
                keys.wf(),
                s0.len() == 64,
                changes_ok(s0, ds@),
                apply_changes(s0, ds@) == inner2.inner@.squares,
                k <= ds.len(),
                h == xor_squares(apply_changes(s0, ds@.take(k as int)), keys.square_keys()) ^ rest,
            decreases ds.len() - k,
        {
            let ghost cur = apply_changes(s0, ds@.take(k as int));
            proof {
                lemma_changes_ok_prefix(s0, ds@, k as int);
                lemma_changes_ok_prefix(s0, ds@, k + 1);
                lemma_apply_changes_len(s0, ds@.take(k as int));
                assert(ds@.take(k + 1).drop_last() =~= ds@.take(k as int));
                assert(ds@.take(k + 1).last() == ds@[k as int]);
            }
            let d = ds[k];
            assert(cur[d.index as int] == d.was);
            let was_k = keys.key_at(d.index, d.was);
            let now_k = keys.key_at(d.index, d.now);
            proof {
                lemma_xor_update(cur, keys.square_keys(), d.index as int, d.now);
                lemma_apply_changes_take_step(s0, ds@, k as int);
                lemma_hash_fold_step(
                    h,
                    xor_squares(cur, keys.square_keys()),
                    rest,
                    was_k,
                    now_k,
                );
            }
            h = (h ^ was_k) ^ now_k;
            k += 1;
        }
        proof {
            assert(ds@.take(ds@.len() as int) =~= ds@);
        }
        let ghost x3 = xor_squares(inner2.inner@.squares, keys.square_keys());

        let h = keys.switch_color(h);
        let h = keys.update_en_passant(h, old_ep, inner2.get_en_passant());
        let h = keys.update_castling(h, old_rights, inner2.get_castling_rights());

        proof {
            let v1 = inner2.inner@;
            let c1 = keys.color_term(v1.current);
            if v0.current == Color::Black {
                lemma_xor_self(keys.color);
            } else {
                lemma_xor_zero(keys.color);
            }
            assert(c1 == c0 ^ keys.color);
            lemma_hash_flags(
                x3,
                c0,
                m0,
                e0,
                c1,
                keys.castle_mask(v1.rights),
                keys.ep_mask(v1.en_passant),
                keys.color,
                x3 ^ rest,
            );
        }
        ZobristBoard { inner: inner2, hash: h }
    }
}

/// The fingerprint is a function of the position alone: two boards with
/// the same squares, side to move, castling rights and en-passant file
/// have the same fingerprint under key tables with the same keys,
/// whatever their clocks or ply counters and however they were reached.
/// In particular, two fresh default positions hash identically, and
/// applying a move and then its exact inverse restores the fingerprint.
pub proof fn lemma_hash_function_of_position(
    k1: ZobristKeys,
    k2: ZobristKeys,
    v1: BoardView,
    v2: BoardView,
)
    requires
        k1.pieces@ == k2.pieces@,
        k1.color == k2.color,
        k1.castling@ == k2.castling@,
        k1.en_passant@ == k2.en_passant@,
        v1.squares == v2.squares,
        v1.current == v2.current,
        v1.rights == v2.rights,
        v1.en_passant == v2.en_passant,
    ensures
        k1.hash_of(v1) == k2.hash_of(v2),
{
    crate::sums::lemma_xor_pointwise(v1.squares, k1.square_keys(), k2.square_keys());
}

/// Incremental/bulk hash equivalence: the cached fingerprint of a
/// well-formed layer is determined by the position and the key table
/// alone, so a layer maintained move by move and one hashed from scratch
/// over the same position always agree.
pub proof fn lemma_hash_incremental_matches_bulk(b1: ZobristBoard, b2: ZobristBoard, k: ZobristKeys)
    requires
        b1.wf_with(k),
        b2.wf_with(k),
        b1.inner.inner@.squares == b2.inner.inner@.squares,
        b1.inner.inner@.current == b2.inner.inner@.current,
        b1.inner.inner@.rights == b2.inner.inner@.rights,
        b1.inner.inner@.en_passant == b2.inner.inner@.en_passant,
    ensures
        b1.hash == b2.hash,
{
    lemma_hash_function_of_position(k, k, b1.inner.inner@, b2.inner.inner@);
}

} // verus!
