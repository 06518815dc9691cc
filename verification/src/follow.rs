//! Why the edits of a move keep an attack map in agreement with the board:
//! one lemma for each step of the move.

use vstd::prelude::*;
use crate::koma_inf::KomaInf;
use crate::koma_moves::{dir_offset, lemma_moves_shape};
use crate::kyokumen::{on_board, lemma_mover_mark};
use crate::control::{ray_reaches, piece_gives, owns, attacked, bit, lemma_ray_through};
use crate::rays::{lemma_ray_unique, lemma_ray_emptied, lemma_ray_filled, lemma_ray_same_shape};
use crate::edits::{piece_bits, removed_from, extended_from, cut_from};

verus! {

/// Some piece of `side` other than the one on `q` gives bit `b` at `x`.
pub open spec fn attacked_except(ban: Seq<KomaInf>, side: KomaInf, x: int, b: int, q: int) -> bool {
    exists|p: int| p != q && owns(ban, side, p) && #[trigger] piece_gives(ban, p, x, b)
}

/// The bits of `c` below 24 are exactly those given by the pieces of `side`.
pub open spec fn matches_all(ban: Seq<KomaInf>, side: KomaInf, c: Seq<usize>) -> bool {
    forall|x: int, b: usize| 0 <= x < 176 && b < 24 ==>
        (#[trigger] bit(c[x], b) <==> attacked(ban, side, x, b as int))
}

/// The bits of `c` below 24 are exactly those given by the pieces of
/// `side` other than the one on `q`.
pub open spec fn matches_except(ban: Seq<KomaInf>, side: KomaInf, c: Seq<usize>, q: int) -> bool {
    forall|x: int, b: usize| 0 <= x < 176 && b < 24 ==>
        (#[trigger] bit(c[x], b) <==> attacked_except(ban, side, x, b as int, q))
}

/// The empty code has no bit.
pub proof fn lemma_zero_bits(v: u8)
    by (bit_vector)
    ensures
        0u8 & v == 0u8,
{
}

/// Taking away the bits that the piece on `q` gives leaves the bits of the
/// other pieces.
pub proof fn lemma_removed(ban: Seq<KomaInf>, side: KomaInf, c0: Seq<usize>, c1: Seq<usize>, q: int, every_step: bool)
    requires
        ban.len() == 176,
        on_board(q),
        matches_all(ban, side, c0),
        removed_from(c0, c1, ban, q, ban[q], every_step),
    ensures
        matches_except(ban, side, c1, q),
{
    assert forall|x: int, b: usize| 0 <= x < 176 && b < 24 implies
        (#[trigger] bit(c1[x], b) <==> attacked_except(ban, side, x, b as int, q)) by {
        let bi = b as int;
        assert(bit(c0[x], b) <==> attacked(ban, side, x, bi));
        if bit(c1[x], b) {
            let p = choose|p: int| owns(ban, side, p) && #[trigger] piece_gives(ban, p, x, bi);
            if p == q {
                lemma_moves_shape(bi, ban[q]);
                assert(piece_bits(ban, q, ban[q], x, bi, every_step));
            }
            assert(p != q && owns(ban, side, p) && piece_gives(ban, p, x, bi));
        }
        if attacked_except(ban, side, x, bi, q) {
            let p = choose|p: int| p != q && owns(ban, side, p) && #[trigger] piece_gives(ban, p, x, bi);
            assert(attacked(ban, side, x, bi));
            if piece_bits(ban, q, ban[q], x, bi, every_step) && 16 <= bi {
                lemma_moves_shape(bi - 16, ban[q]);
                lemma_moves_shape(bi - 16, ban[p]);
                lemma_ray_unique(ban, p, q, dir_offset(bi - 16), x);
            }
        }
    }
}

/// A slide that reached a square that is then emptied goes on along the
/// slide from that square.
pub proof fn lemma_emptied_ray(ban: Seq<KomaInf>, f: int, p: int, o: int, x: int)
    requires
        ban.len() == 176,
        0 <= f < 176,
        p != f,
    ensures
        ray_reaches(ban.update(f, KomaInf::EMP), p, o, x)
            == (ray_reaches(ban, p, o, x) || (ray_reaches(ban, p, o, f)
                && ray_reaches(ban.update(f, KomaInf::EMP), f, o, x))),
{
    if ban[f] != KomaInf::EMP {
        lemma_ray_emptied(ban, f, p, o, x);
    } else {
        assert(ban.update(f, KomaInf::EMP) =~= ban);
        if ray_reaches(ban, p, o, f) && ray_reaches(ban, f, o, x) {
            lemma_ray_through(ban, p, o, f, x);
        }
    }
}

/// Emptying `f` and carrying on the slides found there gives the map of
/// the board with `f` empty.
pub proof fn lemma_emptied(ban: Seq<KomaInf>, side: KomaInf, c1: Seq<usize>, c2: Seq<usize>, f: int)
    requires
        ban.len() == 176,
        on_board(f),
        side.is_side(),
        matches_except(ban, side, c1, f),
        extended_from(c1, c2, ban.update(f, KomaInf::EMP), f),
    ensures
        matches_all(ban.update(f, KomaInf::EMP), side, c2),
{
    let b1 = ban.update(f, KomaInf::EMP);
    assert forall|x: int, b: usize| 0 <= x < 176 && b < 24 implies
        (#[trigger] bit(c2[x], b) <==> attacked(b1, side, x, b as int)) by {
        let bi = b as int;
        let o = dir_offset(bi - 16);
        assert(bit(c1[x], b) <==> attacked_except(ban, side, x, bi, f));
        assert(bit(c1[f], b) <==> attacked_except(ban, side, f, bi, f));
        if bit(c2[x], b) {
            if bit(c1[x], b) {
                let p = choose|p: int| p != f && owns(ban, side, p) && #[trigger] piece_gives(ban, p, x, bi);
                if 16 <= bi {
                    lemma_emptied_ray(ban, f, p, o, x);
                }
                assert(owns(b1, side, p) && piece_gives(b1, p, x, bi));
            } else {
                let q = choose|q: int| q != f && owns(ban, side, q) && #[trigger] piece_gives(ban, q, f, bi);
                lemma_emptied_ray(ban, f, q, o, x);
                assert(owns(b1, side, q) && piece_gives(b1, q, x, bi));
            }
        }
        if attacked(b1, side, x, bi) {
            let p = choose|p: int| owns(b1, side, p) && #[trigger] piece_gives(b1, p, x, bi);
            lemma_zero_bits(side.value());
            assert(p != f);
            if 16 <= bi {
                lemma_emptied_ray(ban, f, p, o, x);
                if ray_reaches(ban, p, o, x) {
                    assert(piece_gives(ban, p, x, bi));
                } else {
                    assert(piece_gives(ban, p, f, bi));
                }
            } else {
                assert(piece_gives(ban, p, x, bi));
            }
        }
    }
}

/// Filling the empty square `t` and cutting the slides found there gives
/// the map, without the new piece, of the board with `t` filled.
pub proof fn lemma_filled(b1: Seq<KomaInf>, side: KomaInf, c2: Seq<usize>, c3: Seq<usize>, t: int, k: KomaInf)
    requires
        b1.len() == 176,
        on_board(t),
        b1[t] == KomaInf::EMP,
        k != KomaInf::EMP,
        side.is_side(),
        matches_all(b1, side, c2),
        cut_from(c2, c3, b1, t),
    ensures
        matches_except(b1.update(t, k), side, c3, t),
{
    let b2 = b1.update(t, k);
    lemma_zero_bits(side.value());
    assert forall|x: int, b: usize| 0 <= x < 176 && b < 24 implies
        (#[trigger] bit(c3[x], b) <==> attacked_except(b2, side, x, b as int, t)) by {
        let bi = b as int;
        let o = dir_offset(bi - 16);
        assert(bit(c2[x], b) <==> attacked(b1, side, x, bi));
        assert(bit(c2[t], b) <==> attacked(b1, side, t, bi));
        if bit(c3[x], b) {
            let p = choose|p: int| owns(b1, side, p) && #[trigger] piece_gives(b1, p, x, bi);
            assert(p != t);
            if 16 <= bi {
                lemma_ray_filled(b1, t, k, p, o, x);
                if ray_reaches(b1, p, o, t) && ray_reaches(b1, t, o, x) {
                    assert(piece_gives(b1, p, t, bi));
                }
            }
            assert(owns(b2, side, p) && piece_gives(b2, p, x, bi));
        }
        if attacked_except(b2, side, x, bi, t) {
            let p = choose|p: int| p != t && owns(b2, side, p) && #[trigger] piece_gives(b2, p, x, bi);
            if 16 <= bi {
                lemma_ray_filled(b1, t, k, p, o, x);
                assert(piece_gives(b1, p, x, bi));
                if bit(c2[t], b) && ray_reaches(b1, t, o, x) {
                    let q = choose|q: int| owns(b1, side, q) && #[trigger] piece_gives(b1, q, t, bi);
                    lemma_ray_through(b1, q, o, t, x);
                    lemma_moves_shape(bi - 16, b1[p]);
                    lemma_moves_shape(bi - 16, b1[q]);
                    lemma_ray_unique(b1, p, q, o, x);
                }
            } else {
                assert(piece_gives(b1, p, x, bi));
            }
        }
    }
}

/// Putting another piece on an occupied square changes no slide.
pub proof fn lemma_reshaped(b1: Seq<KomaInf>, side: KomaInf, c: Seq<usize>, t: int, k: KomaInf)
    requires
        b1.len() == 176,
        0 <= t < 176,
        b1[t] != KomaInf::EMP,
        k != KomaInf::EMP,
        matches_except(b1, side, c, t),
    ensures
        matches_except(b1.update(t, k), side, c, t),
{
    let b2 = b1.update(t, k);
    assert forall|x: int, b: usize| 0 <= x < 176 && b < 24 implies
        (#[trigger] bit(c[x], b) <==> attacked_except(b2, side, x, b as int, t)) by {
        let bi = b as int;
        let o = dir_offset(bi - 16);
        assert(bit(c[x], b) <==> attacked_except(b1, side, x, bi, t));
        if attacked_except(b1, side, x, bi, t) {
            let p = choose|p: int| p != t && owns(b1, side, p) && #[trigger] piece_gives(b1, p, x, bi);
            lemma_ray_same_shape(b1, b2, p, o, x);
            assert(owns(b2, side, p) && piece_gives(b2, p, x, bi));
        }
        if attacked_except(b2, side, x, bi, t) {
            let p = choose|p: int| p != t && owns(b2, side, p) && #[trigger] piece_gives(b2, p, x, bi);
            lemma_ray_same_shape(b1, b2, p, o, x);
            assert(owns(b1, side, p) && piece_gives(b1, p, x, bi));
        }
    }
}

/// When the piece on `q` carries no mark of `side`, the pieces of `side`
/// other than it are all of them.
pub proof fn lemma_unowned(ban: Seq<KomaInf>, side: KomaInf, c: Seq<usize>, q: int)
    requires
        !owns(ban, side, q),
    ensures
        matches_all(ban, side, c) == matches_except(ban, side, c, q),
{
    assert forall|x: int, b: int| #[trigger] attacked(ban, side, x, b) == attacked_except(ban, side, x, b, q) by {
        if attacked(ban, side, x, b) {
            let p = choose|p: int| owns(ban, side, p) && #[trigger] piece_gives(ban, p, x, b);
            assert(p != q);
        }
    }
    if matches_all(ban, side, c) {
        assert forall|x: int, b: usize| 0 <= x < 176 && b < 24 implies
            (#[trigger] bit(c[x], b) <==> attacked_except(ban, side, x, b as int, q)) by {
            assert(attacked(ban, side, x, b as int) == attacked_except(ban, side, x, b as int, q));
        }
    }
    if matches_except(ban, side, c, q) {
        assert forall|x: int, b: usize| 0 <= x < 176 && b < 24 implies
            (#[trigger] bit(c[x], b) <==> attacked(ban, side, x, b as int)) by {
            assert(attacked(ban, side, x, b as int) == attacked_except(ban, side, x, b as int, q));
        }
    }
}

/// Adding the bits of the piece on `t`, a piece that carries no mark of
/// the opponent, to the bits of the other pieces gives the whole map.
pub proof fn lemma_placed(b2: Seq<KomaInf>, side: KomaInf, c3: Seq<usize>, c4: Seq<usize>, t: int)
    requires
        b2.len() == 176,
        on_board(t),
        side.is_side(),
        b2[t].value() & side.opponent().value() == 0,
        matches_except(b2, side, c3, t),
        forall|x: int, b: usize| 0 <= x < 176 && b < 24 ==>
            (#[trigger] bit(c4[x], b) <==> bit(c3[x], b) || piece_gives(b2, t, x, b as int)),
    ensures
        matches_all(b2, side, c4),
{
    assert forall|x: int, b: usize| 0 <= x < 176 && b < 24 implies
        (#[trigger] bit(c4[x], b) <==> attacked(b2, side, x, b as int)) by {
        let bi = b as int;
        assert(bit(c3[x], b) <==> attacked_except(b2, side, x, bi, t));
        if piece_gives(b2, t, x, bi) {
            lemma_mover_mark(if bi < 12 { bi } else { bi - 16 }, b2[t]);
            assert(owns(b2, side, t));
        }
        if attacked(b2, side, x, bi) {
            let p = choose|p: int| owns(b2, side, p) && #[trigger] piece_gives(b2, p, x, bi);
            if p != t {
                assert(attacked_except(b2, side, x, bi, t));
            }
        }
    }
}

} // verus!
