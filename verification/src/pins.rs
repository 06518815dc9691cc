//! What the pin table marks: each piece that stands first on a line from
//! its own king, with a slide of the other player coming along that line
//! from behind it, gets the offset of the line.

use vstd::prelude::*;
use crate::koma_inf::KomaInf;
use crate::koma_moves::dir_offset;
use crate::kyokumen::KyokumenView;
use crate::control::{piece_gives, owns, control_matches, attacked, bit};
use crate::gen_spec::{pins_s_upto, pins_e_upto, pin_spec, pin_cleared};

verus! {

/// The offset from the king of `side` along line `d` of the pin table:
/// `DIRECT[d]` for the first player, its opposite for the second.
pub open spec fn pin_line(side: KomaInf, d: int) -> int {
    if side == KomaInf::Self_ { dir_offset(d) } else { -dir_offset(d) }
}

/// The attack-map bit of a slide of the other player towards the king of
/// `side` along line `d`.
pub open spec fn pin_bit(side: KomaInf, d: int) -> int {
    if side == KomaInf::Self_ { 23 - d } else { 16 + d }
}

/// Whether the piece on `q` is pinned to the king of `side` along line
/// `d`, as the attack map of the other player shows it: going from the
/// king along the line, `q` is the first square that is not empty, it
/// holds a piece of `side` (a code that carries the second player's mark
/// exactly when `side` is the second player), and the other player's map
/// has at `q` the bit of a slide along the line towards the king.
pub open spec fn pinned_on_map(v: KyokumenView, side: KomaInf, q: int, d: int) -> bool {
    &&& 0 <= d < 8
    &&& v.king(side) != 0
    &&& v.walk(v.king(side) as int, pin_line(side, d)) == q
    &&& v.ban[q] != KomaInf::Wall
    &&& (v.ban[q].value() & KomaInf::Enemy.value() == 0) == (side == KomaInf::Self_)
    &&& bit(v.control(side.opponent())[q], pin_bit(side, d) as usize)
}

/// The same, with the slide itself in view: a piece of the other player
/// stands behind `q` on the line and slides along it onto `q`.
pub open spec fn pinned(v: KyokumenView, side: KomaInf, q: int, d: int) -> bool {
    &&& 0 <= d < 8
    &&& v.king(side) != 0
    &&& v.walk(v.king(side) as int, pin_line(side, d)) == q
    &&& v.ban[q] != KomaInf::Wall
    &&& (v.ban[q].value() & KomaInf::Enemy.value() == 0) == (side == KomaInf::Self_)
    &&& exists|c: int| owns(v.ban, side.opponent(), c) && #[trigger] piece_gives(v.ban, c, q, pin_bit(side, d))
}

proof fn lemma_pins_s_at(v: KyokumenView, p: Seq<isize>, n: int, q: int)
    requires
        v.walls_ok(),
        v.kings_ok(),
        v.king_s != 0,
        p.len() == 176,
        0 <= q < 176,
        0 <= n <= 8,
    ensures
        pins_s_upto(v, p, n).len() == 176,
        (exists|d: int| 0 <= d < n && #[trigger] pinned_on_map(v, KomaInf::Self_, q, d))
            ==> exists|d: int| 0 <= d < n && #[trigger] pinned_on_map(v, KomaInf::Self_, q, d)
                && pins_s_upto(v, p, n)[q] == dir_offset(d),
        !(exists|d: int| 0 <= d < n && #[trigger] pinned_on_map(v, KomaInf::Self_, q, d))
            ==> pins_s_upto(v, p, n)[q] == p[q],
    decreases n,
{
    if n > 0 {
        let i = n - 1;
        lemma_pins_s_at(v, p, n - 1, q);
        v.lemma_walk(v.king_s as int, i);
        let w = v.walk(v.king_s as int, dir_offset(i));
        let k = (23 - i) as usize;
        assert(pin_bit(KomaInf::Self_, i) as usize == k);
        if w == q && pinned_on_map(v, KomaInf::Self_, q, i) {
        } else {
            assert(!pinned_on_map(v, KomaInf::Self_, q, i));
        }
    }
}

proof fn lemma_pins_e_at(v: KyokumenView, p: Seq<isize>, n: int, q: int)
    requires
        v.walls_ok(),
        v.kings_ok(),
        v.king_e != 0,
        p.len() == 176,
        0 <= q < 176,
        0 <= n <= 8,
    ensures
        pins_e_upto(v, p, n).len() == 176,
        (exists|d: int| 0 <= d < n && #[trigger] pinned_on_map(v, KomaInf::Enemy, q, d))
            ==> exists|d: int| 0 <= d < n && #[trigger] pinned_on_map(v, KomaInf::Enemy, q, d)
                && pins_e_upto(v, p, n)[q] == dir_offset(d),
        !(exists|d: int| 0 <= d < n && #[trigger] pinned_on_map(v, KomaInf::Enemy, q, d))
            ==> pins_e_upto(v, p, n)[q] == p[q],
    decreases n,
{
    if n > 0 {
        let i = n - 1;
        lemma_pins_e_at(v, p, n - 1, q);
        crate::drops::lemma_opp_dir(i);
        v.lemma_walk(v.king_e as int, crate::drops::opp_dir(i));
        let w = v.walk(v.king_e as int, -dir_offset(i));
        let k = (16 + i) as usize;
        assert(pin_bit(KomaInf::Enemy, i) as usize == k);
        if w == q && pinned_on_map(v, KomaInf::Enemy, q, i) {
        } else {
            assert(!pinned_on_map(v, KomaInf::Enemy, q, i));
        }
    }
}

/// With the attack maps in agreement with the board, the map shows a pin
/// exactly where there is one.
proof fn lemma_pinned_on_map(v: KyokumenView, side: KomaInf, q: int, d: int)
    requires
        side.is_side(),
        control_matches(v.ban, side.opponent(), v.control(side.opponent())),
        0 <= q < 176,
    ensures
        pinned_on_map(v, side, q, d) == pinned(v, side, q, d),
{
    if 0 <= d < 8 {
        let b = pin_bit(side, d) as usize;
        assert(bit(v.control(side.opponent())[q], b) <==> attacked(v.ban, side.opponent(), q, b as int));
    }
}

/// The pin table `make_pin_inf` writes (`pin_spec`), on a position whose
/// attack maps agree with the board: a square that holds a pinned piece
/// (see `pinned`) gets the offset of a line along which it is pinned;
/// every other square of the board gets 0, and the squares outside the
/// board keep what they held.
pub proof fn lemma_pin_table(v: KyokumenView, pin: Seq<isize>, q: int)
    requires
        v.walls_ok(),
        v.kings_ok(),
        control_matches(v.ban, KomaInf::Self_, v.control_s),
        control_matches(v.ban, KomaInf::Enemy, v.control_e),
        pin.len() == 176,
        0 <= q < 176,
    ensures
        (exists|side: KomaInf, d: int| side.is_side() && #[trigger] pinned(v, side, q, d))
            ==> exists|side: KomaInf, d: int| side.is_side() && #[trigger] pinned(v, side, q, d)
                && pin_spec(v, pin)[q] == dir_offset(d),
        !(exists|side: KomaInf, d: int| side.is_side() && #[trigger] pinned(v, side, q, d))
            ==> pin_spec(v, pin)[q] == (if 0x11 <= q <= 0x99 { 0isize } else { pin[q] }),
{
    let p1 = pin_cleared(pin);
    let p2 = if v.king_s != 0 { pins_s_upto(v, p1, 8) } else { p1 };
    assert forall|side: KomaInf, d: int| side.is_side() implies
        (#[trigger] pinned(v, side, q, d)) == pinned_on_map(v, side, q, d) by {
        lemma_pinned_on_map(v, side, q, d);
    }
    if v.king_s != 0 {
        lemma_pins_s_at(v, p1, 8, q);
    }
    if v.king_e != 0 {
        lemma_pins_e_at(v, p2, 8, q);
    }
    if exists|d: int| 0 <= d < 8 && #[trigger] pinned_on_map(v, KomaInf::Enemy, q, d) {
        let d = choose|d: int| 0 <= d < 8 && #[trigger] pinned_on_map(v, KomaInf::Enemy, q, d)
            && pins_e_upto(v, p2, 8)[q] == dir_offset(d);
        assert(pinned(v, KomaInf::Enemy, q, d));
    } else if exists|d: int| 0 <= d < 8 && #[trigger] pinned_on_map(v, KomaInf::Self_, q, d) {
        let d = choose|d: int| 0 <= d < 8 && #[trigger] pinned_on_map(v, KomaInf::Self_, q, d)
            && pins_s_upto(v, p1, 8)[q] == dir_offset(d);
        assert(pinned(v, KomaInf::Self_, q, d));
    } else {
        assert forall|side: KomaInf, d: int| side.is_side() implies !#[trigger] pinned(v, side, q, d) by {
            if 0 <= d < 8 {
                assert(!pinned_on_map(v, side, q, d));
            }
        }
    }
}

/// A pinned piece keeps to its line: on a position whose attack maps
/// agree with the board, every move the generator gives (with the pins it
/// works out) of a piece that is pinned goes along a line on which that
/// piece is pinned.
pub proof fn lemma_pinned_pieces_keep_their_line(v: KyokumenView, side: KomaInf, i: int)
    requires
        crate::legal::generation_ready(v, side),
        crate::generated::king_in_place(v, side),
        control_matches(v.ban, KomaInf::Self_, v.control_s),
        control_matches(v.ban, KomaInf::Enemy, v.control_e),
        0 <= i < crate::gen_spec::legal_moves_spec(v, side, crate::legal::pins_used(v, None)).len(),
    ensures
        ({
            let te = crate::gen_spec::legal_moves_spec(v, side, crate::legal::pins_used(v, None))[i];
            te.from > 0x10 && te.from as int != v.king(side) as int
                && (exists|s2: KomaInf, d: int| s2.is_side() && #[trigger] pinned(v, s2, te.from as int, d))
            ==> exists|s2: KomaInf, d: int, b: int| s2.is_side() && #[trigger] pinned(v, s2, te.from as int, d)
                && 0 <= b < 24 && #[trigger] piece_gives(v.ban, te.from as int, te.to as int, b)
                && crate::gen_spec::pin_allows(dir_offset(d) as isize, dir_offset(crate::generated::line_of(b)))
        }),
{
    let pt = crate::legal::pins_used(v, None);
    let ms = crate::gen_spec::legal_moves_spec(v, side, pt);
    let te = ms[i];
    crate::generated::lemma_generated_moves_sound(v, side, pt);
    assert(crate::generated::sound_move(v, side, pt, te));
    if te.from > 0x10 && te.from as int != v.king(side) as int
        && (exists|s2: KomaInf, d: int| s2.is_side() && #[trigger] pinned(v, s2, te.from as int, d)) {
        let q = te.from as int;
        assert(0 <= q < 176);
        let zeros = Seq::new(176, |j: int| 0isize);
        lemma_pin_table(v, zeros, q);
        let (s2, d) = choose|s2: KomaInf, d: int| s2.is_side() && #[trigger] pinned(v, s2, q, d)
            && pin_spec(v, zeros)[q] == dir_offset(d);
        let b = choose|b: int| 0 <= b < 24 && #[trigger] piece_gives(v.ban, q, te.to as int, b)
            && (q == v.king(side) as int || crate::gen_spec::pin_allows(pt[q], dir_offset(crate::generated::line_of(b))));
        assert(pinned(v, s2, q, d) && piece_gives(v.ban, q, te.to as int, b));
    }
}

} // verus!
