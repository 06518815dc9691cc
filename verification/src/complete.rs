//! The generator leaves out no move of the kinds it is meant to give.
//!
//! Out of check: every move of a piece other than the king onto a square
//! it reaches (`piece_gives`) along a line its pin entry allows, every step
//! of the king onto a square the other player does not reach, and every
//! drop onto an empty square where the piece can still move (for a pawn:
//! no second pawn on the file, no pawn-drop mate).
//!
//! In check: every such step of the king that does not stay on the line of
//! a sliding check; against a single check, every such move that takes the
//! checking piece; against a single sliding check, every such move and
//! drop onto the squares between the slider and the king.

use vstd::prelude::*;
use crate::koma_inf::{KomaInf, lemma_bit4, lemma_bit5};
use crate::koma_moves::dir_offset;
use crate::kyokumen::{KyokumenView, on_board};
use crate::control::{ray_reaches, piece_gives, lemma_ray_direction};
use crate::gen_spec::{add_move_spec, add_straight_spec, slide_spec, add_moves_spec, board_moves_spec,
    quiet_moves_spec, legal_moves_spec, pin_allows, piece, file_drops, hand_drops, first_step_bit,
    king_step_spec, king_steps_from, move_king_spec};
use crate::generated::line_of;
use crate::te::Te;

verus! {

/// Whether `moves` holds a move from `from` to `to`.
pub open spec fn lists_move(moves: Seq<Te>, from: int, to: int) -> bool {
    exists|i: int| 0 <= i < moves.len() && (#[trigger] moves[i]).from as int == from && moves[i].to as int == to
}

/// A move listed in either part is listed in the two joined.
proof fn lemma_lists_add(a: Seq<Te>, b: Seq<Te>, from: int, to: int)
    ensures
        lists_move(a, from, to) || lists_move(b, from, to) ==> lists_move(a + b, from, to),
{
    if lists_move(a, from, to) {
        let i = choose|i: int| 0 <= i < a.len() && (#[trigger] a[i]).from as int == from && a[i].to as int == to;
        assert((a + b)[i] == a[i]);
    } else if lists_move(b, from, to) {
        let i = choose|i: int| 0 <= i < b.len() && (#[trigger] b[i]).from as int == from && b[i].to as int == to;
        assert((a + b)[a.len() + i] == b[i]);
    }
}

/// A step or first slide square onto a square without a piece of `side`
/// is among the moves `add_move_spec` gives, when the pin allows it.
proof fn lemma_move_listed(v: KyokumenView, side: KomaInf, from: int, diff: int, pin: int)
    requires
        on_board(from),
        diff != 0,
        0 <= from + diff < 176,
        v.ban[from + diff].value() & side.value() == 0,
        pin == 0 || pin == diff || pin == -diff,
    ensures
        lists_move(add_move_spec(v, side, from, diff, pin, 0), from, from + diff),
{
    reveal(add_move_spec);
    let m = add_move_spec(v, side, from, diff, pin, 0);
    assert(m.len() >= 1);
    assert(m[0].from as int == from && m[0].to as int == from + diff);
}

/// Every square along a slide, up to and including the first occupied one
/// when it holds no piece of `side`, is among the moves of the slide.
proof fn lemma_slide_listed(v: KyokumenView, side: KomaInf, from: int, dir: int, i: int, to: int)
    requires
        v.ban.len() == 176,
        on_board(from),
        dir != 0,
        -18 <= dir <= 18,
        dir > 0 ==> i > 0,
        dir < 0 ==> i < 0,
        ray_reaches(v.ban, from + i - dir, dir, to),
        v.ban[to].value() & side.value() == 0,
    ensures
        lists_move(slide_spec(v, side, from, dir, i), from, to),
    decreases (if dir > 0 { 176 - (from + i) } else { from + i }),
{
    let t = from + i;
    lemma_ray_direction(v.ban, t - dir, dir, to);
    if t == to {
        lemma_move_listed(v, side, from, i, 0);
        if v.ban[t] == KomaInf::EMP && 0 <= t + dir < 176 {
            lemma_lists_add(add_move_spec(v, side, from, i, 0, 0), slide_spec(v, side, from, dir, i + dir), from, to);
        }
    } else {
        assert(v.ban[t] == KomaInf::EMP);
        assert(ray_reaches(v.ban, t, dir, to));
        assert(0 <= t + dir < 176);
        lemma_ray_direction(v.ban, t, dir, to);
        lemma_slide_listed(v, side, from, dir, i + dir, to);
        lemma_lists_add(add_move_spec(v, side, from, i, 0, 0), slide_spec(v, side, from, dir, i + dir), from, to);
    }
}

/// A square along a slide of the piece on `from` in direction `d` is among
/// its straight moves, when the pin allows the line.
proof fn lemma_straight_listed(v: KyokumenView, side: KomaInf, from: int, dir: int, pin: int, d: int, to: int)
    requires
        v.ban.len() == 176,
        on_board(from),
        0 <= d < 8,
        dir == dir_offset(d),
    ensures
        ray_reaches(v.ban, from, dir, to) && v.ban[to].value() & side.value() == 0
            && (pin == 0 || pin == dir || pin == -dir) ==> lists_move(add_straight_spec(v, side, from, dir, pin, 0), from, to),
{
    reveal(add_straight_spec);
    if ray_reaches(v.ban, from, dir, to) && v.ban[to].value() & side.value() == 0
        && (pin == 0 || pin == dir || pin == -dir) {
        lemma_slide_listed(v, side, from, dir, dir, to);
    }
}

/// A step of the piece on `from` in direction `d` is among its moves, when
/// the pin allows the line.
proof fn lemma_step_listed(v: KyokumenView, side: KomaInf, from: int, diff: int, pin: int, d: int, to: int)
    requires
        on_board(from),
        0 <= d < 12,
        diff == dir_offset(d),
    ensures
        to == from + diff && 0 <= to < 176 && v.ban[to].value() & side.value() == 0
            && (pin == 0 || pin == diff || pin == -diff) ==> lists_move(add_move_spec(v, side, from, diff, pin, 0), from, to),
{
    if to == from + diff && 0 <= to < 176 && v.ban[to].value() & side.value() == 0
        && (pin == 0 || pin == diff || pin == -diff) {
        lemma_move_listed(v, side, from, diff, pin);
    }
}

/// A move of the piece on `from`, not a king, onto a square it reaches
/// and that holds no piece of `side`, along a line the pin entry `pin`
/// allows, is among its moves.
proof fn lemma_add_moves_listed(v: KyokumenView, side: KomaInf, from: int, pin: int, to: int, b: int)
    requires
        v.ban.len() == 176,
        on_board(from),
        v.ban[from] != KomaInf::SOU,
        v.ban[from] != KomaInf::EOU,
        0 <= b < 24,
        piece_gives(v.ban, from, to, b),
        0 <= to < 176,
        v.ban[to].value() & side.value() == 0,
        pin == 0 || pin == dir_offset(line_of(b)) || pin == -dir_offset(line_of(b)),
    ensures
        lists_move(add_moves_spec(v, side, from, pin, 0), from, to),
{
    let a = |x: int| add_move_spec(v, side, from, x, pin, 0);
    let st = |x: int| add_straight_spec(v, side, from, x, pin, 0);
    match v.ban[from] {
        KomaInf::SFU => {
            lemma_step_listed(v, side, from, -1, pin, 6, to);
        },
        KomaInf::EFU => {
            lemma_step_listed(v, side, from, 1, pin, 1, to);
        },
        KomaInf::SKY => {
            lemma_straight_listed(v, side, from, -1, pin, 6, to);
        },
        KomaInf::EKY => {
            lemma_straight_listed(v, side, from, 1, pin, 1, to);
        },
        KomaInf::SKE => {
            lemma_step_listed(v, side, from, 14, pin, 8, to);
            lemma_step_listed(v, side, from, -18, pin, 9, to);
            lemma_lists_add(a(14), a(-18), from, to);
        },
        KomaInf::EKE => {
            lemma_step_listed(v, side, from, -14, pin, 11, to);
            lemma_step_listed(v, side, from, 18, pin, 10, to);
            lemma_lists_add(a(-14), a(18), from, to);
        },
        KomaInf::SGI => {
            lemma_step_listed(v, side, from, -1, pin, 6, to);
            lemma_step_listed(v, side, from, -17, pin, 7, to);
            lemma_step_listed(v, side, from, 15, pin, 5, to);
            lemma_step_listed(v, side, from, 17, pin, 0, to);
            lemma_step_listed(v, side, from, -15, pin, 2, to);
            lemma_lists_add(a(-1), a(-17), from, to);
            lemma_lists_add(a(-1) + a(-17), a(15), from, to);
            lemma_lists_add(a(-1) + a(-17) + a(15), a(17), from, to);
            lemma_lists_add(a(-1) + a(-17) + a(15) + a(17), a(-15), from, to);
        },
        KomaInf::EGI => {
            lemma_step_listed(v, side, from, 1, pin, 1, to);
            lemma_step_listed(v, side, from, 17, pin, 0, to);
            lemma_step_listed(v, side, from, -15, pin, 2, to);
            lemma_step_listed(v, side, from, -17, pin, 7, to);
            lemma_step_listed(v, side, from, 15, pin, 5, to);
            lemma_lists_add(a(1), a(17), from, to);
            lemma_lists_add(a(1) + a(17), a(-15), from, to);
            lemma_lists_add(a(1) + a(17) + a(-15), a(-17), from, to);
            lemma_lists_add(a(1) + a(17) + a(-15) + a(-17), a(15), from, to);
        },
        KomaInf::SKI | KomaInf::STO | KomaInf::SNY | KomaInf::SNK | KomaInf::SNG => {
            lemma_step_listed(v, side, from, -1, pin, 6, to);
            lemma_step_listed(v, side, from, -17, pin, 7, to);
            lemma_step_listed(v, side, from, 15, pin, 5, to);
            lemma_step_listed(v, side, from, 1, pin, 1, to);
            lemma_step_listed(v, side, from, -16, pin, 4, to);
            lemma_step_listed(v, side, from, 16, pin, 3, to);
            lemma_lists_add(a(-1), a(-17), from, to);
            lemma_lists_add(a(-1) + a(-17), a(15), from, to);
            lemma_lists_add(a(-1) + a(-17) + a(15), a(1), from, to);
            lemma_lists_add(a(-1) + a(-17) + a(15) + a(1), a(-16), from, to);
            lemma_lists_add(a(-1) + a(-17) + a(15) + a(1) + a(-16), a(16), from, to);
        },
        KomaInf::EKI | KomaInf::ETO | KomaInf::ENY | KomaInf::ENK | KomaInf::ENG => {
            lemma_step_listed(v, side, from, 1, pin, 1, to);
            lemma_step_listed(v, side, from, 17, pin, 0, to);
            lemma_step_listed(v, side, from, -15, pin, 2, to);
            lemma_step_listed(v, side, from, -1, pin, 6, to);
            lemma_step_listed(v, side, from, -16, pin, 4, to);
            lemma_step_listed(v, side, from, 16, pin, 3, to);
            lemma_lists_add(a(1), a(17), from, to);
            lemma_lists_add(a(1) + a(17), a(-15), from, to);
            lemma_lists_add(a(1) + a(17) + a(-15), a(-1), from, to);
            lemma_lists_add(a(1) + a(17) + a(-15) + a(-1), a(-16), from, to);
            lemma_lists_add(a(1) + a(17) + a(-15) + a(-1) + a(-16), a(16), from, to);
        },
        KomaInf::SRY | KomaInf::ERY => {
            lemma_straight_listed(v, side, from, 1, pin, 1, to);
            lemma_straight_listed(v, side, from, -1, pin, 6, to);
            lemma_straight_listed(v, side, from, -16, pin, 4, to);
            lemma_straight_listed(v, side, from, 16, pin, 3, to);
            lemma_step_listed(v, side, from, 17, pin, 0, to);
            lemma_step_listed(v, side, from, -15, pin, 2, to);
            lemma_step_listed(v, side, from, -17, pin, 7, to);
            lemma_step_listed(v, side, from, 15, pin, 5, to);
            lemma_lists_add(st(1), st(-1), from, to);
            lemma_lists_add(st(1) + st(-1), st(-16), from, to);
            lemma_lists_add(st(1) + st(-1) + st(-16), st(16), from, to);
            lemma_lists_add(st(1) + st(-1) + st(-16) + st(16), a(17), from, to);
            lemma_lists_add(st(1) + st(-1) + st(-16) + st(16) + a(17), a(-15), from, to);
            lemma_lists_add(st(1) + st(-1) + st(-16) + st(16) + a(17) + a(-15), a(-17), from, to);
            lemma_lists_add(st(1) + st(-1) + st(-16) + st(16) + a(17) + a(-15) + a(-17), a(15), from, to);
        },
        KomaInf::SHI | KomaInf::EHI => {
            lemma_straight_listed(v, side, from, 1, pin, 1, to);
            lemma_straight_listed(v, side, from, -1, pin, 6, to);
            lemma_straight_listed(v, side, from, -16, pin, 4, to);
            lemma_straight_listed(v, side, from, 16, pin, 3, to);
            lemma_lists_add(st(1), st(-1), from, to);
            lemma_lists_add(st(1) + st(-1), st(-16), from, to);
            lemma_lists_add(st(1) + st(-1) + st(-16), st(16), from, to);
        },
        KomaInf::SUM | KomaInf::EUM => {
            lemma_straight_listed(v, side, from, 17, pin, 0, to);
            lemma_straight_listed(v, side, from, -17, pin, 7, to);
            lemma_straight_listed(v, side, from, 15, pin, 5, to);
            lemma_straight_listed(v, side, from, -15, pin, 2, to);
            lemma_step_listed(v, side, from, 1, pin, 1, to);
            lemma_step_listed(v, side, from, 16, pin, 3, to);
            lemma_step_listed(v, side, from, -16, pin, 4, to);
            lemma_step_listed(v, side, from, -1, pin, 6, to);
            lemma_lists_add(st(17), st(-17), from, to);
            lemma_lists_add(st(17) + st(-17), st(15), from, to);
            lemma_lists_add(st(17) + st(-17) + st(15), st(-15), from, to);
            lemma_lists_add(st(17) + st(-17) + st(15) + st(-15), a(1), from, to);
            lemma_lists_add(st(17) + st(-17) + st(15) + st(-15) + a(1), a(16), from, to);
            lemma_lists_add(st(17) + st(-17) + st(15) + st(-15) + a(1) + a(16), a(-16), from, to);
            lemma_lists_add(st(17) + st(-17) + st(15) + st(-15) + a(1) + a(16) + a(-16), a(-1), from, to);
        },
        KomaInf::SKA | KomaInf::EKA => {
            lemma_straight_listed(v, side, from, 17, pin, 0, to);
            lemma_straight_listed(v, side, from, -17, pin, 7, to);
            lemma_straight_listed(v, side, from, 15, pin, 5, to);
            lemma_straight_listed(v, side, from, -15, pin, 2, to);
            lemma_lists_add(st(17), st(-17), from, to);
            lemma_lists_add(st(17) + st(-17), st(15), from, to);
            lemma_lists_add(st(17) + st(-17) + st(15), st(-15), from, to);
        },
        _ => {},
    }
}

/// The moves of the piece on `from` are among the board moves from file
/// `s`, rank `d` on, when `from` is not before that point.
proof fn lemma_board_listed(v: KyokumenView, side: KomaInf, pin: Seq<isize>, s: int, d: int, from: int, to: int)
    requires
        on_board(from),
        1 <= s,
        1 <= d,
        s < from / 16 || (s == from / 16 && d <= from % 16),
        v.ban[from].value() & side.value() != 0,
        lists_move(add_moves_spec(v, side, from, pin[from] as int, 0), from, to),
    ensures
        lists_move(board_moves_spec(v, side, pin, s, d), from, to),
    decreases 10 - s, 10 - d,
{
    if d > 9 {
        lemma_board_listed(v, side, pin, s + 1, 1, from, to);
    } else {
        let sq = 16 * s + d;
        let head = if v.ban[sq].value() & side.value() != 0 { add_moves_spec(v, side, sq, pin[sq] as int, 0) } else { seq![] };
        if sq != from {
            lemma_board_listed(v, side, pin, s, d + 1, from, to);
        }
        lemma_lists_add(head, board_moves_spec(v, side, pin, s, d + 1), from, to);
    }
}

/// Out of check, whatever the board moves from file 1, rank 1 on list
/// is listed by the generator.
proof fn lemma_board_to_legal(v: KyokumenView, side: KomaInf, pin: Seq<isize>, from: int, to: int)
    requires
        v.control(side.opponent())[v.king(side) as int] == 0,
        lists_move(board_moves_spec(v, side, pin, 1, 1), from, to),
    ensures
        lists_move(legal_moves_spec(v, side, pin), from, to),
{
    let fu = piece(side, KomaInf::FU);
    let ky = piece(side, KomaInf::KY);
    let ke = piece(side, KomaInf::KE);
    let own = side == KomaInf::Self_;
    let bm = board_moves_spec(v, side, pin, 1, 1);
    let d1 = if v.hand[fu.value() as int] > 0 { file_drops(v, side, pin, fu, true, 1, if own { 2 } else { 1 }, if own { 9 } else { 8 }) } else { seq![] };
    let d2 = if v.hand[ky.value() as int] > 0 { file_drops(v, side, pin, ky, false, 1, if own { 2 } else { 1 }, if own { 9 } else { 8 }) } else { seq![] };
    let d3 = if v.hand[ke.value() as int] > 0 { file_drops(v, side, pin, ke, false, 1, if own { 3 } else { 1 }, if own { 9 } else { 7 }) } else { seq![] };
    let d4 = hand_drops(v, side, pin, 4);
    lemma_lists_add(bm, d1, from, to);
    lemma_lists_add(bm + d1, d2, from, to);
    lemma_lists_add(bm + d1 + d2, d3, from, to);
    lemma_lists_add(bm + d1 + d2 + d3, d4, from, to);
    assert(quiet_moves_spec(v, side, pin) == bm + d1 + d2 + d3 + d4);
}

/// Out of check, the generator lists every move of a piece of `side`
/// other than the king onto a square that piece reaches (see
/// `piece_gives`) and that holds no piece of `side`, along a line its entry
/// in the pin table allows (with the promotion choices `add_move_spec`
/// gives).
pub proof fn lemma_quiet_moves_complete(v: KyokumenView, side: KomaInf, pin: Seq<isize>, from: int, to: int, b: int)
    requires
        v.ban.len() == 176,
        side.is_side(),
        v.control(side.opponent())[v.king(side) as int] == 0,
        on_board(from),
        v.ban[from].value() & side.value() != 0,
        v.ban[from] != piece(side, KomaInf::OU),
        0 <= b < 24,
        piece_gives(v.ban, from, to, b),
        0 <= to < 176,
        v.ban[to].value() & side.value() == 0,
        pin_allows(pin[from], dir_offset(line_of(b))),
    ensures
        lists_move(legal_moves_spec(v, side, pin), from, to),
{
    assert(v.ban[from] != KomaInf::SOU && v.ban[from] != KomaInf::EOU) by {
        crate::koma_inf::lemma_mark_kind(8u8);
        KomaInf::lemma_from_value((side.value() | 8u8) as u8);
        lemma_bit4(v.ban[from].value());
        lemma_bit5(v.ban[from].value());
    }
    lemma_add_moves_listed(v, side, from, pin[from] as int, to, b);
    lemma_board_listed(v, side, pin, 1, 1, from, to);
    lemma_board_to_legal(v, side, pin, from, to);
}

/// A step of the king kept by `king_step_spec` is among the steps from
/// direction `j` on.
proof fn lemma_king_steps_listed(v: KyokumenView, side: KomaInf, kiki: usize, skip: Option<int>, i: int, j: int, from: int, to: int)
    requires
        0 <= j <= i < 8,
        skip != Some(i),
        lists_move(king_step_spec(v, side, kiki, i), from, to),
    ensures
        lists_move(king_steps_from(v, side, kiki, skip, j), from, to),
    decreases i - j,
{
    if j < i {
        lemma_king_steps_listed(v, side, kiki, skip, i, j + 1, from, to);
    }
    if skip != Some(j) {
        lemma_lists_add(king_step_spec(v, side, kiki, j), king_steps_from(v, side, kiki, skip, j + 1), from, to);
    }
}

/// The king's moves (`move_king_spec`) list every step that
/// `king_step_spec` keeps.
proof fn lemma_move_king_listed(v: KyokumenView, side: KomaInf, kiki: usize, i: int, from: int, to: int)
    requires
        0 <= i < 8,
        lists_move(king_step_spec(v, side, kiki, i), from, to),
    ensures
        lists_move(move_king_spec(v, side, kiki), from, to),
{
    reveal(move_king_spec);
    let id = first_step_bit(kiki, 0);
    let first = match id {
        Some(j) => king_step_spec(v, side, kiki, j),
        None => seq![],
    };
    if id != Some(i) {
        lemma_king_steps_listed(v, side, kiki, id, i, 0, from, to);
    }
    lemma_lists_add(first, king_steps_from(v, side, kiki, id, 0), from, to);
}

/// Out of check, the generator lists every step of the king of `side`
/// onto a neighbouring square that is empty or holds a piece of the
/// other player, and that the other player does not reach.
pub proof fn lemma_king_moves_complete(v: KyokumenView, side: KomaInf, pin: Seq<isize>, i: int)
    requires
        v.ban.len() == 176,
        side.is_side(),
        on_board(v.king(side) as int),
        v.ban[v.king(side) as int] == piece(side, KomaInf::OU),
        v.control(side.opponent())[v.king(side) as int] == 0,
        0 <= i < 8,
        v.ban[v.king(side) - dir_offset(i)] == KomaInf::EMP
            || v.ban[v.king(side) - dir_offset(i)].value() & side.opponent().value() != 0,
        v.ban[v.king(side) - dir_offset(i)].value() & side.value() == 0,
        v.control(side.opponent())[v.king(side) - dir_offset(i)] == 0,
    ensures
        lists_move(legal_moves_spec(v, side, pin), v.king(side) as int, v.king(side) - dir_offset(i)),
{
    let king = v.king(side) as int;
    let sq = king - dir_offset(i);
    let k = (23 - i) as usize;
    assert(0usize & (1usize << k) == 0) by (bit_vector);
    lemma_move_listed(v, side, king, -dir_offset(i), 0);
    assert(lists_move(king_step_spec(v, side, 0, i), king, sq));
    lemma_move_king_listed(v, side, 0, i, king, sq);
    assert(v.ban[king] == KomaInf::SOU || v.ban[king] == KomaInf::EOU) by {
        crate::koma_inf::lemma_mark_kind(8u8);
        KomaInf::lemma_from_value((side.value() | 8u8) as u8);
    }
    assert(v.ban[king].value() & side.value() != 0) by {
        crate::koma_inf::lemma_mark_kind(8u8);
        assert(24u8 & 16u8 != 0) by (bit_vector);
        assert(40u8 & 32u8 != 0) by (bit_vector);
    }
    lemma_board_listed(v, side, pin, 1, 1, king, sq);
    lemma_board_to_legal(v, side, pin, king, sq);
}

/// Whether `moves` holds the drop of `k` on `to`.
pub open spec fn lists_drop(moves: Seq<Te>, k: KomaInf, to: int) -> bool {
    exists|i: int| 0 <= i < moves.len() && (#[trigger] moves[i]).from == 0 && moves[i].to as int == to
        && moves[i].koma == k.value()
}

/// A drop listed in either part is listed in the two joined.
proof fn lemma_drop_add(a: Seq<Te>, b: Seq<Te>, k: KomaInf, to: int)
    ensures
        lists_drop(a, k, to) || lists_drop(b, k, to) ==> lists_drop(a + b, k, to),
{
    if lists_drop(a, k, to) {
        let i = choose|i: int| 0 <= i < a.len() && (#[trigger] a[i]).from == 0 && a[i].to as int == to
            && a[i].koma == k.value();
        assert((a + b)[i] == a[i]);
    } else if lists_drop(b, k, to) {
        let i = choose|i: int| 0 <= i < b.len() && (#[trigger] b[i]).from == 0 && b[i].to as int == to
            && b[i].koma == k.value();
        assert((a + b)[a.len() + i] == b[i]);
    }
}

/// The drops down file `s` from rank `d` list the drop on each empty
/// square of ranks `d..=hi` (for a pawn, where the pawn-drop test says no).
proof fn lemma_column_listed(v: KyokumenView, side: KomaInf, pin: Seq<isize>, k: KomaInf, fu: bool, s: int, d: int, hi: int, r: int)
    requires
        1 <= s <= 9,
        1 <= d <= r <= hi,
        r <= 9,
        v.ban[16 * s + r] == KomaInf::EMP,
        !(fu && crate::gen_spec::utifudume_spec(v, side, 16 * s + r, pin)),
    ensures
        lists_drop(crate::gen_spec::column_drops(v, side, pin, k, fu, s, d, hi), k, 16 * s + r),
    decreases r - d,
{
    let sq = 16 * s + d;
    let head = if v.ban[sq] == KomaInf::EMP && !(fu && crate::gen_spec::utifudume_spec(v, side, sq, pin)) {
        seq![crate::te::te_of(0, sq, k, KomaInf::EMP, 0)]
    } else {
        seq![]
    };
    if d < r {
        lemma_column_listed(v, side, pin, k, fu, s, d + 1, hi, r);
    } else {
        assert(head[0].to as int == sq);
    }
    lemma_drop_add(head, crate::gen_spec::column_drops(v, side, pin, k, fu, s, d + 1, hi), k, 16 * s + r);
}

/// The drops over files `s..=9` list the drop on each empty square of
/// ranks `lo..=hi` (for a pawn, on files without a pawn of `side` and
/// where the pawn-drop test says no).
proof fn lemma_file_listed(v: KyokumenView, side: KomaInf, pin: Seq<isize>, k: KomaInf, fu: bool, s: int, lo: int, hi: int, s2: int, r: int)
    requires
        1 <= s <= s2 <= 9,
        1 <= lo <= r <= hi,
        r <= 9,
        v.ban[16 * s2 + r] == KomaInf::EMP,
        !(fu && crate::gen_spec::utifudume_spec(v, side, 16 * s2 + r, pin)),
        !(fu && crate::gen_spec::nifu(v, side, 16 * s2)),
    ensures
        lists_drop(file_drops(v, side, pin, k, fu, s, lo, hi), k, 16 * s2 + r),
    decreases s2 - s,
{
    let head = if fu && crate::gen_spec::nifu(v, side, 16 * s) { seq![] } else { crate::gen_spec::column_drops(v, side, pin, k, fu, s, lo, hi) };
    if s < s2 {
        lemma_file_listed(v, side, pin, k, fu, s + 1, lo, hi, s2, r);
    } else {
        lemma_column_listed(v, side, pin, k, fu, s, lo, hi, r);
    }
    lemma_drop_add(head, file_drops(v, side, pin, k, fu, s + 1, lo, hi), k, 16 * s2 + r);
}

/// The drops of silver to rook, kinds `koma..=7`, list the drop of each
/// kind in hand on each empty square.
proof fn lemma_hand_listed(v: KyokumenView, side: KomaInf, pin: Seq<isize>, koma: int, kk: int, to: int)
    requires
        4 <= koma <= kk <= 7,
        v.hand[(side.value() | kk as u8) as int] > 0,
        on_board(to),
        v.ban[to] == KomaInf::EMP,
    ensures
        lists_drop(hand_drops(v, side, pin, koma), KomaInf::from_value((side.value() | kk as u8) as u8).unwrap(), to),
    decreases kk - koma,
{
    let k = KomaInf::from_value((side.value() | kk as u8) as u8).unwrap();
    let kh = KomaInf::from_value((side.value() | koma as u8) as u8).unwrap();
    let head = if v.hand[(side.value() | koma as u8) as int] > 0 { file_drops(v, side, pin, kh, false, 1, 1, 9) } else { seq![] };
    if koma < kk {
        lemma_hand_listed(v, side, pin, koma + 1, kk, to);
    } else {
        assert(to == 16 * (to / 16) + to % 16);
        lemma_file_listed(v, side, pin, k, false, 1, 1, 9, to / 16, to % 16);
    }
    lemma_drop_add(head, hand_drops(v, side, pin, koma + 1), k, to);
}

/// Out of check, the generator lists the drop of every kind of piece that
/// `side` holds in hand onto every empty square where the piece can still
/// move: not the last rank for a pawn or a lance, not the last two for a
/// knight; for a pawn, only on a file without a pawn of `side`, and not
/// where the pawn-drop test (`utifudume_spec`) finds a pawn-drop mate.
pub proof fn lemma_drops_complete(v: KyokumenView, side: KomaInf, pin: Seq<isize>, kk: int, to: int)
    requires
        side.is_side(),
        v.control(side.opponent())[v.king(side) as int] == 0,
        1 <= kk <= 7,
        on_board(to),
        v.ban[to] == KomaInf::EMP,
        v.hand[(side.value() | kk as u8) as int] > 0,
        kk <= 2 ==> crate::gen_spec::rank_for(side, to) > 1,
        kk == 3 ==> crate::gen_spec::rank_for(side, to) > 2,
        kk == 1 ==> !crate::gen_spec::nifu(v, side, to - to % 16)
            && !crate::gen_spec::utifudume_spec(v, side, to, pin),
    ensures
        lists_drop(legal_moves_spec(v, side, pin), KomaInf::from_value((side.value() | kk as u8) as u8).unwrap(), to),
{
    let k = KomaInf::from_value((side.value() | kk as u8) as u8).unwrap();
    let fu = piece(side, KomaInf::FU);
    let ky = piece(side, KomaInf::KY);
    let ke = piece(side, KomaInf::KE);
    let own = side == KomaInf::Self_;
    let bm = board_moves_spec(v, side, pin, 1, 1);
    let d1 = if v.hand[fu.value() as int] > 0 { file_drops(v, side, pin, fu, true, 1, if own { 2 } else { 1 }, if own { 9 } else { 8 }) } else { seq![] };
    let d2 = if v.hand[ky.value() as int] > 0 { file_drops(v, side, pin, ky, false, 1, if own { 2 } else { 1 }, if own { 9 } else { 8 }) } else { seq![] };
    let d3 = if v.hand[ke.value() as int] > 0 { file_drops(v, side, pin, ke, false, 1, if own { 3 } else { 1 }, if own { 9 } else { 7 }) } else { seq![] };
    let d4 = hand_drops(v, side, pin, 4);
    let s2 = to / 16;
    let r = to % 16;
    assert(to == 16 * s2 + r);
    assert(to - to % 16 == 16 * s2);
    crate::koma_inf::lemma_mark_kind(1u8);
    crate::koma_inf::lemma_mark_kind(2u8);
    crate::koma_inf::lemma_mark_kind(3u8);
    KomaInf::lemma_from_value((side.value() | 1u8) as u8);
    KomaInf::lemma_from_value((side.value() | 2u8) as u8);
    KomaInf::lemma_from_value((side.value() | 3u8) as u8);
    if kk == 1 {
        assert(k == fu);
        lemma_file_listed(v, side, pin, fu, true, 1, if own { 2 } else { 1 }, if own { 9 } else { 8 }, s2, r);
    } else if kk == 2 {
        assert(k == ky);
        lemma_file_listed(v, side, pin, ky, false, 1, if own { 2 } else { 1 }, if own { 9 } else { 8 }, s2, r);
    } else if kk == 3 {
        assert(k == ke);
        lemma_file_listed(v, side, pin, ke, false, 1, if own { 3 } else { 1 }, if own { 9 } else { 7 }, s2, r);
    } else {
        lemma_hand_listed(v, side, pin, 4, kk, to);
    }
    lemma_drop_add(bm, d1, k, to);
    lemma_drop_add(bm + d1, d2, k, to);
    lemma_drop_add(bm + d1 + d2, d3, k, to);
    lemma_drop_add(bm + d1 + d2 + d3, d4, k, to);
    assert(quiet_moves_spec(v, side, pin) == bm + d1 + d2 + d3 + d4);
}

/// Going back from `x` against a slide that reaches it, the first piece
/// met is the sliding one.
pub proof fn lemma_ray_walk(v: KyokumenView, from: int, o: int, x: int)
    requires
        ray_reaches(v.ban, from, o, x),
        0 <= from < 176,
        v.ban[from] != KomaInf::EMP,
    ensures
        v.walk(x, -o) == from,
    decreases (if o > 0 { x - from } else { from - x }),
{
    lemma_ray_direction(v.ban, from, o, x);
    if x - o != from {
        crate::rays::lemma_ray_prefix(v.ban, from, o, x);
        lemma_ray_direction(v.ban, from, o, x - o);
        lemma_ray_walk(v, from, o, x - o);
    }
}

/// The moves onto `to` along direction `dir` list a move of the piece on
/// `from`, not a king, that reaches `to` by bit `b` of that line, when
/// the pin allows it.
proof fn lemma_move_to_dir_listed(v: KyokumenView, side: KomaInf, to: int, pin: Seq<isize>, from: int, b: int)
    requires
        v.ban.len() == 176,
        on_board(from),
        v.ban[from].value() & side.value() != 0,
        v.ban[from] != piece(side, KomaInf::OU),
        0 <= b < 24,
        piece_gives(v.ban, from, to, b),
        0 <= to < 176,
        v.ban[to].value() & side.value() == 0,
        pin_allows(pin[from], dir_offset(line_of(b))),
    ensures
        lists_move(crate::gen_spec::move_to_dir(v, side, to, pin, line_of(b)), from, to),
{
    let d = line_of(b);
    let o = dir_offset(d);
    assert(v.ban[from] != KomaInf::EMP);
    if b < 12 {
        lemma_move_listed(v, side, from, o, 0);
    } else {
        lemma_ray_direction(v.ban, from, o, to);
        if to - o == from {
            lemma_move_listed(v, side, from, o, 0);
        } else {
            crate::rays::lemma_ray_prefix(v.ban, from, o, to);
            lemma_ray_walk(v, from, o, to);
            lemma_move_listed(v, side, from, to - from, 0);
        }
    }
}

/// The moves onto `to` over directions `j..12` hold those along any
/// direction `d` in that range.
proof fn lemma_move_to_from_listed(v: KyokumenView, side: KomaInf, to: int, pin: Seq<isize>, j: int, d: int, from: int)
    requires
        0 <= j <= d < 12,
        lists_move(crate::gen_spec::move_to_dir(v, side, to, pin, d), from, to),
    ensures
        lists_move(crate::gen_spec::move_to_from(v, side, to, pin, j), from, to),
    decreases d - j,
{
    if j < d {
        lemma_move_to_from_listed(v, side, to, pin, j + 1, d, from);
    }
    lemma_lists_add(crate::gen_spec::move_to_dir(v, side, to, pin, j), crate::gen_spec::move_to_from(v, side, to, pin, j + 1), from, to);
}

/// The moves onto `to` (`move_to_spec`) list every move of a piece of
/// `side` other than the king that reaches `to` and whose pin allows it.
pub proof fn lemma_move_to_complete(v: KyokumenView, side: KomaInf, to: int, pin: Seq<isize>, from: int, b: int)
    requires
        v.ban.len() == 176,
        on_board(from),
        v.ban[from].value() & side.value() != 0,
        v.ban[from] != piece(side, KomaInf::OU),
        0 <= b < 24,
        piece_gives(v.ban, from, to, b),
        0 <= to < 176,
        v.ban[to].value() & side.value() == 0,
        pin_allows(pin[from], dir_offset(line_of(b))),
    ensures
        lists_move(crate::gen_spec::move_to_spec(v, side, to, pin), from, to),
{
    lemma_move_to_dir_listed(v, side, to, pin, from, b);
    lemma_move_to_from_listed(v, side, to, pin, 0, line_of(b), from);
}

/// A single bit `id` is found by `single_bit_index`, and leaves no other
/// bit set.
proof fn lemma_single_bit(id: int)
    requires
        0 <= id < 24,
    ensures
        crate::gen_spec::single_bit_index(1usize << (id as usize), 0) == id,
        (1usize << (id as usize)) & (((1usize << (id as usize)) - 1) as usize) == 0,
        (1usize << (id as usize)) != 0,
{
    let c = id as usize;
    assert((1usize << c) & (((1usize << c) - 1) as usize) == 0 && (1usize << c) != 0) by (bit_vector)
        requires c < 24usize;
    lemma_single_bit_from(id, 0);
}

proof fn lemma_single_bit_from(id: int, i: int)
    requires
        0 <= i <= id < 24,
    ensures
        crate::gen_spec::single_bit_index(1usize << (id as usize), i) == id,
    decreases id - i,
{
    if i < id {
        let a = i as usize;
        let c = id as usize;
        assert(1usize << a != 1usize << c) by (bit_vector)
            requires a < c, c < 24usize;
        lemma_single_bit_from(id, i + 1);
    }
}

/// The parts of the answers to check: the king's moves always, and for a
/// single check the moves onto the checking square and, against a slide,
/// the moves and drops onto the squares between.
proof fn lemma_anti_check_parts(v: KyokumenView, side: KomaInf, pin: Seq<isize>, kiki: usize, f: int, t: int, k: KomaInf)
    ensures
        lists_move(move_king_spec(v, side, kiki), f, t) ==> lists_move(crate::gen_spec::anti_check_spec(v, side, pin, kiki), f, t),
        ({
            let king = v.king(side) as int;
            let id = crate::gen_spec::single_bit_index(kiki, 0);
            let off = dir_offset(id - 16);
            &&& kiki & ((kiki - 1) as usize) == 0
                && lists_move(crate::gen_spec::move_to_spec(v, side, crate::gen_spec::checking_square(v, king, id), pin), f, t)
                ==> lists_move(crate::gen_spec::anti_check_spec(v, side, pin, kiki), f, t)
            &&& kiki & ((kiki - 1) as usize) == 0 && id >= 16
                && lists_move(crate::gen_spec::interpose_moves(v, side, king - off, off, pin), f, t)
                ==> lists_move(crate::gen_spec::anti_check_spec(v, side, pin, kiki), f, t)
            &&& kiki & ((kiki - 1) as usize) == 0 && id >= 16
                && lists_drop(crate::gen_spec::interpose_spec(v, side, king - off, off, pin), k, t)
                ==> lists_drop(crate::gen_spec::anti_check_spec(v, side, pin, kiki), k, t)
        }),
{
    reveal(crate::gen_spec::anti_check_spec);
    let king = v.king(side) as int;
    let id = crate::gen_spec::single_bit_index(kiki, 0);
    let check = crate::gen_spec::checking_square(v, king, id);
    let m1 = crate::gen_spec::move_to_spec(v, side, check, pin);
    let m2 = move_king_spec(v, side, kiki);
    let off = dir_offset(id - 16);
    let m3 = crate::gen_spec::interpose_moves(v, side, king - off, off, pin);
    let m4 = crate::gen_spec::interpose_spec(v, side, king - off, off, pin);
    lemma_lists_add(m1, m2, f, t);
    lemma_lists_add(m1 + m2, m3, f, t);
    lemma_lists_add(m1 + m2 + m3, m4, f, t);
    lemma_drop_add(m1 + m2 + m3, m4, k, t);
}

/// In check, the generator lists every step of the king of `side` onto a
/// neighbouring square that is empty or holds a piece of the other
/// player, that the other player does not reach, and that is not on the
/// far side of a sliding check (bit `23 - i` of the checks on the king).
pub proof fn lemma_king_escapes_complete(v: KyokumenView, side: KomaInf, pin: Seq<isize>, i: int)
    requires
        v.ban.len() == 176,
        side.is_side(),
        on_board(v.king(side) as int),
        v.control(side.opponent())[v.king(side) as int] != 0,
        0 <= i < 8,
        v.ban[v.king(side) - dir_offset(i)] == KomaInf::EMP
            || v.ban[v.king(side) - dir_offset(i)].value() & side.opponent().value() != 0,
        v.ban[v.king(side) - dir_offset(i)].value() & side.value() == 0,
        v.control(side.opponent())[v.king(side) - dir_offset(i)] == 0,
        v.control(side.opponent())[v.king(side) as int] & (1usize << ((23 - i) as usize)) == 0,
    ensures
        lists_move(legal_moves_spec(v, side, pin), v.king(side) as int, v.king(side) - dir_offset(i)),
{
    let king = v.king(side) as int;
    let sq = king - dir_offset(i);
    let kiki = v.control(side.opponent())[king];
    lemma_move_listed(v, side, king, -dir_offset(i), 0);
    assert(lists_move(king_step_spec(v, side, kiki, i), king, sq));
    lemma_move_king_listed(v, side, kiki, i, king, sq);
    lemma_anti_check_parts(v, side, pin, kiki, king, sq, KomaInf::EMP);
}

/// In a single check (the checks on the king of `side` are the one bit
/// `id`, given by the piece on `c`), the generator lists every move of a
/// piece of `side` other than the king that takes the checking piece,
/// when its pin allows it.
pub proof fn lemma_captures_complete(v: KyokumenView, side: KomaInf, pin: Seq<isize>, id: int, c: int, from: int, b: int)
    requires
        v.ban.len() == 176,
        side.is_side(),
        0 <= id < 24,
        v.control(side.opponent())[v.king(side) as int] == 1usize << (id as usize),
        on_board(c),
        v.ban[c].value() & side.opponent().value() != 0,
        v.ban[c].value() & side.value() == 0,
        piece_gives(v.ban, c, v.king(side) as int, id),
        on_board(from),
        v.ban[from].value() & side.value() != 0,
        v.ban[from] != piece(side, KomaInf::OU),
        0 <= b < 24,
        piece_gives(v.ban, from, c, b),
        pin_allows(pin[from], dir_offset(line_of(b))),
    ensures
        lists_move(legal_moves_spec(v, side, pin), from, c),
{
    let king = v.king(side) as int;
    let kiki = v.control(side.opponent())[king];
    lemma_single_bit(id);
    assert(v.ban[c] != KomaInf::EMP);
    if id >= 16 {
        lemma_ray_walk(v, c, dir_offset(id - 16), king);
    }
    assert(crate::gen_spec::checking_square(v, king, id) == c);
    lemma_move_to_complete(v, side, c, pin, from, b);
    lemma_anti_check_parts(v, side, pin, kiki, from, c, KomaInf::EMP);
}

/// The moves onto the empty squares from `i` on, going `-off` at a time,
/// list the moves onto a square `x` behind `i` along that line.
proof fn lemma_interpose_moves_listed(v: KyokumenView, side: KomaInf, pin: Seq<isize>, i: int, off: int, x: int, f: int)
    requires
        v.ban.len() == 176,
        ray_reaches(v.ban, x, off, i + off),
        0 <= x < 176,
        v.ban[x] == KomaInf::EMP,
        lists_move(crate::gen_spec::move_to_spec(v, side, x, pin), f, x),
    ensures
        lists_move(crate::gen_spec::interpose_moves(v, side, i, off, pin), f, x),
    decreases (if off < 0 { 176 - i } else { i }),
{
    lemma_ray_direction(v.ban, x, off, i + off);
    let rest = if 0 <= i - off < 176 { crate::gen_spec::interpose_moves(v, side, i - off, off, pin) } else { seq![] };
    if i != x {
        crate::rays::lemma_ray_prefix(v.ban, x, off, i + off);
        lemma_ray_direction(v.ban, x, off, i);
        if i - off != x {
            crate::rays::lemma_ray_prefix(v.ban, x, off, i);
            lemma_ray_direction(v.ban, x, off, i - off);
        }
        assert(0 <= i - off < 176);
        lemma_interpose_moves_listed(v, side, pin, i - off, off, x, f);
    }
    lemma_lists_add(crate::gen_spec::move_to_spec(v, side, i, pin), rest, f, x);
}

/// The drops onto the empty squares from `i` on, going `-off` at a time,
/// list the drops onto a square `x` behind `i` along that line.
proof fn lemma_interpose_drops_listed(v: KyokumenView, side: KomaInf, pin: Seq<isize>, i: int, off: int, x: int, k: KomaInf)
    requires
        v.ban.len() == 176,
        ray_reaches(v.ban, x, off, i + off),
        0 <= x < 176,
        v.ban[x] == KomaInf::EMP,
        lists_drop(crate::gen_spec::put_to_spec(v, side, x, pin), k, x),
    ensures
        lists_drop(crate::gen_spec::interpose_spec(v, side, i, off, pin), k, x),
    decreases (if off < 0 { 176 - i } else { i }),
{
    lemma_ray_direction(v.ban, x, off, i + off);
    let rest = if 0 <= i - off < 176 { crate::gen_spec::interpose_spec(v, side, i - off, off, pin) } else { seq![] };
    if i != x {
        crate::rays::lemma_ray_prefix(v.ban, x, off, i + off);
        lemma_ray_direction(v.ban, x, off, i);
        if i - off != x {
            crate::rays::lemma_ray_prefix(v.ban, x, off, i);
            lemma_ray_direction(v.ban, x, off, i - off);
        }
        assert(0 <= i - off < 176);
        lemma_interpose_drops_listed(v, side, pin, i - off, off, x, k);
    }
    lemma_drop_add(crate::gen_spec::put_to_spec(v, side, i, pin), rest, k, x);
}

/// The drops of silver to rook on `to`, kinds `koma..=7`, list the drop
/// of each kind in hand.
proof fn lemma_drops_from_listed(v: KyokumenView, side: KomaInf, to: int, koma: int, kk: int)
    requires
        4 <= koma <= kk <= 7,
        0 <= to < 176,
        v.hand[(side.value() | kk as u8) as int] > 0,
    ensures
        lists_drop(crate::gen_spec::drops_from(v, side, to, koma), KomaInf::from_value((side.value() | kk as u8) as u8).unwrap(), to),
    decreases kk - koma,
{
    let k = KomaInf::from_value((side.value() | kk as u8) as u8).unwrap();
    let kh = KomaInf::from_value((side.value() | koma as u8) as u8).unwrap();
    let head = if v.hand[(side.value() | koma as u8) as int] > 0 { seq![crate::te::te_of(0, to, kh, KomaInf::EMP, 0)] } else { seq![] };
    if koma < kk {
        lemma_drops_from_listed(v, side, to, koma + 1, kk);
    } else {
        assert(head[0].to as int == to);
    }
    lemma_drop_add(head, crate::gen_spec::drops_from(v, side, to, koma + 1), k, to);
}

/// The drops on `to` (`put_to_spec`) list the drop of every kind in hand
/// that can still move from there (for a pawn, on a file without a pawn
/// of `side` and not where the pawn-drop test finds a pawn-drop mate).
proof fn lemma_put_to_listed(v: KyokumenView, side: KomaInf, to: int, pin: Seq<isize>, kk: int)
    requires
        side.is_side(),
        1 <= kk <= 7,
        0 <= to < 176,
        v.hand[(side.value() | kk as u8) as int] > 0,
        kk <= 2 ==> crate::gen_spec::rank_for(side, to) > 1,
        kk == 3 ==> crate::gen_spec::rank_for(side, to) > 2,
        kk == 1 ==> !crate::gen_spec::nifu(v, side, to - to % 16)
            && !crate::gen_spec::utifudume_spec(v, side, to, pin),
    ensures
        lists_drop(crate::gen_spec::put_to_spec(v, side, to, pin), KomaInf::from_value((side.value() | kk as u8) as u8).unwrap(), to),
{
    reveal(crate::gen_spec::put_to_spec);
    reveal(crate::gen_spec::fu_drop_spec);
    let k = KomaInf::from_value((side.value() | kk as u8) as u8).unwrap();
    let dan = crate::gen_spec::rank_for(side, to);
    let fu = piece(side, KomaInf::FU);
    let ky = piece(side, KomaInf::KY);
    let ke = piece(side, KomaInf::KE);
    crate::koma_inf::lemma_mark_kind(1u8);
    crate::koma_inf::lemma_mark_kind(2u8);
    crate::koma_inf::lemma_mark_kind(3u8);
    KomaInf::lemma_from_value((side.value() | 1u8) as u8);
    KomaInf::lemma_from_value((side.value() | 2u8) as u8);
    KomaInf::lemma_from_value((side.value() | 3u8) as u8);
    let m1 = crate::gen_spec::fu_drop_spec(v, side, to, pin);
    let m2 = if v.hand[ky.value() as int] > 0 && dan > 1 { seq![crate::te::te_of(0, to, ky, KomaInf::EMP, 0)] } else { seq![] };
    let m3 = if v.hand[ke.value() as int] > 0 && dan > 2 { seq![crate::te::te_of(0, to, ke, KomaInf::EMP, 0)] } else { seq![] };
    let m4 = crate::gen_spec::drops_from(v, side, to, 4);
    if kk == 1 {
        assert(k == fu);
        assert(m1[0].to as int == to);
    } else if kk == 2 {
        assert(k == ky);
        assert(m2[0].to as int == to);
    } else if kk == 3 {
        assert(k == ke);
        assert(m3[0].to as int == to);
    } else {
        lemma_drops_from_listed(v, side, to, 4, kk);
    }
    lemma_drop_add(m1, m2, k, to);
    lemma_drop_add(m1 + m2, m3, k, to);
    lemma_drop_add(m1 + m2 + m3, m4, k, to);
}

/// Against a single sliding check (the checks on the king of `side` are
/// the one bit `id`, given by the slider on `c`), the generator lists
/// every move of a piece of `side` other than the king onto a square `x`
/// between the slider and the king, when its pin allows it.
pub proof fn lemma_interpositions_complete(v: KyokumenView, side: KomaInf, pin: Seq<isize>, id: int, c: int, x: int, from: int, b: int)
    requires
        v.ban.len() == 176,
        side.is_side(),
        16 <= id < 24,
        v.control(side.opponent())[v.king(side) as int] == 1usize << (id as usize),
        on_board(c),
        piece_gives(v.ban, c, v.king(side) as int, id),
        ray_reaches(v.ban, c, dir_offset(id - 16), x),
        ray_reaches(v.ban, x, dir_offset(id - 16), v.king(side) as int),
        on_board(from),
        v.ban[from].value() & side.value() != 0,
        v.ban[from] != piece(side, KomaInf::OU),
        0 <= b < 24,
        piece_gives(v.ban, from, x, b),
        pin_allows(pin[from], dir_offset(line_of(b))),
    ensures
        lists_move(legal_moves_spec(v, side, pin), from, x),
{
    let king = v.king(side) as int;
    let kiki = v.control(side.opponent())[king];
    let off = dir_offset(id - 16);
    lemma_single_bit(id);
    crate::rays::lemma_ray_between(v.ban, c, off, x, king);
    lemma_ray_direction(v.ban, c, off, x);
    assert(v.ban[x].value() & side.value() == 0) by {
        assert(0u8 & side.value() == 0) by (bit_vector);
    }
    lemma_move_to_complete(v, side, x, pin, from, b);
    lemma_interpose_moves_listed(v, side, pin, king - off, off, x, from);
    lemma_anti_check_parts(v, side, pin, kiki, from, x, KomaInf::EMP);
}

/// Against a single sliding check (as above), the generator lists the
/// drop of every kind of piece in hand onto every square `x` between the
/// slider and the king where that piece can still move (for a pawn, on a
/// file without a pawn of `side`, and not where the pawn-drop test finds
/// a pawn-drop mate).
pub proof fn lemma_interposing_drops_complete(v: KyokumenView, side: KomaInf, pin: Seq<isize>, id: int, c: int, x: int, kk: int)
    requires
        v.ban.len() == 176,
        side.is_side(),
        16 <= id < 24,
        v.control(side.opponent())[v.king(side) as int] == 1usize << (id as usize),
        on_board(c),
        piece_gives(v.ban, c, v.king(side) as int, id),
        ray_reaches(v.ban, c, dir_offset(id - 16), x),
        ray_reaches(v.ban, x, dir_offset(id - 16), v.king(side) as int),
        1 <= kk <= 7,
        v.hand[(side.value() | kk as u8) as int] > 0,
        kk <= 2 ==> crate::gen_spec::rank_for(side, x) > 1,
        kk == 3 ==> crate::gen_spec::rank_for(side, x) > 2,
        kk == 1 ==> !crate::gen_spec::nifu(v, side, x - x % 16)
            && !crate::gen_spec::utifudume_spec(v, side, x, pin),
    ensures
        lists_drop(legal_moves_spec(v, side, pin), KomaInf::from_value((side.value() | kk as u8) as u8).unwrap(), x),
{
    let king = v.king(side) as int;
    let kiki = v.control(side.opponent())[king];
    let off = dir_offset(id - 16);
    let k = KomaInf::from_value((side.value() | kk as u8) as u8).unwrap();
    lemma_single_bit(id);
    crate::rays::lemma_ray_between(v.ban, c, off, x, king);
    lemma_ray_direction(v.ban, c, off, x);
    lemma_put_to_listed(v, side, x, pin, kk);
    lemma_interpose_drops_listed(v, side, pin, king - off, off, x, k);
    lemma_anti_check_parts(v, side, pin, kiki, 0, x, k);
}

/// Whether the attack map of `side` shows, at `q`, a bit that the piece
/// on `from` gives: a step bit `b` with `from` one step back from `q`, or
/// a slide bit `16 + d` with `from` the first piece going back from `q`
/// along line `d`.
pub open spec fn map_shows_move(v: KyokumenView, side: KomaInf, from: int, q: int) -> bool {
    exists|b: int| 0 <= b < 24 && #[trigger] crate::control::bit(v.control(side)[q], b as usize) && (
        (b < 12 && q - dir_offset(b) == from) || (16 <= b && v.walk(q, -dir_offset(b - 16)) == from))
}

/// On a position whose attack map of `side` agrees with the board, the
/// piece of `side` on `from`, not a king and not pinned, moves exactly to
/// the squares where that map shows it and that hold no piece of `side`.
pub proof fn lemma_add_moves_on_map(v: KyokumenView, side: KomaInf, from: int, q: int)
    requires
        v.walls_ok(),
        side.is_side(),
        crate::control::control_matches(v.ban, side, v.control(side)),
        on_board(from),
        v.ban[from].value() & side.value() != 0,
        v.ban[from] != piece(side, KomaInf::OU),
        0 <= q < 176,
    ensures
        lists_move(add_moves_spec(v, side, from, 0, 0), from, q)
            <==> map_shows_move(v, side, from, q) && v.ban[q].value() & side.value() == 0,
{
    let ms = add_moves_spec(v, side, from, 0, 0);
    let pt = Seq::new(176, |i: int| 0isize);
    crate::generated::lemma_king_piece(side);
    if lists_move(ms, from, q) {
        crate::generated::lemma_add_moves_sound(v, side, pt, from, 0, 0);
        let i = choose|i: int| 0 <= i < ms.len() && (#[trigger] ms[i]).from as int == from && ms[i].to as int == q;
        let te = ms[i];
        assert(crate::generated::sound_move(v, side, pt, te));
        let b = choose|b: int| 0 <= b < 24 && #[trigger] piece_gives(v.ban, from, q, b)
            && (from == v.king(side) as int || pin_allows(pt[from], dir_offset(line_of(b))));
        assert(crate::control::owns(v.ban, side, from));
        assert(crate::control::attacked(v.ban, side, q, b));
        assert(crate::control::bit(v.control(side)[q], b as usize));
        if b >= 16 {
            lemma_ray_walk(v, from, dir_offset(b - 16), q);
        }
        assert(map_shows_move(v, side, from, q));
    }
    if map_shows_move(v, side, from, q) && v.ban[q].value() & side.value() == 0 {
        let b = choose|b: int| 0 <= b < 24 && #[trigger] crate::control::bit(v.control(side)[q], b as usize) && (
            (b < 12 && q - dir_offset(b) == from) || (16 <= b && v.walk(q, -dir_offset(b - 16)) == from));
        assert(crate::control::attacked(v.ban, side, q, b));
        let p = choose|p: int| crate::control::owns(v.ban, side, p) && #[trigger] piece_gives(v.ban, p, q, b);
        assert(v.ban[p] != KomaInf::EMP) by {
            crate::follow::lemma_zero_bits(side.value());
        }
        if b >= 16 {
            lemma_ray_walk(v, p, dir_offset(b - 16), q);
        }
        assert(p == from);
        assert(v.ban[from] != KomaInf::SOU && v.ban[from] != KomaInf::EOU) by {
            assert(24u8 & 32u8 == 0 && 40u8 & 16u8 == 0) by (bit_vector);
        }
        lemma_add_moves_listed(v, side, from, 0, q, b);
    }
}

} // verus!
