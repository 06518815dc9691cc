//! The generator lists each promotion choice of a piece move: out of
//! check, a piece that may promote on a move is listed both promoting and
//! not, one that must promote only promoting.

use vstd::prelude::*;
use crate::koma_inf::{KomaInf, lemma_bit4, lemma_bit5};
use crate::koma_moves::dir_offset;
use crate::kyokumen::{KyokumenView, on_board};
use crate::control::{ray_reaches, piece_gives, lemma_ray_direction};
use crate::gen_spec::{add_move_spec, add_straight_spec, slide_spec, add_moves_spec, board_moves_spec,
    quiet_moves_spec, legal_moves_spec, pin_allows, piece, file_drops, hand_drops};
use crate::generated::line_of;
use crate::rules::{far_rank, lemma_promotion_choices};
use crate::te::{Te, te_of};

verus! {

/// Whether `moves` holds the move `te`.
pub open spec fn holds_te(moves: Seq<Te>, te: Te) -> bool {
    exists|i: int| 0 <= i < moves.len() && #[trigger] moves[i] == te
}

proof fn lemma_holds_add(a: Seq<Te>, b: Seq<Te>, te: Te)
    ensures
        holds_te(a, te) || holds_te(b, te) ==> holds_te(a + b, te),
{
    if holds_te(a, te) {
        let i = choose|i: int| 0 <= i < a.len() && #[trigger] a[i] == te;
        assert((a + b)[i] == a[i]);
    } else if holds_te(b, te) {
        let i = choose|i: int| 0 <= i < b.len() && #[trigger] b[i] == te;
        assert((a + b)[a.len() + i] == b[i]);
    }
}

/// A pin that allows the line does not change the moves to one square.
proof fn lemma_move_holds(v: KyokumenView, side: KomaInf, from: int, diff: int, pin: int, te: Te)
    requires
        pin == 0 || pin == diff || pin == -diff,
        holds_te(add_move_spec(v, side, from, diff, 0, 0), te),
    ensures
        holds_te(add_move_spec(v, side, from, diff, pin, 0), te),
{
    reveal(add_move_spec);
}

proof fn lemma_slide_holds(v: KyokumenView, side: KomaInf, from: int, dir: int, i: int, to: int, te: Te)
    requires
        v.ban.len() == 176,
        on_board(from),
        dir != 0,
        -18 <= dir <= 18,
        dir > 0 ==> i > 0,
        dir < 0 ==> i < 0,
        ray_reaches(v.ban, from + i - dir, dir, to),
        holds_te(add_move_spec(v, side, from, to - from, 0, 0), te),
    ensures
        holds_te(slide_spec(v, side, from, dir, i), te),
    decreases (if dir > 0 { 176 - (from + i) } else { from + i }),
{
    let t = from + i;
    lemma_ray_direction(v.ban, t - dir, dir, to);
    if t == to {
        if v.ban[t] == KomaInf::EMP && 0 <= t + dir < 176 {
            lemma_holds_add(add_move_spec(v, side, from, i, 0, 0), slide_spec(v, side, from, dir, i + dir), te);
        }
        assert(holds_te(add_move_spec(v, side, from, i, 0, 0), te));
        if v.ban[t] != KomaInf::EMP {
            reveal(add_move_spec);
        }
    } else {
        assert(v.ban[t] == KomaInf::EMP);
        assert(ray_reaches(v.ban, t, dir, to));
        assert(0 <= t + dir < 176);
        lemma_ray_direction(v.ban, t, dir, to);
        lemma_slide_holds(v, side, from, dir, i + dir, to, te);
        lemma_holds_add(add_move_spec(v, side, from, i, 0, 0), slide_spec(v, side, from, dir, i + dir), te);
    }
}

proof fn lemma_straight_holds(v: KyokumenView, side: KomaInf, from: int, dir: int, pin: int, d: int, to: int, te: Te)
    requires
        v.ban.len() == 176,
        on_board(from),
        0 <= d < 8,
        dir == dir_offset(d),
    ensures
        ray_reaches(v.ban, from, dir, to) && holds_te(add_move_spec(v, side, from, to - from, 0, 0), te)
            && (pin == 0 || pin == dir || pin == -dir) ==> holds_te(add_straight_spec(v, side, from, dir, pin, 0), te),
{
    reveal(add_straight_spec);
    if ray_reaches(v.ban, from, dir, to) && holds_te(add_move_spec(v, side, from, to - from, 0, 0), te)
        && (pin == 0 || pin == dir || pin == -dir) {
        lemma_slide_holds(v, side, from, dir, dir, to, te);
    }
}

proof fn lemma_step_holds(v: KyokumenView, side: KomaInf, from: int, diff: int, pin: int, d: int, to: int, te: Te)
    requires
        on_board(from),
        0 <= d < 12,
        diff == dir_offset(d),
    ensures
        to == from + diff && holds_te(add_move_spec(v, side, from, to - from, 0, 0), te)
            && (pin == 0 || pin == diff || pin == -diff) ==> holds_te(add_move_spec(v, side, from, diff, pin, 0), te),
{
    if to == from + diff && holds_te(add_move_spec(v, side, from, to - from, 0, 0), te)
        && (pin == 0 || pin == diff || pin == -diff) {
        lemma_move_holds(v, side, from, diff, pin, te);
    }
}

/// A move of the piece on `from`, not a king, onto a square it reaches
/// and that holds no piece of `side`, along a line the pin entry `pin`
/// allows, is among its moves.
proof fn lemma_add_moves_holds(v: KyokumenView, side: KomaInf, from: int, pin: int, to: int, b: int, te: Te)
    requires
        v.ban.len() == 176,
        on_board(from),
        v.ban[from] != KomaInf::SOU,
        v.ban[from] != KomaInf::EOU,
        0 <= b < 24,
        piece_gives(v.ban, from, to, b),
        0 <= to < 176,
        v.ban[to].value() & side.value() == 0,
        holds_te(add_move_spec(v, side, from, to - from, 0, 0), te),
        pin == 0 || pin == dir_offset(line_of(b)) || pin == -dir_offset(line_of(b)),
    ensures
        holds_te(add_moves_spec(v, side, from, pin, 0), te),
{
    let a = |x: int| add_move_spec(v, side, from, x, pin, 0);
    let st = |x: int| add_straight_spec(v, side, from, x, pin, 0);
    match v.ban[from] {
        KomaInf::SFU => {
            lemma_step_holds(v, side, from, -1, pin, 6, to, te);
        },
        KomaInf::EFU => {
            lemma_step_holds(v, side, from, 1, pin, 1, to, te);
        },
        KomaInf::SKY => {
            lemma_straight_holds(v, side, from, -1, pin, 6, to, te);
        },
        KomaInf::EKY => {
            lemma_straight_holds(v, side, from, 1, pin, 1, to, te);
        },
        KomaInf::SKE => {
            lemma_step_holds(v, side, from, 14, pin, 8, to, te);
            lemma_step_holds(v, side, from, -18, pin, 9, to, te);
            lemma_holds_add(a(14), a(-18), te);
        },
        KomaInf::EKE => {
            lemma_step_holds(v, side, from, -14, pin, 11, to, te);
            lemma_step_holds(v, side, from, 18, pin, 10, to, te);
            lemma_holds_add(a(-14), a(18), te);
        },
        KomaInf::SGI => {
            lemma_step_holds(v, side, from, -1, pin, 6, to, te);
            lemma_step_holds(v, side, from, -17, pin, 7, to, te);
            lemma_step_holds(v, side, from, 15, pin, 5, to, te);
            lemma_step_holds(v, side, from, 17, pin, 0, to, te);
            lemma_step_holds(v, side, from, -15, pin, 2, to, te);
            lemma_holds_add(a(-1), a(-17), te);
            lemma_holds_add(a(-1) + a(-17), a(15), te);
            lemma_holds_add(a(-1) + a(-17) + a(15), a(17), te);
            lemma_holds_add(a(-1) + a(-17) + a(15) + a(17), a(-15), te);
        },
        KomaInf::EGI => {
            lemma_step_holds(v, side, from, 1, pin, 1, to, te);
            lemma_step_holds(v, side, from, 17, pin, 0, to, te);
            lemma_step_holds(v, side, from, -15, pin, 2, to, te);
            lemma_step_holds(v, side, from, -17, pin, 7, to, te);
            lemma_step_holds(v, side, from, 15, pin, 5, to, te);
            lemma_holds_add(a(1), a(17), te);
            lemma_holds_add(a(1) + a(17), a(-15), te);
            lemma_holds_add(a(1) + a(17) + a(-15), a(-17), te);
            lemma_holds_add(a(1) + a(17) + a(-15) + a(-17), a(15), te);
        },
        KomaInf::SKI | KomaInf::STO | KomaInf::SNY | KomaInf::SNK | KomaInf::SNG => {
            lemma_step_holds(v, side, from, -1, pin, 6, to, te);
            lemma_step_holds(v, side, from, -17, pin, 7, to, te);
            lemma_step_holds(v, side, from, 15, pin, 5, to, te);
            lemma_step_holds(v, side, from, 1, pin, 1, to, te);
            lemma_step_holds(v, side, from, -16, pin, 4, to, te);
            lemma_step_holds(v, side, from, 16, pin, 3, to, te);
            lemma_holds_add(a(-1), a(-17), te);
            lemma_holds_add(a(-1) + a(-17), a(15), te);
            lemma_holds_add(a(-1) + a(-17) + a(15), a(1), te);
            lemma_holds_add(a(-1) + a(-17) + a(15) + a(1), a(-16), te);
            lemma_holds_add(a(-1) + a(-17) + a(15) + a(1) + a(-16), a(16), te);
        },
        KomaInf::EKI | KomaInf::ETO | KomaInf::ENY | KomaInf::ENK | KomaInf::ENG => {
            lemma_step_holds(v, side, from, 1, pin, 1, to, te);
            lemma_step_holds(v, side, from, 17, pin, 0, to, te);
            lemma_step_holds(v, side, from, -15, pin, 2, to, te);
            lemma_step_holds(v, side, from, -1, pin, 6, to, te);
            lemma_step_holds(v, side, from, -16, pin, 4, to, te);
            lemma_step_holds(v, side, from, 16, pin, 3, to, te);
            lemma_holds_add(a(1), a(17), te);
            lemma_holds_add(a(1) + a(17), a(-15), te);
            lemma_holds_add(a(1) + a(17) + a(-15), a(-1), te);
            lemma_holds_add(a(1) + a(17) + a(-15) + a(-1), a(-16), te);
            lemma_holds_add(a(1) + a(17) + a(-15) + a(-1) + a(-16), a(16), te);
        },
        KomaInf::SRY | KomaInf::ERY => {
            lemma_straight_holds(v, side, from, 1, pin, 1, to, te);
            lemma_straight_holds(v, side, from, -1, pin, 6, to, te);
            lemma_straight_holds(v, side, from, -16, pin, 4, to, te);
            lemma_straight_holds(v, side, from, 16, pin, 3, to, te);
            lemma_step_holds(v, side, from, 17, pin, 0, to, te);
            lemma_step_holds(v, side, from, -15, pin, 2, to, te);
            lemma_step_holds(v, side, from, -17, pin, 7, to, te);
            lemma_step_holds(v, side, from, 15, pin, 5, to, te);
            lemma_holds_add(st(1), st(-1), te);
            lemma_holds_add(st(1) + st(-1), st(-16), te);
            lemma_holds_add(st(1) + st(-1) + st(-16), st(16), te);
            lemma_holds_add(st(1) + st(-1) + st(-16) + st(16), a(17), te);
            lemma_holds_add(st(1) + st(-1) + st(-16) + st(16) + a(17), a(-15), te);
            lemma_holds_add(st(1) + st(-1) + st(-16) + st(16) + a(17) + a(-15), a(-17), te);
            lemma_holds_add(st(1) + st(-1) + st(-16) + st(16) + a(17) + a(-15) + a(-17), a(15), te);
        },
        KomaInf::SHI | KomaInf::EHI => {
            lemma_straight_holds(v, side, from, 1, pin, 1, to, te);
            lemma_straight_holds(v, side, from, -1, pin, 6, to, te);
            lemma_straight_holds(v, side, from, -16, pin, 4, to, te);
            lemma_straight_holds(v, side, from, 16, pin, 3, to, te);
            lemma_holds_add(st(1), st(-1), te);
            lemma_holds_add(st(1) + st(-1), st(-16), te);
            lemma_holds_add(st(1) + st(-1) + st(-16), st(16), te);
        },
        KomaInf::SUM | KomaInf::EUM => {
            lemma_straight_holds(v, side, from, 17, pin, 0, to, te);
            lemma_straight_holds(v, side, from, -17, pin, 7, to, te);
            lemma_straight_holds(v, side, from, 15, pin, 5, to, te);
            lemma_straight_holds(v, side, from, -15, pin, 2, to, te);
            lemma_step_holds(v, side, from, 1, pin, 1, to, te);
            lemma_step_holds(v, side, from, 16, pin, 3, to, te);
            lemma_step_holds(v, side, from, -16, pin, 4, to, te);
            lemma_step_holds(v, side, from, -1, pin, 6, to, te);
            lemma_holds_add(st(17), st(-17), te);
            lemma_holds_add(st(17) + st(-17), st(15), te);
            lemma_holds_add(st(17) + st(-17) + st(15), st(-15), te);
            lemma_holds_add(st(17) + st(-17) + st(15) + st(-15), a(1), te);
            lemma_holds_add(st(17) + st(-17) + st(15) + st(-15) + a(1), a(16), te);
            lemma_holds_add(st(17) + st(-17) + st(15) + st(-15) + a(1) + a(16), a(-16), te);
            lemma_holds_add(st(17) + st(-17) + st(15) + st(-15) + a(1) + a(16) + a(-16), a(-1), te);
        },
        KomaInf::SKA | KomaInf::EKA => {
            lemma_straight_holds(v, side, from, 17, pin, 0, to, te);
            lemma_straight_holds(v, side, from, -17, pin, 7, to, te);
            lemma_straight_holds(v, side, from, 15, pin, 5, to, te);
            lemma_straight_holds(v, side, from, -15, pin, 2, to, te);
            lemma_holds_add(st(17), st(-17), te);
            lemma_holds_add(st(17) + st(-17), st(15), te);
            lemma_holds_add(st(17) + st(-17) + st(15), st(-15), te);
        },
        _ => {},
    }
}

/// The moves of the piece on `from` are among the board moves from file
/// `s`, rank `d` on, when `from` is not before that point.
proof fn lemma_board_holds(v: KyokumenView, side: KomaInf, pin: Seq<isize>, s: int, d: int, from: int, te: Te)
    requires
        on_board(from),
        1 <= s,
        1 <= d,
        s < from / 16 || (s == from / 16 && d <= from % 16),
        v.ban[from].value() & side.value() != 0,
        holds_te(add_moves_spec(v, side, from, pin[from] as int, 0), te),
    ensures
        holds_te(board_moves_spec(v, side, pin, s, d), te),
    decreases 10 - s, 10 - d,
{
    if d > 9 {
        lemma_board_holds(v, side, pin, s + 1, 1, from, te);
    } else {
        let sq = 16 * s + d;
        let head = if v.ban[sq].value() & side.value() != 0 { add_moves_spec(v, side, sq, pin[sq] as int, 0) } else { seq![] };
        if sq != from {
            lemma_board_holds(v, side, pin, s, d + 1, from, te);
        }
        lemma_holds_add(head, board_moves_spec(v, side, pin, s, d + 1), te);
    }
}

/// Out of check, whatever the board moves from file 1, rank 1 on list
/// is listed by the generator.
proof fn lemma_board_holds_legal(v: KyokumenView, side: KomaInf, pin: Seq<isize>, te: Te)
    requires
        v.control(side.opponent())[v.king(side) as int] == 0,
        holds_te(board_moves_spec(v, side, pin, 1, 1), te),
    ensures
        holds_te(legal_moves_spec(v, side, pin), te),
{
    let fu = piece(side, KomaInf::FU);
    let ky = piece(side, KomaInf::KY);
    let ke = piece(side, KomaInf::KE);
    let own = side == KomaInf::Self_;
    let bm = board_moves_spec(v, side, pin, 1, 1);
    let d1 = if v.hand[fu.value() as int] > 0 { file_drops(v, side, pin, fu, true, 1, if own { 2 } else { 1 }, if own { 9 } else { 8 }) } else { seq![] };
    let d2 = if v.hand[ky.value() as int] > 0 { file_drops(v, side, pin, ky, false, 1, if own { 2 } else { 1 }, if own { 9 } else { 8 }) } else { seq![] };
    let d3 = if v.hand[ke.value() as int] > 0 { file_drops(v, side, pin, ke, false, 1, if own { 3 } else { 1 }, if own { 9 } else { 7 }) } else { seq![] };
    let d4 = hand_drops(v, side, pin, 4);
    lemma_holds_add(bm, d1, te);
    lemma_holds_add(bm + d1, d2, te);
    lemma_holds_add(bm + d1 + d2, d3, te);
    lemma_holds_add(bm + d1 + d2 + d3, d4, te);
    assert(quiet_moves_spec(v, side, pin) == bm + d1 + d2 + d3 + d4);
}

/// Out of check, the generator lists each promotion choice of a move of
/// a piece of `side` other than the king onto a square it reaches (see
/// `piece_gives`) that holds no piece of `side`, along a line its pin
/// entry allows: the promoting move where the piece may or must promote
/// (a pawn, lance, knight, silver, bishop or rook leaving or entering the
/// last three ranks), and the plain move unless it must promote (a pawn or
/// lance on the last rank, a knight on the last two).
pub proof fn lemma_promotions_listed(v: KyokumenView, side: KomaInf, pin: Seq<isize>, from: int, to: int, b: int)
    requires
        v.ban.len() == 176,
        side.is_side(),
        v.control(side.opponent())[v.king(side) as int] == 0,
        on_board(from),
        v.ban[from].is_piece_of(side),
        v.ban[from] != piece(side, KomaInf::OU),
        0 <= b < 24,
        piece_gives(v.ban, from, to, b),
        on_board(to),
        v.ban[to].value() & side.value() == 0,
        pin_allows(pin[from], dir_offset(line_of(b))),
    ensures
        ({
            let k = v.ban[from];
            let kind = k.value() % 16;
            let may = (kind == 1 || kind == 2 || kind == 3 || kind == 4 || kind == 6 || kind == 7)
                && (far_rank(side, from) <= 3 || far_rank(side, to) <= 3);
            let must = ((kind == 1 || kind == 2) && far_rank(side, to) == 1) || (kind == 3 && far_rank(side, to) <= 2);
            let ms = legal_moves_spec(v, side, pin);
            &&& may || must ==> holds_te(ms, te_of(from, to, k, v.ban[to], 1))
            &&& !must ==> holds_te(ms, te_of(from, to, k, v.ban[to], 0))
        }),
{
    let k = v.ban[from];
    assert(v.ban[from] != KomaInf::SOU && v.ban[from] != KomaInf::EOU) by {
        crate::koma_inf::lemma_mark_kind(8u8);
        KomaInf::lemma_from_value((side.value() | 8u8) as u8);
        lemma_bit4(v.ban[from].value());
        lemma_bit5(v.ban[from].value());
    }
    lemma_promotion_choices(v, side, from, to - from, 0, 0);
    let m = add_move_spec(v, side, from, to - from, 0, 0);
    let p1 = te_of(from, to, k, v.ban[to], 1);
    let p0 = te_of(from, to, k, v.ban[to], 0);
    assert(v.ban[from].value() & side.value() != 0);
    if m.len() > 0 && m[0] == p1 {
        assert(holds_te(m, p1));
        lemma_add_moves_holds(v, side, from, pin[from] as int, to, b, p1);
        lemma_board_holds(v, side, pin, 1, 1, from, p1);
        lemma_board_holds_legal(v, side, pin, p1);
    }
    if (m.len() == 1 && m[0] == p0) || (m.len() == 2 && m[1] == p0) {
        if m.len() == 1 { assert(holds_te(m, p0)); } else { assert(m[1] == p0); assert(holds_te(m, p0)); }
        lemma_add_moves_holds(v, side, from, pin[from] as int, to, b, p0);
        lemma_board_holds(v, side, pin, 1, 1, from, p0);
        lemma_board_holds_legal(v, side, pin, p0);
    }
}

} // verus!
