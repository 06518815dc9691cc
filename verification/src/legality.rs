//! No move the generator gives leaves the king of the player who makes it
//! reached by a piece of the other player.

use vstd::prelude::*;
use crate::koma_inf::KomaInf;
use crate::koma_moves::dir_offset;
use crate::kyokumen::on_board;
use crate::control::{ray_reaches, framed, lemma_ray_direction, attacked, owns, piece_gives, control_matches, bit};
use crate::kyokumen::KyokumenView;
use crate::te::Te;
use crate::gen_spec::piece;
use crate::answers::answers_check;
use crate::pins::{pinned, pin_line, pin_bit, lemma_pin_table};
use crate::legal::pins_used;
use crate::gen_spec::pin_spec;
use crate::koma_moves::slides;
use crate::advance::{board_after, king_after, placed, placed_code, lemma_promote_marks};
use crate::generated::{sound_move, king_stands, king_step_safe};
use crate::rays::{lemma_ray_transfer, lemma_ray_same_start, lemma_ray_reverse, lemma_ray_between, lemma_ray_unique};

verus! {

/// The file step of line `d` (below 8).
pub open spec fn file_step(d: int) -> int {
    if d == 0 || d == 3 || d == 5 { 1 } else if d == 1 || d == 6 { 0 } else { -1 }
}

/// The rank step of line `d` (below 8).
pub open spec fn rank_step(d: int) -> int {
    if d == 0 || d == 1 || d == 2 { 1 } else if d == 3 || d == 4 { 0 } else { -1 }
}

/// A slide along line `d` from a square of the board to a square of the
/// board, over a board walled outside its 81 squares, goes `k` files and
/// `k` ranks along the line's steps, for some `k` of at least one.
pub proof fn lemma_ray_coords(b: Seq<KomaInf>, s: int, d: int, x: int) -> (k: int)
    requires
        framed(b),
        0 <= d < 8,
        on_board(s),
        on_board(x),
        ray_reaches(b, s, dir_offset(d), x),
    ensures
        k >= 1,
        x / 16 == s / 16 + k * file_step(d),
        x % 16 == s % 16 + k * rank_step(d),
    decreases (if dir_offset(d) > 0 { 176 - s } else { s }),
{
    let o = dir_offset(d);
    let n = s + o;
    assert(o == 16 * file_step(d) + rank_step(d));
    assert(n / 16 == s / 16 + file_step(d) && n % 16 == s % 16 + rank_step(d));
    if n == x {
        1
    } else {
        assert(b[n] == KomaInf::EMP);
        assert(on_board(n));
        lemma_ray_direction(b, n, o, x);
        let k = lemma_ray_coords(b, n, d, x);
        assert((k + 1) * file_step(d) == k * file_step(d) + file_step(d)) by (nonlinear_arith);
        assert((k + 1) * rank_step(d) == k * rank_step(d) + rank_step(d)) by (nonlinear_arith);
        k + 1
    }
}

/// Two slides from one square of the board to another go along the same
/// line.
pub proof fn lemma_one_line(b: Seq<KomaInf>, s: int, d1: int, d2: int, x: int)
    requires
        framed(b),
        0 <= d1 < 8,
        0 <= d2 < 8,
        on_board(s),
        on_board(x),
        ray_reaches(b, s, dir_offset(d1), x),
        ray_reaches(b, s, dir_offset(d2), x),
    ensures
        d1 == d2,
{
    let k1 = lemma_ray_coords(b, s, d1, x);
    let k2 = lemma_ray_coords(b, s, d2, x);
    let f1 = file_step(d1);
    let f2 = file_step(d2);
    let r1 = rank_step(d1);
    let r2 = rank_step(d2);
    assert(f1 == f2 && r1 == r2) by (nonlinear_arith)
        requires
            k1 >= 1, k2 >= 1,
            k1 * f1 == k2 * f2,
            k1 * r1 == k2 * r2,
            -1 <= f1 <= 1, -1 <= f2 <= 1, -1 <= r1 <= 1, -1 <= r2 <= 1;
}

/// The square the king of `side` stands on once `te` is played.
pub open spec fn king_square_after(v: KyokumenView, side: KomaInf, te: Te) -> int {
    king_after(v.king(side), piece(side, KomaInf::OU), te) as int
}

/// Whether, once `te` is played, no piece of the other player reaches the
/// king of `side`.
pub open spec fn king_safe_after(v: KyokumenView, side: KomaInf, te: Te) -> bool {
    forall|b: int| 0 <= b < 24 ==>
        !#[trigger] attacked(board_after(v.ban, te), side.opponent(), king_square_after(v, side, te), b)
}

/// What the board after a sound move looks like: walled as before, a
/// piece of the mover (not of the other player) on the destination, the
/// square of departure emptied, the rest as before; and the move is the
/// king's exactly when it starts from a king of the mover.
proof fn lemma_after_board(v: KyokumenView, side: KomaInf, pt: Seq<isize>, te: Te)
    requires
        side.is_side(),
        v.walls_ok(),
        sound_move(v, side, pt, te),
    ensures
        ({
            let nb = board_after(v.ban, te);
            let from = te.from as int;
            let to = te.to as int;
            &&& framed(nb)
            &&& nb[to] != KomaInf::EMP
            &&& nb[to].value() & side.opponent().value() == 0
            &&& te.from > 0x10 ==> nb[from] == KomaInf::EMP && on_board(from) && from != to
            &&& forall|y: int| 0 <= y < 176 && y != to && !(te.from > 0x10 && y == from) ==> #[trigger] nb[y] == v.ban[y]
            &&& (te.koma == piece(side, KomaInf::OU).value()) == (te.from > 0x10 && v.ban[from] == piece(side, KomaInf::OU))
        }),
{
    let nb = board_after(v.ban, te);
    let from = te.from as int;
    let to = te.to as int;
    let code = placed_code(te);
    KomaInf::lemma_from_value(code);
    assert(placed(te).value() == code);
    lemma_promote_marks(te.koma);
    crate::generated::lemma_king_piece(side);
    KomaInf::lemma_value_from(piece(side, KomaInf::OU));
    if te.from > 0x10 {
        KomaInf::lemma_value_from(v.ban[from]);
    }
    assert forall|y: int| 0 <= y < 176 && !on_board(y) implies #[trigger] nb[y] == KomaInf::Wall by {
        assert(v.ban[y] == KomaInf::Wall);
    }
}

/// No piece of the other player reaches the square a sound king step
/// goes to, over the board after the step.
proof fn lemma_king_step_unreached(v: KyokumenView, side: KomaInf, pt: Seq<isize>, te: Te, b: int, p: int)
    requires
        side.is_side(),
        v.walls_ok(),
        v.consistent(),
        king_stands(v, side),
        sound_move(v, side, pt, te),
        te.from > 0x10,
        v.ban[te.from as int] == piece(side, KomaInf::OU),
        0 <= b < 24,
    ensures
        !(owns(board_after(v.ban, te), side.opponent(), p) && piece_gives(board_after(v.ban, te), p, te.to as int, b)),
{
    if owns(board_after(v.ban, te), side.opponent(), p) && piece_gives(board_after(v.ban, te), p, te.to as int, b) {
        let nb = board_after(v.ban, te);
        let ban = v.ban;
        let opp = side.opponent();
        let from = te.from as int;
        let to = te.to as int;
        let king = v.king(side) as int;
        let kiki = v.control(opp)[king];
        lemma_after_board(v, side, pt, te);
        assert(king_step_safe(v, side, from, to));
        let i = choose|i: int| 0 <= i < 8 && to == king - #[trigger] dir_offset(i)
            && kiki & (1usize << ((23 - i) as usize)) == 0;
        assert(p != to && p != from);
        assert(nb[p] == ban[p]);
        assert(owns(ban, opp, p));
        assert(control_matches(ban, opp, v.control(opp)));
        let bu = b as usize;
        assert(!bit(v.control(opp)[to], bu)) by {
            assert(0usize & (1usize << bu) == 0) by (bit_vector);
        }
        assert(!attacked(ban, opp, to, b));
        if b < 12 {
            assert(piece_gives(ban, p, to, b));
        } else {
            let d = b - 16;
            let o = dir_offset(d);
            lemma_ray_transfer(nb, ban, p, o, to, king);
            if ray_reaches(ban, p, o, to) {
                assert(piece_gives(ban, p, to, b));
            } else {
                assert(piece_gives(ban, p, king, b));
                assert(attacked(ban, opp, king, b));
                assert(bit(kiki, bu));
                crate::drops::lemma_opp_dir(i);
                assert(ray_reaches(nb, king, dir_offset(7 - i), to));
                lemma_one_line(nb, king, d, 7 - i, to);
                assert(bu == (23 - i) as usize);
            }
        }
    }
}

/// A piece of the other player that reaches the king of `side` before a
/// move other than the king's, which answers the check as `answers_check`
/// asks, no longer reaches it afterwards.
proof fn lemma_check_answered(v: KyokumenView, side: KomaInf, pt: Seq<isize>, te: Te, b: int, p: int)
    requires
        side.is_side(),
        v.walls_ok(),
        v.consistent(),
        king_stands(v, side),
        sound_move(v, side, pt, te),
        answers_check(v, side, te),
        !(te.from > 0x10 && v.ban[te.from as int] == piece(side, KomaInf::OU)),
        0 <= b < 24,
        owns(v.ban, side.opponent(), p),
        p != te.to as int,
        piece_gives(v.ban, p, v.king(side) as int, b),
    ensures
        !piece_gives(board_after(v.ban, te), p, v.king(side) as int, b),
{
    let nb = board_after(v.ban, te);
    let ban = v.ban;
    let opp = side.opponent();
    let from = te.from as int;
    let to = te.to as int;
    let king = v.king(side) as int;
    let kiki = v.control(opp)[king];
    let bu = b as usize;
    lemma_after_board(v, side, pt, te);
    assert(control_matches(ban, opp, v.control(opp)));
    assert(attacked(ban, opp, king, b));
    assert(bit(kiki, bu));
    assert(kiki != 0) by {
        assert(0usize & (1usize << bu) == 0) by (bit_vector);
    }
    if te.from <= 0x10 {
        assert(ban[from] == KomaInf::Wall);
    }
    let (id, c) = choose|id: int, c: int| #![trigger piece_gives(ban, c, king, id)]
        0 <= id < 24 && kiki == 1usize << (id as usize)
        && owns(ban, opp, c) && piece_gives(ban, c, king, id)
        && (to == c || (16 <= id && ray_reaches(ban, c, dir_offset(id - 16), to)
            && ray_reaches(ban, to, dir_offset(id - 16), king)));
    let idu = id as usize;
    assert(idu == bu) by (bit_vector)
        requires
            kiki == 1usize << idu,
            kiki & (1usize << bu) != 0,
            idu < 24usize,
            bu < 24usize;
    assert(ban[p] != KomaInf::EMP && ban[c] != KomaInf::EMP) by {
        crate::follow::lemma_zero_bits(opp.value());
    }
    if b >= 16 {
        lemma_ray_unique(ban, p, c, dir_offset(b - 16), king);
    }
    assert(c == p);
    if b >= 16 && piece_gives(nb, p, king, b) {
        let o = dir_offset(b - 16);
        assert forall|y: int| 0 <= y < 176 && y != to && #[trigger] ban[y] == KomaInf::EMP implies nb[y] == KomaInf::EMP by {
            if te.from > 0x10 && y == from {
                assert(ban[from].value() == te.koma);
            }
        }
        lemma_ray_transfer(ban, nb, p, o, to, to);
        lemma_ray_transfer(ban, nb, to, o, king, to);
        if ray_reaches(nb, to, o, to) {
            lemma_ray_direction(nb, to, o, to);
        }
        lemma_ray_between(nb, p, o, to, king);
    }
}

/// A move other than the king's cannot uncover a slide of the other
/// player onto the king of `side`: the piece that left its square, if it
/// stood between such a slide and the king, was pinned and stayed on the
/// slide's line.
proof fn lemma_no_discovery(v: KyokumenView, side: KomaInf, te: Te, b: int, p: int)
    requires
        side.is_side(),
        v.walls_ok(),
        v.kings_ok(),
        v.consistent(),
        king_stands(v, side),
        sound_move(v, side, pins_used(v, None), te),
        te.from > 0x10,
        v.ban[te.from as int] != piece(side, KomaInf::OU),
        16 <= b < 24,
        owns(v.ban, side.opponent(), p),
        p != te.to as int,
        p != te.from as int,
        piece_gives(board_after(v.ban, te), p, v.king(side) as int, b),
    ensures
        !(ray_reaches(v.ban, p, dir_offset(b - 16), te.from as int)
            && ray_reaches(board_after(v.ban, te), te.from as int, dir_offset(b - 16), v.king(side) as int)),
{
    let nb = board_after(v.ban, te);
    let ban = v.ban;
    let opp = side.opponent();
    let from = te.from as int;
    let to = te.to as int;
    let king = v.king(side) as int;
    let d = b - 16;
    let o = dir_offset(d);
    let pt = pins_used(v, None);
    let zeros = Seq::new(176, |j: int| 0isize);
    if ray_reaches(ban, p, o, from) && ray_reaches(nb, from, o, king) {
        lemma_after_board(v, side, pt, te);
        crate::generated::lemma_king_piece(side);
        assert(ban[king].value() & side.value() != 0);
        assert(to != king);
        assert(from != king);
        assert(nb[king] == ban[king] && nb[p] == ban[p]);
        // The square left lies between the slide and the king.
        assert forall|y: int| 0 <= y < 176 && y != from && #[trigger] nb[y] == KomaInf::EMP implies ban[y] == KomaInf::EMP by {
        }
        lemma_ray_transfer(nb, ban, from, o, king, from);
        if ray_reaches(ban, from, o, from) {
            lemma_ray_direction(ban, from, o, from);
        }
        assert(ray_reaches(ban, from, o, king));
        // So that piece is pinned along the slide's line.
        let b0 = choose|b0: int| 0 <= b0 < 24 && #[trigger] piece_gives(ban, from, to, b0)
            && (from == king || crate::gen_spec::pin_allows(pt[from], dir_offset(crate::generated::line_of(b0))));
        crate::kyokumen::lemma_mover_mark(crate::generated::line_of(b0), ban[from]);
        assert(ban[from].value() & opp.value() == 0);
        crate::drops::lemma_opp_dir(d);
        let dd = if side == KomaInf::Self_ { 7 - d } else { d };
        assert(pin_line(side, dd) == -o);
        assert(pin_bit(side, dd) == b);
        crate::complete::lemma_ray_walk(v, from, o, king);
        assert(piece_gives(ban, p, from, b));
        assert(pinned(v, side, from, dd));
        lemma_pin_table(v, zeros, from);
        let (s2, d2) = choose|s2: KomaInf, d2: int| s2.is_side() && #[trigger] pinned(v, s2, from, d2)
            && pin_spec(v, zeros)[from] == dir_offset(d2);
        assert(s2 == side);
        crate::drops::lemma_opp_dir(d2);
        let e2 = if side == KomaInf::Self_ { 7 - d2 } else { d2 };
        assert(dir_offset(e2) == -pin_line(side, d2));
        crate::generated::lemma_walk_ray(v, king, dir_offset(e2));
        assert(ray_reaches(ban, from, dir_offset(e2), king));
        lemma_one_line(ban, from, d, e2, king);
        assert(pt[from] == o || pt[from] == -o);
        // The piece moves along that line.
        let o1 = dir_offset(crate::generated::line_of(b0));
        assert(o1 == o || o1 == -o);
        let d1 = crate::generated::line_of(b0);
        assert(0 <= d1 < 8);
        assert(ray_reaches(ban, from, o1, to));
        assert forall|y: int| 0 <= y < 176 && y != to && #[trigger] ban[y] == KomaInf::EMP implies nb[y] == KomaInf::EMP by {
        }
        lemma_ray_transfer(ban, nb, p, o, from, to);
        if o1 == o {
            lemma_ray_same_start(ban, from, o, to, king);
            if ray_reaches(ban, king, o, to) {
                lemma_ray_between(ban, from, o, king, to);
            }
            lemma_ray_transfer(ban, nb, to, o, king, to);
            if ray_reaches(nb, to, o, to) {
                lemma_ray_direction(nb, to, o, to);
            }
            lemma_ray_transfer(ban, nb, from, o, to, to);
            if !ray_reaches(nb, p, o, to) {
                crate::control::lemma_ray_through(nb, p, o, from, to);
            }
        } else {
            lemma_ray_reverse(ban, p, o, from);
            lemma_ray_same_start(ban, from, -o, to, p);
            if ray_reaches(ban, p, -o, to) {
                lemma_ray_between(ban, from, -o, p, to);
            }
            lemma_ray_reverse(ban, to, -o, p);
            assert(-(-o) == o);
            lemma_ray_transfer(ban, nb, p, o, to, to);
            lemma_ray_reverse(ban, from, -o, to);
            lemma_ray_transfer(ban, nb, to, o, from, to);
            if ray_reaches(nb, to, o, to) {
                lemma_ray_direction(nb, to, o, to);
            }
            crate::control::lemma_ray_through(nb, to, o, from, king);
        }
        lemma_ray_between(nb, p, o, to, king);
    }
}

/// A sound move that answers a check as `answers_check` asks leaves the
/// king of the player who makes it reached by no piece of the other
/// player.
pub proof fn lemma_move_safe(v: KyokumenView, side: KomaInf, te: Te)
    requires
        side.is_side(),
        v.walls_ok(),
        v.kings_ok(),
        v.consistent(),
        king_stands(v, side),
        sound_move(v, side, pins_used(v, None), te),
        answers_check(v, side, te),
    ensures
        king_safe_after(v, side, te),
{
    let nb = board_after(v.ban, te);
    let ban = v.ban;
    let opp = side.opponent();
    let from = te.from as int;
    let to = te.to as int;
    let king = v.king(side) as int;
    let pt = pins_used(v, None);
    let k2 = king_square_after(v, side, te);
    lemma_after_board(v, side, pt, te);
    assert forall|b: int| 0 <= b < 24 implies !#[trigger] attacked(nb, opp, k2, b) by {
        if attacked(nb, opp, k2, b) {
            let p = choose|p: int| owns(nb, opp, p) && #[trigger] piece_gives(nb, p, k2, b);
            if te.from > 0x10 && ban[from] == piece(side, KomaInf::OU) {
                assert(k2 == to);
                lemma_king_step_unreached(v, side, pt, te, b, p);
            } else {
                assert(k2 == king);
                assert(p != to && !(te.from > 0x10 && p == from));
                assert(nb[p] == ban[p]);
                assert(owns(ban, opp, p));
                if b < 12 {
                    assert(piece_gives(ban, p, king, b));
                    lemma_check_answered(v, side, pt, te, b, p);
                } else {
                    let o = dir_offset(b - 16);
                    let z = if te.from > 0x10 { from } else { -1 };
                    assert forall|y: int| 0 <= y < 176 && y != z && #[trigger] nb[y] == KomaInf::EMP implies ban[y] == KomaInf::EMP by {
                    }
                    lemma_ray_transfer(nb, ban, p, o, king, z);
                    if ray_reaches(ban, p, o, king) {
                        assert(piece_gives(ban, p, king, b));
                        lemma_check_answered(v, side, pt, te, b, p);
                    } else if te.from > 0x10 {
                        lemma_no_discovery(v, side, te, b, p);
                    } else {
                        lemma_ray_direction(ban, p, o, z);
                    }
                }
            }
        }
    }
}

/// Whether no move of `moves` leaves the king of `side` reached by a
/// piece of the other player (see `king_safe_after`).
pub open spec fn all_safe(v: KyokumenView, side: KomaInf, moves: Seq<Te>) -> bool {
    forall|i: int| 0 <= i < moves.len() ==> #[trigger] king_safe_after(v, side, moves[i])
}

/// No move the generator gives (with the pins it works out) leaves the
/// king of the player who makes it reached by a piece of the other player,
/// on a position whose attack maps agree with the board and whose king
/// of `side` stands on its square.
pub proof fn lemma_generated_moves_safe(v: KyokumenView, side: KomaInf)
    requires
        crate::legal::generation_ready(v, side),
        king_stands(v, side),
        v.consistent(),
    ensures
        all_safe(v, side, crate::gen_spec::legal_moves_spec(v, side, pins_used(v, None))),
{
    let pt = pins_used(v, None);
    let ms = crate::gen_spec::legal_moves_spec(v, side, pt);
    crate::generated::lemma_generated_moves_sound(v, side, pt);
    crate::answers::lemma_generated_moves_answer(v, side, pt);
    assert forall|i: int| 0 <= i < ms.len() implies #[trigger] king_safe_after(v, side, ms[i]) by {
        assert(crate::generated::sound_move(v, side, pt, ms[i]));
        assert(answers_check(v, side, ms[i]));
        lemma_move_safe(v, side, ms[i]);
    }
}

/// Once a move that leaves its king unreached is played, the attack map of
/// the other player, kept in agreement with the new board, is 0 on the
/// square of that king.
pub proof fn lemma_king_unreached_after(v: KyokumenView, side: KomaInf, te: Te, w: KyokumenView)
    requires
        side.is_side(),
        king_safe_after(v, side, te),
        w.ban == board_after(v.ban, te),
        control_matches(w.ban, side.opponent(), w.control(side.opponent())),
        0 <= king_square_after(v, side, te) < 176,
    ensures
        w.control(side.opponent())[king_square_after(v, side, te)] == 0,
{
    let k2 = king_square_after(v, side, te);
    let c = w.control(side.opponent())[k2];
    assert forall|j: usize| j < 24 implies #[trigger] bit(c, j) == bit(0usize, j) by {
        assert(!attacked(w.ban, side.opponent(), k2, j as int));
        assert(0usize & (1usize << j) == 0) by (bit_vector);
    }
    crate::control::lemma_same_bits(c, 0usize);
}

} // verus!
