//! No move appears twice in what the generator gives.

use vstd::prelude::*;
use crate::koma_inf::KomaInf;
use crate::koma_moves::dir_offset;
use crate::kyokumen::{KyokumenView, on_board};
use crate::control::{ray_reaches, framed, lemma_ray_direction, lemma_ray_through};
use crate::gen_spec::{add_move_spec, add_straight_spec, slide_spec, piece, add_moves_spec, move_king_spec,
    king_step_spec, king_steps_from, first_step_bit, board_moves_spec, column_drops, file_drops, hand_drops,
    quiet_moves_spec, move_to_dir, move_to_from, move_to_spec, interpose_moves, interpose_spec, put_to_spec,
    fu_drop_spec, drops_from, anti_check_spec, legal_moves_spec, single_bit_index, checking_square, check_answerable};
use crate::generated::king_stands;
use crate::answers::{all_hold, lands_on, leaves, lemma_all_hold_add, lemma_add_move_ends};
use crate::legality::{lemma_one_line, lemma_ray_coords, file_step, rank_step};
use crate::te::Te;

verus! {

/// No two moves of `moves` are the same move (see `Te::same_move`).
pub open spec fn no_repeats(moves: Seq<Te>) -> bool {
    forall|i: int, j: int| 0 <= i < j < moves.len() ==> !(#[trigger] moves[i]).same_move(#[trigger] moves[j])
}

/// Two lists without repeats, no move of the first being a move of the
/// second, make a list without repeats.
pub proof fn lemma_join(a: Seq<Te>, b: Seq<Te>)
    requires
        no_repeats(a),
        no_repeats(b),
        forall|i: int, j: int| 0 <= i < a.len() && 0 <= j < b.len() ==> !(#[trigger] a[i]).same_move(#[trigger] b[j]),
    ensures
        no_repeats(a + b),
{
    let c = a + b;
    assert forall|i: int, j: int| 0 <= i < j < c.len() implies !(#[trigger] c[i]).same_move(#[trigger] c[j]) by {
        if j < a.len() {
            assert(c[i] == a[i] && c[j] == a[j]);
        } else if i < a.len() {
            assert(c[i] == a[i] && c[j] == b[j - a.len()]);
        } else {
            assert(c[i] == b[i - a.len()] && c[j] == b[j - a.len()]);
        }
    }
}

/// Two lists whose moves are told apart by `pa` and `pb` share no move.
pub proof fn lemma_join_apart(a: Seq<Te>, b: Seq<Te>, pa: spec_fn(Te) -> bool, pb: spec_fn(Te) -> bool)
    requires
        no_repeats(a),
        no_repeats(b),
        all_hold(a, pa),
        all_hold(b, pb),
        forall|t1: Te, t2: Te| #[trigger] pa(t1) && #[trigger] pb(t2) ==> !t1.same_move(t2),
    ensures
        no_repeats(a + b),
{
    assert forall|i: int, j: int| 0 <= i < a.len() && 0 <= j < b.len() implies !(#[trigger] a[i]).same_move(#[trigger] b[j]) by {
        assert(pa(a[i]) && pb(b[j]));
    }
    lemma_join(a, b);
}

/// The moves of one piece to one square: the promoting and the plain move
/// differ.
pub proof fn lemma_add_move_nr(v: KyokumenView, side: KomaInf, from: int, diff: int, pin: int, r_pin: int)
    ensures
        no_repeats(add_move_spec(v, side, from, diff, pin, r_pin)),
        add_move_spec(v, side, from, diff, pin, r_pin).len() > 0 ==> v.at(from + diff).value() & side.value() == 0,
        all_hold(add_move_spec(v, side, from, diff, pin, r_pin), moves_piece(v.ban[from].value())),
{
    reveal(add_move_spec);
}

/// The moves of the piece with code `k`.
pub open spec fn moves_piece(k: u8) -> spec_fn(Te) -> bool {
    |t: Te| t.koma == k
}

/// The moves that land on a square of the board on line `d` from `from`.
pub open spec fn on_line(ban: Seq<KomaInf>, from: int, d: int) -> spec_fn(Te) -> bool {
    |t: Te| on_board(t.to as int) && ray_reaches(ban, from, dir_offset(d), t.to as int)
}

/// Moves along two different lines from one square land on different
/// squares.
pub proof fn lemma_lines_apart(ban: Seq<KomaInf>, from: int, d1: int, d2: int)
    requires
        framed(ban),
        on_board(from),
        0 <= d1 < 8,
        0 <= d2 < 8,
        d1 != d2,
    ensures
        forall|t1: Te, t2: Te| #[trigger] on_line(ban, from, d1)(t1) && #[trigger] on_line(ban, from, d2)(t2) ==> !t1.same_move(t2),
{
    assert forall|t1: Te, t2: Te| #[trigger] on_line(ban, from, d1)(t1) && #[trigger] on_line(ban, from, d2)(t2) implies !t1.same_move(t2) by {
        if t1.to == t2.to {
            lemma_one_line(ban, from, d1, d2, t1.to as int);
        }
    }
}

/// A square of the padded board that is not a wall is on the board.
proof fn lemma_not_wall(v: KyokumenView, side: KomaInf, x: int)
    requires
        v.walls_ok(),
        side.is_side(),
        0 <= x < 176,
        v.ban[x].value() & side.value() == 0,
    ensures
        on_board(x),
{
    if !on_board(x) {
        assert(v.ban[x] == KomaInf::Wall);
        assert(48u8 & 16u8 != 0 && 48u8 & 32u8 != 0) by (bit_vector);
    }
}

/// A step along line `i` lands on that line.
pub proof fn lemma_step_on_line(v: KyokumenView, side: KomaInf, from: int, i: int, pin: int, r_pin: int)
    requires
        v.walls_ok(),
        side.is_side(),
        on_board(from),
        0 <= i < 8,
    ensures
        no_repeats(add_move_spec(v, side, from, dir_offset(i), pin, r_pin)),
        all_hold(add_move_spec(v, side, from, dir_offset(i), pin, r_pin), on_line(v.ban, from, i)),
        all_hold(add_move_spec(v, side, from, dir_offset(i), pin, r_pin), leaves(from)),
{
    let o = dir_offset(i);
    lemma_add_move_nr(v, side, from, o, pin, r_pin);
    lemma_add_move_ends(v, side, from, o, pin, r_pin);
    let m = add_move_spec(v, side, from, o, pin, r_pin);
    if m.len() > 0 {
        lemma_not_wall(v, side, from + o);
    }
    assert forall|j: int| 0 <= j < m.len() implies #[trigger] on_line(v.ban, from, i)(m[j]) by {
        assert(lands_on(from + o)(m[j]));
    }
}

/// The moves along a slide land on its line, each past the one before.
pub proof fn lemma_slide_nr(v: KyokumenView, side: KomaInf, from: int, d: int, i: int)
    requires
        v.walls_ok(),
        side.is_side(),
        on_board(from),
        0 <= d < 8,
        dir_offset(d) > 0 ==> i > 0,
        dir_offset(d) < 0 ==> i < 0,
        0 <= from + i < 176 ==> ray_reaches(v.ban, from, dir_offset(d), from + i),
    ensures
        no_repeats(slide_spec(v, side, from, dir_offset(d), i)),
        all_hold(slide_spec(v, side, from, dir_offset(d), i), on_line(v.ban, from, d)),
        all_hold(slide_spec(v, side, from, dir_offset(d), i), leaves(from)),
        all_hold(slide_spec(v, side, from, dir_offset(d), i),
            |t: Te| if dir_offset(d) > 0 { t.to >= from + i } else { t.to <= from + i }),
    decreases (if dir_offset(d) > 0 { 176 - (from + i) } else { from + i }),
{
    let dir = dir_offset(d);
    let t = from + i;
    if !(dir == 0 || t < 0 || t >= 176) {
        let head = add_move_spec(v, side, from, i, 0, 0);
        lemma_add_move_nr(v, side, from, i, 0, 0);
        lemma_add_move_ends(v, side, from, i, 0, 0);
        if head.len() > 0 {
            lemma_not_wall(v, side, t);
        }
        let past = |tt: Te| if dir > 0 { tt.to >= from + i } else { tt.to <= from + i };
        assert forall|j: int| 0 <= j < head.len() implies #[trigger] on_line(v.ban, from, d)(head[j]) && past(head[j]) by {
            assert(lands_on(t)(head[j]));
        }
        if v.ban[t] == KomaInf::EMP && 0 <= t + dir < 176 {
            lemma_ray_through(v.ban, from, dir, t, t + dir);
            lemma_slide_nr(v, side, from, d, i + dir);
            let rest = slide_spec(v, side, from, dir, i + dir);
            let beyond = |tt: Te| if dir > 0 { tt.to >= from + i + dir } else { tt.to <= from + i + dir };
            assert forall|t1: Te, t2: Te| #[trigger] lands_on(t)(t1) && #[trigger] beyond(t2) implies !t1.same_move(t2) by {}
            assert forall|j: int| 0 <= j < head.len() implies #[trigger] lands_on(t)(head[j]) by {}
            lemma_join_apart(head, rest, lands_on(t), beyond);
            lemma_all_hold_add(head, rest, on_line(v.ban, from, d));
            lemma_all_hold_add(head, rest, leaves(from));
            assert forall|j: int| 0 <= j < rest.len() implies #[trigger] past(rest[j]) by {
                assert(beyond(rest[j]));
            }
            lemma_all_hold_add(head, rest, past);
        }
    }
}

/// The moves on one of the lines `lines` from `from`.
pub open spec fn in_lines(ban: Seq<KomaInf>, from: int, lines: Set<int>) -> spec_fn(Te) -> bool {
    |t: Te| exists|d: int| lines.contains(d) && 0 <= d < 8 && #[trigger] on_line(ban, from, d)(t)
}

proof fn lemma_lines_start(a: Seq<Te>, ban: Seq<KomaInf>, from: int, e: int)
    requires
        0 <= e < 8,
        all_hold(a, on_line(ban, from, e)),
    ensures
        all_hold(a, in_lines(ban, from, set![e])),
{
    assert forall|j: int| 0 <= j < a.len() implies #[trigger] in_lines(ban, from, set![e])(a[j]) by {
        assert(on_line(ban, from, e)(a[j]));
        assert(set![e].contains(e));
    }
}

/// Moves on the lines of `lines` joined with moves on another line.
proof fn lemma_join_lines(ban: Seq<KomaInf>, from: int, a: Seq<Te>, b: Seq<Te>, lines: Set<int>, e: int)
    requires
        framed(ban),
        on_board(from),
        no_repeats(a),
        no_repeats(b),
        all_hold(a, in_lines(ban, from, lines)),
        all_hold(b, on_line(ban, from, e)),
        0 <= e < 8,
        !lines.contains(e),
    ensures
        no_repeats(a + b),
        all_hold(a + b, in_lines(ban, from, lines.insert(e))),
{
    assert forall|t1: Te, t2: Te| #[trigger] in_lines(ban, from, lines)(t1) && #[trigger] on_line(ban, from, e)(t2)
        implies !t1.same_move(t2) by {
        let d = choose|d: int| lines.contains(d) && 0 <= d < 8 && #[trigger] on_line(ban, from, d)(t1);
        if t1.to == t2.to {
            lemma_one_line(ban, from, d, e, t1.to as int);
        }
    }
    lemma_join_apart(a, b, in_lines(ban, from, lines), on_line(ban, from, e));
    let c = a + b;
    assert forall|j: int| 0 <= j < c.len() implies #[trigger] in_lines(ban, from, lines.insert(e))(c[j]) by {
        if j < a.len() {
            assert(c[j] == a[j]);
            assert(in_lines(ban, from, lines)(a[j]));
            let d = choose|d: int| lines.contains(d) && 0 <= d < 8 && #[trigger] on_line(ban, from, d)(a[j]);
            assert(lines.insert(e).contains(d));
        } else {
            assert(c[j] == b[j - a.len()]);
            assert(on_line(ban, from, e)(b[j - a.len()]));
            assert(lines.insert(e).contains(e));
        }
    }
}

/// The moves along a slide, when a slide is allowed.
pub proof fn lemma_straight_nr(v: KyokumenView, side: KomaInf, from: int, d: int, pin: int, r_pin: int)
    requires
        v.walls_ok(),
        side.is_side(),
        on_board(from),
        0 <= d < 8,
    ensures
        no_repeats(add_straight_spec(v, side, from, dir_offset(d), pin, r_pin)),
        all_hold(add_straight_spec(v, side, from, dir_offset(d), pin, r_pin), on_line(v.ban, from, d)),
        all_hold(add_straight_spec(v, side, from, dir_offset(d), pin, r_pin), leaves(from)),
{
    reveal(add_straight_spec);
    lemma_slide_nr(v, side, from, d, dir_offset(d));
}

/// The moves of the piece on `from` hold no move twice and all leave
/// `from` (the king's, from the king's square, which is `from`).
pub proof fn lemma_add_moves_nr(v: KyokumenView, side: KomaInf, from: int, pin: int, r_pin: int)
    requires
        v.walls_ok(),
        side.is_side(),
        on_board(from),
        v.ban[from].value() & side.value() != 0,
        v.ban[from] == piece(side, KomaInf::OU) ==> from == v.king(side) as int && king_stands(v, side),
    ensures
        no_repeats(add_moves_spec(v, side, from, pin, r_pin)),
        all_hold(add_moves_spec(v, side, from, pin, r_pin), leaves(from)),
{
    let a = |o: int| add_move_spec(v, side, from, o, pin, r_pin);
    let st = |o: int| add_straight_spec(v, side, from, o, pin, r_pin);
    assert(framed(v.ban));
    match v.ban[from] {
        KomaInf::SFU => {
            lemma_step_on_line(v, side, from, 6, pin, r_pin);
            lemma_lines_start(a(-1), v.ban, from, 6);
        },
        KomaInf::EFU => {
            lemma_step_on_line(v, side, from, 1, pin, r_pin);
            lemma_lines_start(a(1), v.ban, from, 1);
        },
        KomaInf::SKY => {
            lemma_straight_nr(v, side, from, 6, pin, r_pin);
            lemma_lines_start(st(-1), v.ban, from, 6);
        },
        KomaInf::EKY => {
            lemma_straight_nr(v, side, from, 1, pin, r_pin);
            lemma_lines_start(st(1), v.ban, from, 1);
        },
        KomaInf::SGI => {
            lemma_step_on_line(v, side, from, 6, pin, r_pin);
            lemma_step_on_line(v, side, from, 7, pin, r_pin);
            lemma_step_on_line(v, side, from, 5, pin, r_pin);
            lemma_step_on_line(v, side, from, 0, pin, r_pin);
            lemma_step_on_line(v, side, from, 2, pin, r_pin);
            lemma_lines_start(a(-1), v.ban, from, 6);
            lemma_join_lines(v.ban, from, a(-1), a(-17), set![6int], 7);
            lemma_join_lines(v.ban, from, a(-1) + a(-17), a(15), set![6int].insert(7int), 5);
            lemma_join_lines(v.ban, from, a(-1) + a(-17) + a(15), a(17), set![6int].insert(7int).insert(5int), 0);
            lemma_join_lines(v.ban, from, a(-1) + a(-17) + a(15) + a(17), a(-15), set![6int].insert(7int).insert(5int).insert(0int), 2);
            lemma_all_hold_add(a(-1), a(-17), leaves(from));
            lemma_all_hold_add(a(-1) + a(-17), a(15), leaves(from));
            lemma_all_hold_add(a(-1) + a(-17) + a(15), a(17), leaves(from));
            lemma_all_hold_add(a(-1) + a(-17) + a(15) + a(17), a(-15), leaves(from));
        },
        KomaInf::EGI => {
            lemma_step_on_line(v, side, from, 1, pin, r_pin);
            lemma_step_on_line(v, side, from, 0, pin, r_pin);
            lemma_step_on_line(v, side, from, 2, pin, r_pin);
            lemma_step_on_line(v, side, from, 7, pin, r_pin);
            lemma_step_on_line(v, side, from, 5, pin, r_pin);
            lemma_lines_start(a(1), v.ban, from, 1);
            lemma_join_lines(v.ban, from, a(1), a(17), set![1int], 0);
            lemma_join_lines(v.ban, from, a(1) + a(17), a(-15), set![1int].insert(0int), 2);
            lemma_join_lines(v.ban, from, a(1) + a(17) + a(-15), a(-17), set![1int].insert(0int).insert(2int), 7);
            lemma_join_lines(v.ban, from, a(1) + a(17) + a(-15) + a(-17), a(15), set![1int].insert(0int).insert(2int).insert(7int), 5);
            lemma_all_hold_add(a(1), a(17), leaves(from));
            lemma_all_hold_add(a(1) + a(17), a(-15), leaves(from));
            lemma_all_hold_add(a(1) + a(17) + a(-15), a(-17), leaves(from));
            lemma_all_hold_add(a(1) + a(17) + a(-15) + a(-17), a(15), leaves(from));
        },
        KomaInf::SKI | KomaInf::STO | KomaInf::SNY | KomaInf::SNK | KomaInf::SNG => {
            lemma_step_on_line(v, side, from, 6, pin, r_pin);
            lemma_step_on_line(v, side, from, 7, pin, r_pin);
            lemma_step_on_line(v, side, from, 5, pin, r_pin);
            lemma_step_on_line(v, side, from, 1, pin, r_pin);
            lemma_step_on_line(v, side, from, 4, pin, r_pin);
            lemma_step_on_line(v, side, from, 3, pin, r_pin);
            lemma_lines_start(a(-1), v.ban, from, 6);
            lemma_join_lines(v.ban, from, a(-1), a(-17), set![6int], 7);
            lemma_join_lines(v.ban, from, a(-1) + a(-17), a(15), set![6int].insert(7int), 5);
            lemma_join_lines(v.ban, from, a(-1) + a(-17) + a(15), a(1), set![6int].insert(7int).insert(5int), 1);
            lemma_join_lines(v.ban, from, a(-1) + a(-17) + a(15) + a(1), a(-16), set![6int].insert(7int).insert(5int).insert(1int), 4);
            lemma_join_lines(v.ban, from, a(-1) + a(-17) + a(15) + a(1) + a(-16), a(16), set![6int].insert(7int).insert(5int).insert(1int).insert(4int), 3);
            lemma_all_hold_add(a(-1), a(-17), leaves(from));
            lemma_all_hold_add(a(-1) + a(-17), a(15), leaves(from));
            lemma_all_hold_add(a(-1) + a(-17) + a(15), a(1), leaves(from));
            lemma_all_hold_add(a(-1) + a(-17) + a(15) + a(1), a(-16), leaves(from));
            lemma_all_hold_add(a(-1) + a(-17) + a(15) + a(1) + a(-16), a(16), leaves(from));
        },
        KomaInf::EKI | KomaInf::ETO | KomaInf::ENY | KomaInf::ENK | KomaInf::ENG => {
            lemma_step_on_line(v, side, from, 1, pin, r_pin);
            lemma_step_on_line(v, side, from, 0, pin, r_pin);
            lemma_step_on_line(v, side, from, 2, pin, r_pin);
            lemma_step_on_line(v, side, from, 6, pin, r_pin);
            lemma_step_on_line(v, side, from, 4, pin, r_pin);
            lemma_step_on_line(v, side, from, 3, pin, r_pin);
            lemma_lines_start(a(1), v.ban, from, 1);
            lemma_join_lines(v.ban, from, a(1), a(17), set![1int], 0);
            lemma_join_lines(v.ban, from, a(1) + a(17), a(-15), set![1int].insert(0int), 2);
            lemma_join_lines(v.ban, from, a(1) + a(17) + a(-15), a(-1), set![1int].insert(0int).insert(2int), 6);
            lemma_join_lines(v.ban, from, a(1) + a(17) + a(-15) + a(-1), a(-16), set![1int].insert(0int).insert(2int).insert(6int), 4);
            lemma_join_lines(v.ban, from, a(1) + a(17) + a(-15) + a(-1) + a(-16), a(16), set![1int].insert(0int).insert(2int).insert(6int).insert(4int), 3);
            lemma_all_hold_add(a(1), a(17), leaves(from));
            lemma_all_hold_add(a(1) + a(17), a(-15), leaves(from));
            lemma_all_hold_add(a(1) + a(17) + a(-15), a(-1), leaves(from));
            lemma_all_hold_add(a(1) + a(17) + a(-15) + a(-1), a(-16), leaves(from));
            lemma_all_hold_add(a(1) + a(17) + a(-15) + a(-1) + a(-16), a(16), leaves(from));
        },
        KomaInf::SRY | KomaInf::ERY => {
            lemma_straight_nr(v, side, from, 1, pin, r_pin);
            lemma_straight_nr(v, side, from, 6, pin, r_pin);
            lemma_straight_nr(v, side, from, 4, pin, r_pin);
            lemma_straight_nr(v, side, from, 3, pin, r_pin);
            lemma_step_on_line(v, side, from, 0, pin, r_pin);
            lemma_step_on_line(v, side, from, 2, pin, r_pin);
            lemma_step_on_line(v, side, from, 7, pin, r_pin);
            lemma_step_on_line(v, side, from, 5, pin, r_pin);
            lemma_lines_start(st(1), v.ban, from, 1);
            lemma_join_lines(v.ban, from, st(1), st(-1), set![1int], 6);
            lemma_join_lines(v.ban, from, st(1) + st(-1), st(-16), set![1int].insert(6int), 4);
            lemma_join_lines(v.ban, from, st(1) + st(-1) + st(-16), st(16), set![1int].insert(6int).insert(4int), 3);
            lemma_join_lines(v.ban, from, st(1) + st(-1) + st(-16) + st(16), a(17), set![1int].insert(6int).insert(4int).insert(3int), 0);
            lemma_join_lines(v.ban, from, st(1) + st(-1) + st(-16) + st(16) + a(17), a(-15), set![1int].insert(6int).insert(4int).insert(3int).insert(0int), 2);
            lemma_join_lines(v.ban, from, st(1) + st(-1) + st(-16) + st(16) + a(17) + a(-15), a(-17), set![1int].insert(6int).insert(4int).insert(3int).insert(0int).insert(2int), 7);
            lemma_join_lines(v.ban, from, st(1) + st(-1) + st(-16) + st(16) + a(17) + a(-15) + a(-17), a(15), set![1int].insert(6int).insert(4int).insert(3int).insert(0int).insert(2int).insert(7int), 5);
            lemma_all_hold_add(st(1), st(-1), leaves(from));
            lemma_all_hold_add(st(1) + st(-1), st(-16), leaves(from));
            lemma_all_hold_add(st(1) + st(-1) + st(-16), st(16), leaves(from));
            lemma_all_hold_add(st(1) + st(-1) + st(-16) + st(16), a(17), leaves(from));
            lemma_all_hold_add(st(1) + st(-1) + st(-16) + st(16) + a(17), a(-15), leaves(from));
            lemma_all_hold_add(st(1) + st(-1) + st(-16) + st(16) + a(17) + a(-15), a(-17), leaves(from));
            lemma_all_hold_add(st(1) + st(-1) + st(-16) + st(16) + a(17) + a(-15) + a(-17), a(15), leaves(from));
        },
        KomaInf::SHI | KomaInf::EHI => {
            lemma_straight_nr(v, side, from, 1, pin, r_pin);
            lemma_straight_nr(v, side, from, 6, pin, r_pin);
            lemma_straight_nr(v, side, from, 4, pin, r_pin);
            lemma_straight_nr(v, side, from, 3, pin, r_pin);
            lemma_lines_start(st(1), v.ban, from, 1);
            lemma_join_lines(v.ban, from, st(1), st(-1), set![1int], 6);
            lemma_join_lines(v.ban, from, st(1) + st(-1), st(-16), set![1int].insert(6int), 4);
            lemma_join_lines(v.ban, from, st(1) + st(-1) + st(-16), st(16), set![1int].insert(6int).insert(4int), 3);
            lemma_all_hold_add(st(1), st(-1), leaves(from));
            lemma_all_hold_add(st(1) + st(-1), st(-16), leaves(from));
            lemma_all_hold_add(st(1) + st(-1) + st(-16), st(16), leaves(from));
        },
        KomaInf::SUM | KomaInf::EUM => {
            lemma_straight_nr(v, side, from, 0, pin, r_pin);
            lemma_straight_nr(v, side, from, 7, pin, r_pin);
            lemma_straight_nr(v, side, from, 5, pin, r_pin);
            lemma_straight_nr(v, side, from, 2, pin, r_pin);
            lemma_step_on_line(v, side, from, 1, pin, r_pin);
            lemma_step_on_line(v, side, from, 3, pin, r_pin);
            lemma_step_on_line(v, side, from, 4, pin, r_pin);
            lemma_step_on_line(v, side, from, 6, pin, r_pin);
            lemma_lines_start(st(17), v.ban, from, 0);
            lemma_join_lines(v.ban, from, st(17), st(-17), set![0int], 7);
            lemma_join_lines(v.ban, from, st(17) + st(-17), st(15), set![0int].insert(7int), 5);
            lemma_join_lines(v.ban, from, st(17) + st(-17) + st(15), st(-15), set![0int].insert(7int).insert(5int), 2);
            lemma_join_lines(v.ban, from, st(17) + st(-17) + st(15) + st(-15), a(1), set![0int].insert(7int).insert(5int).insert(2int), 1);
            lemma_join_lines(v.ban, from, st(17) + st(-17) + st(15) + st(-15) + a(1), a(16), set![0int].insert(7int).insert(5int).insert(2int).insert(1int), 3);
            lemma_join_lines(v.ban, from, st(17) + st(-17) + st(15) + st(-15) + a(1) + a(16), a(-16), set![0int].insert(7int).insert(5int).insert(2int).insert(1int).insert(3int), 4);
            lemma_join_lines(v.ban, from, st(17) + st(-17) + st(15) + st(-15) + a(1) + a(16) + a(-16), a(-1), set![0int].insert(7int).insert(5int).insert(2int).insert(1int).insert(3int).insert(4int), 6);
            lemma_all_hold_add(st(17), st(-17), leaves(from));
            lemma_all_hold_add(st(17) + st(-17), st(15), leaves(from));
            lemma_all_hold_add(st(17) + st(-17) + st(15), st(-15), leaves(from));
            lemma_all_hold_add(st(17) + st(-17) + st(15) + st(-15), a(1), leaves(from));
            lemma_all_hold_add(st(17) + st(-17) + st(15) + st(-15) + a(1), a(16), leaves(from));
            lemma_all_hold_add(st(17) + st(-17) + st(15) + st(-15) + a(1) + a(16), a(-16), leaves(from));
            lemma_all_hold_add(st(17) + st(-17) + st(15) + st(-15) + a(1) + a(16) + a(-16), a(-1), leaves(from));
        },
        KomaInf::SKA | KomaInf::EKA => {
            lemma_straight_nr(v, side, from, 0, pin, r_pin);
            lemma_straight_nr(v, side, from, 7, pin, r_pin);
            lemma_straight_nr(v, side, from, 5, pin, r_pin);
            lemma_straight_nr(v, side, from, 2, pin, r_pin);
            lemma_lines_start(st(17), v.ban, from, 0);
            lemma_join_lines(v.ban, from, st(17), st(-17), set![0int], 7);
            lemma_join_lines(v.ban, from, st(17) + st(-17), st(15), set![0int].insert(7int), 5);
            lemma_join_lines(v.ban, from, st(17) + st(-17) + st(15), st(-15), set![0int].insert(7int).insert(5int), 2);
            lemma_all_hold_add(st(17), st(-17), leaves(from));
            lemma_all_hold_add(st(17) + st(-17), st(15), leaves(from));
            lemma_all_hold_add(st(17) + st(-17) + st(15), st(-15), leaves(from));
        },
        KomaInf::SKE | KomaInf::EKE => {
            let (o1, o2) = if v.ban[from] == KomaInf::SKE { (14int, -18int) } else { (-14int, 18int) };
            lemma_add_move_nr(v, side, from, o1, pin, r_pin);
            lemma_add_move_nr(v, side, from, o2, pin, r_pin);
            lemma_add_move_ends(v, side, from, o1, pin, r_pin);
            lemma_add_move_ends(v, side, from, o2, pin, r_pin);
            lemma_move_in_range(v, side, from, o1, pin, r_pin);
            lemma_move_in_range(v, side, from, o2, pin, r_pin);
            assert forall|t1: Te, t2: Te| #[trigger] lands_on(from + o1)(t1) && #[trigger] lands_on(from + o2)(t2)
                implies !t1.same_move(t2) by {}
            lemma_join_apart(a(o1), a(o2), lands_on(from + o1), lands_on(from + o2));
            lemma_all_hold_add(a(o1), a(o2), leaves(from));
        },
        KomaInf::SOU | KomaInf::EOU => {
            crate::generated::lemma_king_piece(side);
            assert(24u8 & 32u8 == 0 && 40u8 & 16u8 == 0) by (bit_vector);
            lemma_move_king_nr(v, side, 0);
            crate::answers::lemma_move_king_leaves(v, side, 0);
        },
        _ => {},
    }
}

/// The king's moves land on different squares.
pub proof fn lemma_move_king_nr(v: KyokumenView, side: KomaInf, kiki: usize)
    requires
        on_board(v.king(side) as int),
    ensures
        no_repeats(move_king_spec(v, side, kiki)),
{
    reveal(move_king_spec);
    let king = v.king(side) as int;
    let id = first_step_bit(kiki, 0);
    let first = match id {
        Some(j) => king_step_spec(v, side, kiki, j),
        None => seq![],
    };
    lemma_king_steps_nr(v, side, kiki, id, 0);
    let others = |t: Te| exists|i: int| 0 <= i < 8 && id != Some(i) && t.to as int == king - #[trigger] dir_offset(i);
    if let Some(j) = id {
        lemma_add_move_nr(v, side, king, -dir_offset(j), 0, 0);
        lemma_add_move_ends(v, side, king, -dir_offset(j), 0, 0);
        assert(0 <= j < 8) by {
            crate::movegen::lemma_first_step_bit(kiki, 0);
        }
        assert forall|t1: Te, t2: Te| #[trigger] lands_on(king - dir_offset(j))(t1) && #[trigger] others(t2)
            implies !t1.same_move(t2) by {
            if t1.to == t2.to {
                let i = choose|i: int| 0 <= i < 8 && id != Some(i) && t2.to as int == king - #[trigger] dir_offset(i);
                assert(dir_offset(i) == dir_offset(j));
            }
        }
        lemma_join_apart(first, king_steps_from(v, side, kiki, id, 0), lands_on(king - dir_offset(j)), others);
    } else {
        assert(first + king_steps_from(v, side, kiki, id, 0) == king_steps_from(v, side, kiki, id, 0));
    }
}

proof fn lemma_king_steps_nr(v: KyokumenView, side: KomaInf, kiki: usize, skip: Option<int>, i: int)
    requires
        on_board(v.king(side) as int),
        0 <= i,
    ensures
        no_repeats(king_steps_from(v, side, kiki, skip, i)),
        all_hold(king_steps_from(v, side, kiki, skip, i),
            |t: Te| exists|j: int| i <= j < 8 && skip != Some(j) && t.to as int == v.king(side) - #[trigger] dir_offset(j)),
    decreases 8 - i,
{
    if i < 8 {
        let king = v.king(side) as int;
        lemma_king_steps_nr(v, side, kiki, skip, i + 1);
        let rest = king_steps_from(v, side, kiki, skip, i + 1);
        let p_rest = |t: Te| exists|j: int| i + 1 <= j < 8 && skip != Some(j) && t.to as int == king - #[trigger] dir_offset(j);
        let p_all = |t: Te| exists|j: int| i <= j < 8 && skip != Some(j) && t.to as int == king - #[trigger] dir_offset(j);
        assert forall|k: int| 0 <= k < rest.len() implies #[trigger] p_all(rest[k]) by {
            assert(p_rest(rest[k]));
            let j = choose|j: int| i + 1 <= j < 8 && skip != Some(j) && rest[k].to as int == king - #[trigger] dir_offset(j);
        }
        if skip != Some(i) {
            let head = king_step_spec(v, side, kiki, i);
            lemma_add_move_nr(v, side, king, -dir_offset(i), 0, 0);
            lemma_add_move_ends(v, side, king, -dir_offset(i), 0, 0);
            assert(no_repeats(head));
            assert(all_hold(head, lands_on(king - dir_offset(i))));
            assert forall|t1: Te, t2: Te| #[trigger] lands_on(king - dir_offset(i))(t1) && #[trigger] p_rest(t2)
                implies !t1.same_move(t2) by {
                if t1.to == t2.to {
                    let j = choose|j: int| i + 1 <= j < 8 && skip != Some(j) && t2.to as int == king - #[trigger] dir_offset(j);
                    assert(dir_offset(i) == dir_offset(j));
                }
            }
            lemma_join_apart(head, rest, lands_on(king - dir_offset(i)), p_rest);
            assert forall|k: int| 0 <= k < head.len() implies #[trigger] p_all(head[k]) by {
                assert(lands_on(king - dir_offset(i))(head[k]));
            }
            lemma_all_hold_add(head, rest, p_all);
        }
    }
}

/// A move that lands at all lands inside the padded board.
proof fn lemma_move_in_range(v: KyokumenView, side: KomaInf, from: int, diff: int, pin: int, r_pin: int)
    requires
        v.walls_ok(),
        side.is_side(),
        -16 <= from + diff,
    ensures
        add_move_spec(v, side, from, diff, pin, r_pin).len() > 0 ==> 0 <= from + diff,
{
    lemma_add_move_nr(v, side, from, diff, pin, r_pin);
    if from + diff < 0 {
        assert(v.banpadding[from + diff + 16] == KomaInf::Wall);
        assert(48u8 & 16u8 != 0 && 48u8 & 32u8 != 0) by (bit_vector);
    }
}

/// The moves that leave square `x` or a later one.
pub open spec fn leaves_from(x: int) -> spec_fn(Te) -> bool {
    |t: Te| t.from as int >= x
}

/// Whether the only square of the board that holds a king of `side` is
/// the king square of `side`.
pub open spec fn one_king(v: KyokumenView, side: KomaInf) -> bool {
    forall|sq: int| on_board(sq) && #[trigger] v.ban[sq] == piece(side, KomaInf::OU) ==> sq == v.king(side) as int
}

/// The moves of the pieces on the board, square by square, repeat no move
/// and leave squares from file `s`, rank `d` on.
pub proof fn lemma_board_nr(v: KyokumenView, side: KomaInf, pin: Seq<isize>, s: int, d: int)
    requires
        v.walls_ok(),
        side.is_side(),
        king_stands(v, side),
        one_king(v, side),
        1 <= d <= 10,
    ensures
        no_repeats(board_moves_spec(v, side, pin, s, d)),
        all_hold(board_moves_spec(v, side, pin, s, d), leaves_from(16 * s + d)),
    decreases 10 - s, 10 - d,
{
    if !(s > 9 || s < 1 || d < 1) {
        if d > 9 {
            lemma_board_nr(v, side, pin, s + 1, 1);
            let m = board_moves_spec(v, side, pin, s + 1, 1);
            assert forall|j: int| 0 <= j < m.len() implies #[trigger] leaves_from(16 * s + d)(m[j]) by {
                assert(leaves_from(16 * (s + 1) + 1)(m[j]));
            }
        } else {
            let sq = 16 * s + d;
            assert(on_board(sq));
            lemma_board_nr(v, side, pin, s, d + 1);
            let rest = board_moves_spec(v, side, pin, s, d + 1);
            let head = if v.ban[sq].value() & side.value() != 0 { add_moves_spec(v, side, sq, pin[sq] as int, 0) } else { seq![] };
            if v.ban[sq].value() & side.value() != 0 {
                lemma_add_moves_nr(v, side, sq, pin[sq] as int, 0);
            }
            assert forall|t1: Te, t2: Te| #[trigger] leaves(sq)(t1) && #[trigger] leaves_from(sq + 1)(t2)
                implies !t1.same_move(t2) by {}
            lemma_join_apart(head, rest, leaves(sq), leaves_from(sq + 1));
            assert forall|j: int| 0 <= j < head.len() implies #[trigger] leaves_from(sq)(head[j]) by {
                assert(leaves(sq)(head[j]));
            }
            assert forall|j: int| 0 <= j < rest.len() implies #[trigger] leaves_from(sq)(rest[j]) by {
                assert(leaves_from(sq + 1)(rest[j]));
            }
            lemma_all_hold_add(head, rest, leaves_from(sq));
        }
    }
}

/// Drops (from no square) of a piece with a code between `lo` and `hi`
/// onto a square from `x` on.
pub open spec fn drops_between(lo: int, hi: int, x: int) -> spec_fn(Te) -> bool {
    |t: Te| t.from == 0 && lo <= t.koma <= hi && t.to as int >= x
}

proof fn lemma_column_nr(v: KyokumenView, side: KomaInf, pin: Seq<isize>, k: KomaInf, fu: bool, s: int, d: int, hi: int)
    requires
        1 <= s <= 9,
        1 <= d,
    ensures
        no_repeats(column_drops(v, side, pin, k, fu, s, d, hi)),
        all_hold(column_drops(v, side, pin, k, fu, s, d, hi), drops_between(k.value() as int, k.value() as int, 16 * s + d)),
        all_hold(column_drops(v, side, pin, k, fu, s, d, hi), |t: Te| t.to as int <= 16 * s + 9),
    decreases 10 - d,
{
    if !(d > hi || d > 9 || d < 1) {
        let sq = 16 * s + d;
        lemma_column_nr(v, side, pin, k, fu, s, d + 1, hi);
        let rest = column_drops(v, side, pin, k, fu, s, d + 1, hi);
        let head = if v.ban[sq] == KomaInf::EMP && !(fu && crate::gen_spec::utifudume_spec(v, side, sq, pin)) {
            seq![crate::te::te_of(0, sq, k, KomaInf::EMP, 0)]
        } else {
            seq![]
        };
        let kv = k.value() as int;
        assert forall|t1: Te, t2: Te| #[trigger] lands_on(sq)(t1) && #[trigger] drops_between(kv, kv, sq + 1)(t2)
            implies !t1.same_move(t2) by {}
        assert(all_hold(head, lands_on(sq)));
        lemma_join_apart(head, rest, lands_on(sq), drops_between(kv, kv, sq + 1));
        assert(all_hold(head, drops_between(kv, kv, sq)));
        assert forall|j: int| 0 <= j < rest.len() implies #[trigger] drops_between(kv, kv, sq)(rest[j]) by {
            assert(drops_between(kv, kv, sq + 1)(rest[j]));
        }
        lemma_all_hold_add(head, rest, drops_between(kv, kv, sq));
        lemma_all_hold_add(head, rest, |t: Te| t.to as int <= 16 * s + 9);
    }
}

proof fn lemma_file_nr(v: KyokumenView, side: KomaInf, pin: Seq<isize>, k: KomaInf, fu: bool, s: int, lo: int, hi: int)
    requires
        1 <= s,
        1 <= lo,
    ensures
        no_repeats(file_drops(v, side, pin, k, fu, s, lo, hi)),
        all_hold(file_drops(v, side, pin, k, fu, s, lo, hi), drops_between(k.value() as int, k.value() as int, 16 * s + 1)),
    decreases 10 - s,
{
    if !(s > 9 || s < 1) {
        lemma_file_nr(v, side, pin, k, fu, s + 1, lo, hi);
        let rest = file_drops(v, side, pin, k, fu, s + 1, lo, hi);
        let kv = k.value() as int;
        let head = if fu && crate::gen_spec::nifu(v, side, 16 * s) { seq![] } else { column_drops(v, side, pin, k, fu, s, lo, hi) };
        lemma_column_nr(v, side, pin, k, fu, s, lo, hi);
        let here = |t: Te| t.to as int <= 16 * s + 9;
        assert(all_hold(head, here));
        assert forall|t1: Te, t2: Te| #[trigger] here(t1) && #[trigger] drops_between(kv, kv, 16 * (s + 1) + 1)(t2)
            implies !t1.same_move(t2) by {}
        lemma_join_apart(head, rest, here, drops_between(kv, kv, 16 * (s + 1) + 1));
        assert forall|j: int| 0 <= j < head.len() implies #[trigger] drops_between(kv, kv, 16 * s + 1)(head[j]) by {
            assert(drops_between(kv, kv, 16 * s + lo)(head[j]));
        }
        assert forall|j: int| 0 <= j < rest.len() implies #[trigger] drops_between(kv, kv, 16 * s + 1)(rest[j]) by {
            assert(drops_between(kv, kv, 16 * (s + 1) + 1)(rest[j]));
        }
        lemma_all_hold_add(head, rest, drops_between(kv, kv, 16 * s + 1));
    }
}

proof fn lemma_hand_nr(v: KyokumenView, side: KomaInf, pin: Seq<isize>, koma: int)
    requires
        side.is_side(),
        4 <= koma,
    ensures
        no_repeats(hand_drops(v, side, pin, koma)),
        all_hold(hand_drops(v, side, pin, koma), drops_between(side.value() + koma, side.value() + 7, 17)),
    decreases 8 - koma,
{
    if koma <= 7 {
        lemma_hand_nr(v, side, pin, koma + 1);
        let rest = hand_drops(v, side, pin, koma + 1);
        crate::koma_inf::lemma_mark_kind(koma as u8);
        KomaInf::lemma_from_value((side.value() | koma as u8) as u8);
        let k = KomaInf::from_value((side.value() | koma as u8) as u8).unwrap();
        let kv = k.value() as int;
        assert(kv == side.value() + koma);
        let head = if v.hand[(side.value() | koma as u8) as int] > 0 { file_drops(v, side, pin, k, false, 1, 1, 9) } else { seq![] };
        lemma_file_nr(v, side, pin, k, false, 1, 1, 9);
        let lo = side.value() + koma;
        let hi = side.value() + 7;
        assert forall|t1: Te, t2: Te| #[trigger] drops_between(kv, kv, 17)(t1) && #[trigger] drops_between(lo + 1, hi, 17)(t2)
            implies !t1.same_move(t2) by {}
        assert(all_hold(head, drops_between(kv, kv, 17)));
        lemma_join_apart(head, rest, drops_between(kv, kv, 17), drops_between(lo + 1, hi, 17));
        assert forall|j: int| 0 <= j < head.len() implies #[trigger] drops_between(lo, hi, 17)(head[j]) by {
            assert(drops_between(kv, kv, 17)(head[j]));
        }
        assert forall|j: int| 0 <= j < rest.len() implies #[trigger] drops_between(lo, hi, 17)(rest[j]) by {
            assert(drops_between(lo + 1, hi, 17)(rest[j]));
        }
        lemma_all_hold_add(head, rest, drops_between(lo, hi, 17));
    }
}

/// A property every move has implies another.
pub proof fn lemma_weaken(a: Seq<Te>, p: spec_fn(Te) -> bool, q: spec_fn(Te) -> bool)
    requires
        all_hold(a, p),
        forall|t: Te| #[trigger] p(t) ==> q(t),
    ensures
        all_hold(a, q),
{
    assert forall|j: int| 0 <= j < a.len() implies #[trigger] q(a[j]) by {
        assert(p(a[j]));
    }
}

/// The moves or the drops of codes up to `k`.
pub open spec fn board_or_up_to(k: int) -> spec_fn(Te) -> bool {
    |t: Te| t.from as int >= 17 || (t.from == 0 && t.koma <= k)
}

/// Out of check, the generator repeats no move.
proof fn lemma_quiet_nr(v: KyokumenView, side: KomaInf, pin: Seq<isize>)
    requires
        v.walls_ok(),
        side.is_side(),
        king_stands(v, side),
        one_king(v, side),
    ensures
        no_repeats(quiet_moves_spec(v, side, pin)),
{
    let fu = piece(side, KomaInf::FU);
    let ky = piece(side, KomaInf::KY);
    let ke = piece(side, KomaInf::KE);
    let own = side == KomaInf::Self_;
    let sv = side.value() as int;
    crate::drops::lemma_piece(side, KomaInf::FU);
    crate::drops::lemma_piece(side, KomaInf::KY);
    crate::drops::lemma_piece(side, KomaInf::KE);
    let bm = board_moves_spec(v, side, pin, 1, 1);
    let d1 = if v.hand[fu.value() as int] > 0 { file_drops(v, side, pin, fu, true, 1, if own { 2 } else { 1 }, if own { 9 } else { 8 }) } else { seq![] };
    let d2 = if v.hand[ky.value() as int] > 0 { file_drops(v, side, pin, ky, false, 1, if own { 2 } else { 1 }, if own { 9 } else { 8 }) } else { seq![] };
    let d3 = if v.hand[ke.value() as int] > 0 { file_drops(v, side, pin, ke, false, 1, if own { 3 } else { 1 }, if own { 9 } else { 7 }) } else { seq![] };
    let d4 = hand_drops(v, side, pin, 4);
    lemma_board_nr(v, side, pin, 1, 1);
    lemma_file_nr(v, side, pin, fu, true, 1, if own { 2 } else { 1 }, if own { 9 } else { 8 });
    lemma_file_nr(v, side, pin, ky, false, 1, if own { 2 } else { 1 }, if own { 9 } else { 8 });
    lemma_file_nr(v, side, pin, ke, false, 1, if own { 3 } else { 1 }, if own { 9 } else { 7 });
    lemma_hand_nr(v, side, pin, 4);
    assert(all_hold(d1, drops_between(sv + 1, sv + 1, 17)));
    assert(all_hold(d2, drops_between(sv + 2, sv + 2, 17)));
    assert(all_hold(d3, drops_between(sv + 3, sv + 3, 17)));
    assert(all_hold(d4, drops_between(sv + 4, sv + 7, 17)));
    lemma_weaken(bm, leaves_from(17), board_or_up_to(sv));
    assert forall|t1: Te, t2: Te| #[trigger] board_or_up_to(sv)(t1) && #[trigger] drops_between(sv + 1, sv + 1, 17)(t2) implies !t1.same_move(t2) by {}
    lemma_join_apart(bm, d1, board_or_up_to(sv), drops_between(sv + 1, sv + 1, 17));
    lemma_weaken(bm, board_or_up_to(sv), board_or_up_to(sv + 1));
    lemma_weaken(d1, drops_between(sv + 1, sv + 1, 17), board_or_up_to(sv + 1));
    lemma_all_hold_add(bm, d1, board_or_up_to(sv + 1));
    assert forall|t1: Te, t2: Te| #[trigger] board_or_up_to(sv + 1)(t1) && #[trigger] drops_between(sv + 2, sv + 2, 17)(t2) implies !t1.same_move(t2) by {}
    lemma_join_apart(bm + d1, d2, board_or_up_to(sv + 1), drops_between(sv + 2, sv + 2, 17));
    lemma_weaken(bm + d1, board_or_up_to(sv + 1), board_or_up_to(sv + 2));
    lemma_weaken(d2, drops_between(sv + 2, sv + 2, 17), board_or_up_to(sv + 2));
    lemma_all_hold_add(bm + d1, d2, board_or_up_to(sv + 2));
    assert forall|t1: Te, t2: Te| #[trigger] board_or_up_to(sv + 2)(t1) && #[trigger] drops_between(sv + 3, sv + 3, 17)(t2) implies !t1.same_move(t2) by {}
    lemma_join_apart(bm + d1 + d2, d3, board_or_up_to(sv + 2), drops_between(sv + 3, sv + 3, 17));
    lemma_weaken(bm + d1 + d2, board_or_up_to(sv + 2), board_or_up_to(sv + 3));
    lemma_weaken(d3, drops_between(sv + 3, sv + 3, 17), board_or_up_to(sv + 3));
    lemma_all_hold_add(bm + d1 + d2, d3, board_or_up_to(sv + 3));
    assert forall|t1: Te, t2: Te| #[trigger] board_or_up_to(sv + 3)(t1) && #[trigger] drops_between(sv + 4, sv + 7, 17)(t2) implies !t1.same_move(t2) by {}
    lemma_join_apart(bm + d1 + d2 + d3, d4, board_or_up_to(sv + 3), drops_between(sv + 4, sv + 7, 17));
    assert(quiet_moves_spec(v, side, pin) == bm + d1 + d2 + d3 + d4);
}

/// The moves onto `to` along direction `dir`, as `move_to_dir` finds
/// them: from a square of the board that a slide along a line reaches
/// `to` from, or a knight's step back from `to`.
pub open spec fn source(ban: Seq<KomaInf>, to: int, dir: int) -> spec_fn(Te) -> bool {
    |t: Te| on_board(t.from as int) && t.from > 0x10 && (if dir < 8 {
        ray_reaches(ban, t.from as int, dir_offset(dir), to)
    } else {
        t.from as int == to - dir_offset(dir)
    })
}

/// The moves that are not the king's and leave a square of the board.
pub open spec fn not_king(side: KomaInf) -> spec_fn(Te) -> bool {
    |t: Te| t.from as int >= 17 && t.koma != piece(side, KomaInf::OU).value()
}

/// A slide along a line cannot join two squares a knight's step apart.
proof fn lemma_knight_off_line(ban: Seq<KomaInf>, f: int, d: int, k: int, to: int)
    requires
        framed(ban),
        on_board(f),
        on_board(to),
        0 <= d < 8,
        8 <= k < 12,
        to == f + dir_offset(k),
    ensures
        !ray_reaches(ban, f, dir_offset(d), to),
{
    if ray_reaches(ban, f, dir_offset(d), to) {
        let n = lemma_ray_coords(ban, f, d, to);
        let kf = if k == 8 || k == 10 { 1int } else { -1int };
        let kr = if k == 8 || k == 9 { -2int } else { 2int };
        assert(dir_offset(k) == 16 * kf + kr);
        assert(to / 16 == f / 16 + kf && to % 16 == f % 16 + kr);
        let df = file_step(d);
        let dr = rank_step(d);
        assert(false) by (nonlinear_arith)
            requires
                n >= 1, n * df == kf, n * dr == kr,
                -1 <= df <= 1, -1 <= dr <= 1, kf == 1 || kf == -1, kr == 2 || kr == -2;
    }
}

/// Moves from two different directions onto `to` leave different squares.
proof fn lemma_sources_apart(ban: Seq<KomaInf>, to: int, d1: int, d2: int)
    requires
        framed(ban),
        on_board(to),
        0 <= d1 < 12,
        0 <= d2 < 12,
        d1 != d2,
    ensures
        forall|t1: Te, t2: Te| #[trigger] source(ban, to, d1)(t1) && #[trigger] source(ban, to, d2)(t2) ==> !t1.same_move(t2),
{
    assert forall|t1: Te, t2: Te| #[trigger] source(ban, to, d1)(t1) && #[trigger] source(ban, to, d2)(t2)
        implies !t1.same_move(t2) by {
        if t1.from == t2.from {
            let f = t1.from as int;
            if d1 < 8 && d2 < 8 {
                lemma_one_line(ban, f, d1, d2, to);
            } else if d1 < 8 {
                lemma_knight_off_line(ban, f, d1, d2, to);
            } else if d2 < 8 {
                lemma_knight_off_line(ban, f, d2, d1, to);
            }
        }
    }
}

/// The moves onto `to` along `dir` come from that direction, are not the
/// king's, and do not repeat.
proof fn lemma_move_to_dir_nr(v: KyokumenView, side: KomaInf, to: int, pin: Seq<isize>, dir: int)
    requires
        v.walls_ok(),
        side.is_side(),
        on_board(to),
        0 <= dir < 12,
    ensures
        no_repeats(move_to_dir(v, side, to, pin, dir)),
        all_hold(move_to_dir(v, side, to, pin, dir), source(v.ban, to, dir)),
        all_hold(move_to_dir(v, side, to, pin, dir), not_king(side)),
{
    let o = dir_offset(dir);
    let p = to - o;
    let q = v.walk(to, -o);
    crate::drops::lemma_opp_dir(dir);
    let k = v.at(p);
    let kq = v.at(q);
    crate::generated::lemma_king_piece(side);
    KomaInf::lemma_value_from(piece(side, KomaInf::OU));
    if k != KomaInf::EMP {
        if k.value() & side.value() != 0 && k != piece(side, KomaInf::OU) && crate::koma_moves::moves_to(dir, k)
            && crate::gen_spec::pin_allows(pin[p], o) {
            crate::drops::lemma_mover_on_board(v, dir, p);
            KomaInf::lemma_value_from(k);
            let m = add_move_spec(v, side, p, o, 0, 0);
            lemma_add_move_nr(v, side, p, o, 0, 0);
            lemma_add_move_ends(v, side, p, o, 0, 0);
            assert forall|j: int| 0 <= j < m.len() implies #[trigger] source(v.ban, to, dir)(m[j]) && not_king(side)(m[j]) by {
                assert(leaves(p)(m[j]) && moves_piece(v.ban[p].value())(m[j]));
            }
        }
    } else if dir < 8 && kq.value() & side.value() != 0 && kq != piece(side, KomaInf::OU) && crate::koma_moves::slides(dir, kq)
        && crate::gen_spec::pin_allows(pin[q], o) {
        v.lemma_walk(to, crate::drops::opp_dir(dir));
        crate::drops::lemma_mover_on_board(v, dir, q);
        crate::generated::lemma_walk_ray(v, to, o);
        KomaInf::lemma_value_from(kq);
        let m = add_move_spec(v, side, q, to - q, 0, 0);
        lemma_add_move_nr(v, side, q, to - q, 0, 0);
        lemma_add_move_ends(v, side, q, to - q, 0, 0);
        assert forall|j: int| 0 <= j < m.len() implies #[trigger] source(v.ban, to, dir)(m[j]) && not_king(side)(m[j]) by {
            assert(leaves(q)(m[j]) && moves_piece(v.ban[q].value())(m[j]));
        }
    }
}

/// The moves onto `to` over directions `dir..12` repeat no move.
proof fn lemma_move_to_from_nr(v: KyokumenView, side: KomaInf, to: int, pin: Seq<isize>, dir: int)
    requires
        v.walls_ok(),
        side.is_side(),
        on_board(to),
        0 <= dir,
    ensures
        no_repeats(move_to_from(v, side, to, pin, dir)),
        all_hold(move_to_from(v, side, to, pin, dir), |t: Te| exists|d: int| dir <= d < 12 && #[trigger] source(v.ban, to, d)(t)),
        all_hold(move_to_from(v, side, to, pin, dir), not_king(side)),
    decreases 12 - dir,
{
    if dir < 12 {
        lemma_move_to_dir_nr(v, side, to, pin, dir);
        lemma_move_to_from_nr(v, side, to, pin, dir + 1);
        let head = move_to_dir(v, side, to, pin, dir);
        let rest = move_to_from(v, side, to, pin, dir + 1);
        let p_rest = |t: Te| exists|d: int| dir + 1 <= d < 12 && #[trigger] source(v.ban, to, d)(t);
        let p_all = |t: Te| exists|d: int| dir <= d < 12 && #[trigger] source(v.ban, to, d)(t);
        assert forall|t1: Te, t2: Te| #[trigger] source(v.ban, to, dir)(t1) && #[trigger] p_rest(t2) implies !t1.same_move(t2) by {
            let d = choose|d: int| dir + 1 <= d < 12 && #[trigger] source(v.ban, to, d)(t2);
            lemma_sources_apart(v.ban, to, dir, d);
        }
        lemma_join_apart(head, rest, source(v.ban, to, dir), p_rest);
        assert forall|j: int| 0 <= j < head.len() implies #[trigger] p_all(head[j]) by {
            assert(source(v.ban, to, dir)(head[j]));
        }
        assert forall|j: int| 0 <= j < rest.len() implies #[trigger] p_all(rest[j]) by {
            assert(p_rest(rest[j]));
            let d = choose|d: int| dir + 1 <= d < 12 && #[trigger] source(v.ban, to, d)(rest[j]);
        }
        lemma_all_hold_add(head, rest, p_all);
        lemma_all_hold_add(head, rest, not_king(side));
    }
}

/// The moves onto `to` repeat no move, are not the king's and land on
/// `to`.
pub proof fn lemma_move_to_nr(v: KyokumenView, side: KomaInf, to: int, pin: Seq<isize>)
    requires
        v.walls_ok(),
        side.is_side(),
        on_board(to),
    ensures
        no_repeats(move_to_spec(v, side, to, pin)),
        all_hold(move_to_spec(v, side, to, pin), not_king(side)),
        all_hold(move_to_spec(v, side, to, pin), lands_on(to)),
{
    lemma_move_to_from_nr(v, side, to, pin, 0);
    crate::answers::lemma_move_to_lands(v, side, to, pin, 0);
}

/// The moves that land on an empty square, `i` or one behind it along
/// `off`.
pub open spec fn lands_behind(ban: Seq<KomaInf>, off: int, i: int) -> spec_fn(Te) -> bool {
    |t: Te| (t.to as int == i || ray_reaches(ban, t.to as int, off, i)) && ban[t.to as int] == KomaInf::EMP
}

proof fn lemma_interpose_moves_nr(v: KyokumenView, side: KomaInf, i: int, off: int, pin: Seq<isize>)
    requires
        v.walls_ok(),
        side.is_side(),
    ensures
        no_repeats(interpose_moves(v, side, i, off, pin)),
        all_hold(interpose_moves(v, side, i, off, pin), lands_behind(v.ban, off, i)),
        all_hold(interpose_moves(v, side, i, off, pin), not_king(side)),
    decreases (if off < 0 { 176 - i } else { i }),
{
    if !(off == 0 || i < 0 || i >= 176) && v.ban[i] == KomaInf::EMP {
        assert(on_board(i)) by {
            if !on_board(i) { assert(v.ban[i] == KomaInf::Wall); }
        }
        lemma_move_to_nr(v, side, i, pin);
        let head = move_to_spec(v, side, i, pin);
        let rest = if 0 <= i - off < 176 { interpose_moves(v, side, i - off, off, pin) } else { seq![] };
        let behind = |t: Te| ray_reaches(v.ban, t.to as int, off, i) && v.ban[t.to as int] == KomaInf::EMP;
        if 0 <= i - off < 176 {
            lemma_interpose_moves_nr(v, side, i - off, off, pin);
            assert forall|j: int| 0 <= j < rest.len() implies #[trigger] behind(rest[j]) by {
                assert(lands_behind(v.ban, off, i - off)(rest[j]));
                assert(v.ban[i - off] == KomaInf::EMP);
                let x = rest[j].to as int;
                if x != i - off {
                    lemma_ray_through(v.ban, x, off, i - off, i);
                }
            }
        }
        assert forall|t1: Te, t2: Te| #[trigger] lands_on(i)(t1) && #[trigger] behind(t2) implies !t1.same_move(t2) by {
            if t1.to == t2.to {
                lemma_ray_direction(v.ban, i, off, i);
            }
        }
        lemma_join_apart(head, rest, lands_on(i), behind);
        lemma_weaken(head, lands_on(i), lands_behind(v.ban, off, i));
        lemma_weaken(rest, behind, lands_behind(v.ban, off, i));
        lemma_all_hold_add(head, rest, lands_behind(v.ban, off, i));
        lemma_all_hold_add(head, rest, not_king(side));
    }
}

proof fn lemma_drops_from_nr(v: KyokumenView, side: KomaInf, to: int, koma: int)
    requires
        side.is_side(),
        4 <= koma,
        0 <= to < 176,
    ensures
        no_repeats(drops_from(v, side, to, koma)),
        all_hold(drops_from(v, side, to, koma), drops_between(side.value() + koma, side.value() + 7, to)),
    decreases 8 - koma,
{
    if koma <= 7 {
        lemma_drops_from_nr(v, side, to, koma + 1);
        crate::koma_inf::lemma_mark_kind(koma as u8);
        KomaInf::lemma_from_value((side.value() | koma as u8) as u8);
        let k = KomaInf::from_value((side.value() | koma as u8) as u8).unwrap();
        let head = if v.hand[(side.value() | koma as u8) as int] > 0 { seq![crate::te::te_of(0, to, k, KomaInf::EMP, 0)] } else { seq![] };
        let rest = drops_from(v, side, to, koma + 1);
        let lo = side.value() + koma;
        let hi = side.value() + 7;
        assert(all_hold(head, drops_between(lo, lo, to)));
        assert forall|t1: Te, t2: Te| #[trigger] drops_between(lo, lo, to)(t1) && #[trigger] drops_between(lo + 1, hi, to)(t2)
            implies !t1.same_move(t2) by {}
        lemma_join_apart(head, rest, drops_between(lo, lo, to), drops_between(lo + 1, hi, to));
        lemma_weaken(head, drops_between(lo, lo, to), drops_between(lo, hi, to));
        lemma_weaken(rest, drops_between(lo + 1, hi, to), drops_between(lo, hi, to));
        lemma_all_hold_add(head, rest, drops_between(lo, hi, to));
    }
}

/// The drops on one square repeat no piece.
proof fn lemma_put_to_nr(v: KyokumenView, side: KomaInf, to: int, pin: Seq<isize>)
    requires
        side.is_side(),
        0 <= to < 176,
    ensures
        no_repeats(put_to_spec(v, side, to, pin)),
        all_hold(put_to_spec(v, side, to, pin), drops_between(0, 255, to)),
{
    reveal(put_to_spec);
    reveal(fu_drop_spec);
    let dan = crate::gen_spec::rank_for(side, to);
    let fu = piece(side, KomaInf::FU);
    let ky = piece(side, KomaInf::KY);
    let ke = piece(side, KomaInf::KE);
    crate::drops::lemma_piece(side, KomaInf::FU);
    crate::drops::lemma_piece(side, KomaInf::KY);
    crate::drops::lemma_piece(side, KomaInf::KE);
    let sv = side.value() as int;
    let m1 = fu_drop_spec(v, side, to, pin);
    let m2 = if v.hand[ky.value() as int] > 0 && dan > 1 { seq![crate::te::te_of(0, to, ky, KomaInf::EMP, 0)] } else { seq![] };
    let m3 = if v.hand[ke.value() as int] > 0 && dan > 2 { seq![crate::te::te_of(0, to, ke, KomaInf::EMP, 0)] } else { seq![] };
    let m4 = drops_from(v, side, to, 4);
    lemma_drops_from_nr(v, side, to, 4);
    assert(all_hold(m1, drops_between(sv + 1, sv + 1, to)));
    assert(all_hold(m2, drops_between(sv + 2, sv + 2, to)));
    assert(all_hold(m3, drops_between(sv + 3, sv + 3, to)));
    assert forall|t1: Te, t2: Te| #[trigger] drops_between(sv + 1, sv + 1, to)(t1) && #[trigger] drops_between(sv + 2, sv + 2, to)(t2)
        implies !t1.same_move(t2) by {}
    lemma_join_apart(m1, m2, drops_between(sv + 1, sv + 1, to), drops_between(sv + 2, sv + 2, to));
    lemma_weaken(m1, drops_between(sv + 1, sv + 1, to), drops_between(sv + 1, sv + 2, to));
    lemma_weaken(m2, drops_between(sv + 2, sv + 2, to), drops_between(sv + 1, sv + 2, to));
    lemma_all_hold_add(m1, m2, drops_between(sv + 1, sv + 2, to));
    assert forall|t1: Te, t2: Te| #[trigger] drops_between(sv + 1, sv + 2, to)(t1) && #[trigger] drops_between(sv + 3, sv + 3, to)(t2)
        implies !t1.same_move(t2) by {}
    lemma_join_apart(m1 + m2, m3, drops_between(sv + 1, sv + 2, to), drops_between(sv + 3, sv + 3, to));
    lemma_weaken(m1 + m2, drops_between(sv + 1, sv + 2, to), drops_between(sv + 1, sv + 3, to));
    lemma_weaken(m3, drops_between(sv + 3, sv + 3, to), drops_between(sv + 1, sv + 3, to));
    lemma_all_hold_add(m1 + m2, m3, drops_between(sv + 1, sv + 3, to));
    assert forall|t1: Te, t2: Te| #[trigger] drops_between(sv + 1, sv + 3, to)(t1) && #[trigger] drops_between(sv + 4, sv + 7, to)(t2)
        implies !t1.same_move(t2) by {}
    lemma_join_apart(m1 + m2 + m3, m4, drops_between(sv + 1, sv + 3, to), drops_between(sv + 4, sv + 7, to));
    lemma_weaken(m1 + m2 + m3, drops_between(sv + 1, sv + 3, to), drops_between(0, 255, to));
    lemma_weaken(m4, drops_between(sv + 4, sv + 7, to), drops_between(0, 255, to));
    lemma_all_hold_add(m1 + m2 + m3, m4, drops_between(0, 255, to));
}

/// The drops that land on an empty square, `i` or one behind it along
/// `off`.
pub open spec fn drops_behind(ban: Seq<KomaInf>, off: int, i: int) -> spec_fn(Te) -> bool {
    |t: Te| t.from == 0 && (t.to as int == i || ray_reaches(ban, t.to as int, off, i))
}

proof fn lemma_interpose_drops_nr(v: KyokumenView, side: KomaInf, i: int, off: int, pin: Seq<isize>)
    requires
        side.is_side(),
    ensures
        no_repeats(interpose_spec(v, side, i, off, pin)),
        all_hold(interpose_spec(v, side, i, off, pin), drops_behind(v.ban, off, i)),
    decreases (if off < 0 { 176 - i } else { i }),
{
    if !(off == 0 || i < 0 || i >= 176) && v.ban[i] == KomaInf::EMP {
        lemma_put_to_nr(v, side, i, pin);
        let head = put_to_spec(v, side, i, pin);
        let rest = if 0 <= i - off < 176 { interpose_spec(v, side, i - off, off, pin) } else { seq![] };
        let behind = |t: Te| t.from == 0 && ray_reaches(v.ban, t.to as int, off, i);
        if 0 <= i - off < 176 {
            lemma_interpose_drops_nr(v, side, i - off, off, pin);
            assert forall|j: int| 0 <= j < rest.len() implies #[trigger] behind(rest[j]) by {
                assert(drops_behind(v.ban, off, i - off)(rest[j]));
                assert(v.ban[i - off] == KomaInf::EMP);
                let x = rest[j].to as int;
                if x != i - off {
                    lemma_ray_through(v.ban, x, off, i - off, i);
                }
            }
        }
        crate::answers::lemma_put_to_lands(v, side, i, pin);
        let here = |t: Te| t.from == 0 && t.to as int == i;
        assert forall|j: int| 0 <= j < head.len() implies #[trigger] here(head[j]) by {
            assert(drops_between(0, 255, i)(head[j]) && lands_on(i)(head[j]));
        }
        assert forall|t1: Te, t2: Te| #[trigger] here(t1) && #[trigger] behind(t2) implies !t1.same_move(t2) by {
            if t1.to == t2.to {
                lemma_ray_direction(v.ban, i, off, i);
            }
        }
        lemma_join_apart(head, rest, here, behind);
        lemma_weaken(head, here, drops_behind(v.ban, off, i));
        lemma_weaken(rest, behind, drops_behind(v.ban, off, i));
        lemma_all_hold_add(head, rest, drops_behind(v.ban, off, i));
    }
}

proof fn lemma_king_steps_piece(v: KyokumenView, side: KomaInf, kiki: usize, skip: Option<int>, i: int)
    ensures
        all_hold(king_steps_from(v, side, kiki, skip, i), moves_piece(v.ban[v.king(side) as int].value())),
    decreases 8 - i,
{
    if i < 8 {
        let king = v.king(side) as int;
        lemma_king_steps_piece(v, side, kiki, skip, i + 1);
        lemma_add_move_nr(v, side, king, -dir_offset(i), 0, 0);
        if skip != Some(i) {
            lemma_all_hold_add(king_step_spec(v, side, kiki, i), king_steps_from(v, side, kiki, skip, i + 1),
                moves_piece(v.ban[king].value()));
        }
    }
}

/// The king's moves move the piece on the king's square.
proof fn lemma_move_king_piece(v: KyokumenView, side: KomaInf, kiki: usize)
    ensures
        all_hold(move_king_spec(v, side, kiki), moves_piece(v.ban[v.king(side) as int].value())),
{
    reveal(move_king_spec);
    let king = v.king(side) as int;
    let id = first_step_bit(kiki, 0);
    let first = match id {
        Some(j) => king_step_spec(v, side, kiki, j),
        None => seq![],
    };
    if let Some(j) = id {
        lemma_add_move_nr(v, side, king, -dir_offset(j), 0, 0);
    }
    lemma_king_steps_piece(v, side, kiki, id, 0);
    lemma_all_hold_add(first, king_steps_from(v, side, kiki, id, 0), moves_piece(v.ban[king].value()));
}

/// The answers to a check repeat no move.
proof fn lemma_anti_check_nr(v: KyokumenView, side: KomaInf, pin: Seq<isize>, kiki: usize)
    requires
        v.walls_ok(),
        side.is_side(),
        king_stands(v, side),
        check_answerable(v, side, kiki),
    ensures
        no_repeats(anti_check_spec(v, side, pin, kiki)),
{
    reveal(anti_check_spec);
    let king = v.king(side) as int;
    let ou = piece(side, KomaInf::OU).value() as int;
    lemma_move_king_nr(v, side, kiki);
    if kiki & ((kiki - 1) as usize) == 0 {
        let id = single_bit_index(kiki, 0);
        let check = checking_square(v, king, id);
        let m1 = move_to_spec(v, side, check, pin);
        let m2 = move_king_spec(v, side, kiki);
        lemma_move_to_nr(v, side, check, pin);
        lemma_move_king_piece(v, side, kiki);
        let kingp = |t: Te| t.koma == ou;
        lemma_weaken(m2, moves_piece(v.ban[king].value()), kingp);
        assert forall|t1: Te, t2: Te| #[trigger] not_king(side)(t1) && #[trigger] kingp(t2) implies !t1.same_move(t2) by {}
        lemma_join_apart(m1, m2, not_king(side), kingp);
        if id >= 16 {
            let off = dir_offset(id - 16);
            let i0 = king - off;
            let m3 = interpose_moves(v, side, i0, off, pin);
            let m4 = interpose_spec(v, side, i0, off, pin);
            v.lemma_walk(king, crate::drops::opp_dir(id - 16));
            crate::drops::lemma_opp_dir(id - 16);
            assert(v.ban[check] != KomaInf::EMP);
            lemma_interpose_moves_nr(v, side, i0, off, pin);
            lemma_interpose_drops_nr(v, side, i0, off, pin);
            let pre = |t: Te| t.from as int >= 17 && (t.koma == ou || t.to as int == check);
            let p3 = |t: Te| t.from as int >= 17 && t.koma != ou && v.ban[t.to as int] == KomaInf::EMP;
            crate::answers::lemma_move_king_leaves(v, side, kiki);
            assert forall|j: int| 0 <= j < m1.len() implies #[trigger] pre(m1[j]) by {
                assert(not_king(side)(m1[j]) && lands_on(check)(m1[j]));
            }
            assert forall|j: int| 0 <= j < m2.len() implies #[trigger] pre(m2[j]) by {
                assert(kingp(m2[j]) && leaves(king)(m2[j]));
            }
            lemma_all_hold_add(m1, m2, pre);
            assert forall|j: int| 0 <= j < m3.len() implies #[trigger] p3(m3[j]) by {
                assert(not_king(side)(m3[j]) && lands_behind(v.ban, off, i0)(m3[j]));
            }
            assert forall|t1: Te, t2: Te| #[trigger] pre(t1) && #[trigger] p3(t2) implies !t1.same_move(t2) by {}
            lemma_join_apart(m1 + m2, m3, pre, p3);
            let board = |t: Te| t.from as int >= 17;
            lemma_weaken(m1 + m2, pre, board);
            lemma_weaken(m3, p3, board);
            lemma_all_hold_add(m1 + m2, m3, board);
            assert forall|t1: Te, t2: Te| #[trigger] board(t1) && #[trigger] drops_behind(v.ban, off, i0)(t2) implies !t1.same_move(t2) by {}
            lemma_join_apart(m1 + m2 + m3, m4, board, drops_behind(v.ban, off, i0));
        }
    }
}

/// The generator repeats no move: no two moves it gives are the same
/// move, when the only king of `side` on the board stands on its square.
pub proof fn lemma_generated_moves_distinct(v: KyokumenView, side: KomaInf, pin: Seq<isize>)
    requires
        crate::legal::generation_ready(v, side),
        king_stands(v, side),
        one_king(v, side),
    ensures
        no_repeats(legal_moves_spec(v, side, pin)),
{
    let king = v.king(side) as int;
    let kiki = v.control(side.opponent())[king];
    if kiki != 0 {
        lemma_anti_check_nr(v, side, pin, kiki);
    } else {
        lemma_quiet_nr(v, side, pin);
    }
}

} // verus!
