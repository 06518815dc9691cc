//! Every move the generator produces can be played: `move_` accepts it,
//! the attack maps can follow it, and it sets down a proper piece.

use vstd::prelude::*;
use crate::koma_inf::{KomaInf, lemma_bit4, lemma_bit5, lemma_promote_bit};
use crate::koma_moves::{dir_offset, promotable, moves_to, slides};
use crate::kyokumen::{KyokumenView, on_board};
use crate::koma_moves::lemma_moves_shape;
use crate::control::{ray_reaches, piece_gives, lemma_ray_through};
use crate::koma_moves::steps;
use crate::gen_spec::pin_allows;
use crate::rays::lemma_ray_prefix;
use crate::legal::generation_ready;
use crate::gen_spec::{add_move_spec, piece, column_drops, file_drops, hand_drops, drops_from, fu_drop_spec,
    put_to_spec, interpose_spec, interpose_moves, move_to_spec, move_to_from, move_to_dir, checking_square, quiet_moves_spec, anti_check_spec, legal_moves_spec, single_bit_index, check_answerable, slide_spec, add_straight_spec, king_step_spec, king_steps_from,
    move_king_spec, first_step_bit, add_moves_spec, board_moves_spec};
use crate::movegen::lemma_first_step_bit;
use crate::advance::{move_ok, follows, kings_follow, placed, placed_code, taken, hand_slot};
use crate::drops::lemma_piece;
use crate::follow::lemma_zero_bits;
use crate::te::{Te, te_of};

verus! {

/// The direction of bit `b` of an attack map: `b` for a step, `b - 16`
/// for a slide.
pub open spec fn line_of(b: int) -> int {
    if b < 12 { b } else { b - 16 }
}

/// Whether `te` is, on `v`, a move of the piece on `te.from` onto a square
/// that piece reaches, by a step or along a slide (see `piece_gives`),
/// along a line its entry in the pin table `pt` allows unless it moves
/// from the king square of `side`, and for the king onto a square the
/// other player does not reach; or a drop onto an empty square that
/// the rules on drops allow (see `drop_allowed`).
pub open spec fn piece_move(v: KyokumenView, side: KomaInf, pt: Seq<isize>, te: Te) -> bool {
    if te.from > 0x10 {
        &&& exists|b: int| 0 <= b < 24 && #[trigger] piece_gives(v.ban, te.from as int, te.to as int, b)
            && (te.from as int == v.king(side) as int || pin_allows(pt[te.from as int], dir_offset(line_of(b))))
        &&& v.ban[te.from as int] == piece(side, KomaInf::OU) ==> king_step_safe(v, side, te.from as int, te.to as int)
    } else {
        v.ban[te.to as int] == KomaInf::EMP && drop_allowed(v, side, pt, te.koma as int, te.to as int)
    }
}

/// Whether a step of the king of `side` from `from` to `to` is one the
/// attack maps allow: the king leaves its own square for a neighbour that
/// the other player does not reach and that does not lie beyond the king
/// on a slide of the other player giving check (bit `23 - i` of the
/// checks on the king, for the step against direction `i`).
pub open spec fn king_step_safe(v: KyokumenView, side: KomaInf, from: int, to: int) -> bool {
    let king = v.king(side) as int;
    let kiki = v.control(side.opponent())[king];
    &&& from == king
    &&& v.control(side.opponent())[to] == 0
    &&& exists|i: int| 0 <= i < 8 && to == king - #[trigger] dir_offset(i)
        && kiki & (1usize << ((23 - i) as usize)) == 0
}

/// Whether a piece of kind `kind` (a code below 8) dropped by `side` on
/// rank `r` can still move: not a pawn or a lance on the last rank, not a
/// knight on the last two.
pub open spec fn rank_rule(side: KomaInf, kind: int, r: int) -> bool {
    let dan = if side == KomaInf::Enemy { 10 - r } else { r };
    &&& kind <= 2 ==> dan > 1
    &&& kind == 3 ==> dan > 2
}

/// Whether `side` may drop the piece with code `koma` on `to`: the piece
/// can still move from there (see `rank_rule`), and a pawn goes neither
/// on a file that holds a pawn of `side` nor where the pawn-drop test
/// (`utifudume_spec`) finds a pawn-drop mate.
pub open spec fn drop_allowed(v: KyokumenView, side: KomaInf, pt: Seq<isize>, koma: int, to: int) -> bool {
    &&& 1 <= koma % 16 < 8
    &&& rank_rule(side, koma % 16, to % 16)
    &&& koma % 16 == 1 ==> !crate::gen_spec::nifu(v, side, to - to % 16)
        && !crate::gen_spec::utifudume_spec(v, side, to, pt)
}

/// Whether `te` lands on the board, leaves the board or the hand (with a
/// piece of that code in it), and sets down a code.
pub open spec fn move_fits(v: KyokumenView, te: Te) -> bool {
    &&& on_board(te.to as int)
    &&& te.from > 0x10 ==> on_board(te.from as int)
    &&& te.from <= 0x10 ==> te.koma < 40 && v.hand[te.koma as int] > 0
    &&& crate::advance::placeable(te)
}

/// A move of `side` that the piece moved can make (see `piece_move`),
/// that `move_` accepts on `v` when the counts have room for one more
/// (see `counts_room`), that the attack maps can follow, that sets down no
/// mark, and that sets down a king only as that king.
pub open spec fn sound_move(v: KyokumenView, side: KomaInf, pt: Seq<isize>, te: Te) -> bool {
    &&& piece_move(v, side, pt, te)
    &&& move_fits(v, te)
    &&& counts_room(v) ==> move_ok(v, side, te)
    &&& follows(v, side, te)
    &&& kings_follow(te)
    &&& !placed(te).is_mark()
}

/// Every move of `moves` is sound on `v`.
pub open spec fn all_sound(v: KyokumenView, side: KomaInf, pt: Seq<isize>, moves: Seq<Te>) -> bool {
    forall|i: int| 0 <= i < moves.len() ==> sound_move(v, side, pt, #[trigger] moves[i])
}

/// Room for one more move, and for one more piece of each code in hand.
pub open spec fn counts_room(v: KyokumenView) -> bool {
    &&& v.tesu < usize::MAX
    &&& forall|i: int| 0 <= i < 40 ==> #[trigger] v.hand[i] < usize::MAX
}

/// Two lists of sound moves make a list of sound moves.
pub proof fn lemma_all_sound_add(v: KyokumenView, side: KomaInf, pt: Seq<isize>, a: Seq<Te>, b: Seq<Te>)
    requires
        all_sound(v, side, pt, a),
        all_sound(v, side, pt, b),
    ensures
        all_sound(v, side, pt, a + b),
{
    assert forall|i: int| 0 <= i < (a + b).len() implies sound_move(v, side, pt, #[trigger] (a + b)[i]) by {
        if i < a.len() {
            assert((a + b)[i] == a[i]);
        } else {
            assert((a + b)[i] == b[i - a.len()]);
        }
    }
}

/// A piece that is not a mark carries at most one player's mark, and the
/// wall carries both.
pub proof fn lemma_one_mark(k: KomaInf, side: KomaInf)
    requires
        side.is_side(),
    ensures
        !k.is_mark() && k.value() & side.value() != 0 ==> k.value() & side.opponent().value() == 0,
        KomaInf::Wall.value() & side.value() != 0,
{
    KomaInf::lemma_value_from(k);
    KomaInf::lemma_codes(k.value());
    lemma_bit4(k.value());
    lemma_bit5(k.value());
    lemma_bit4(48u8);
    lemma_bit5(48u8);
}

/// A board move from `from` to `to` of the piece standing on `from`, a
/// piece of `side`, to a square without a piece of `side`, is sound; when
/// it promotes, the piece is one that may.
pub proof fn lemma_step_sound(v: KyokumenView, side: KomaInf, pt: Seq<isize>, from: int, to: int, c: KomaInf, p: u8, b: int)
    requires
        0 <= b < 24,
        piece_gives(v.ban, from, to, b),
        from == v.king(side) as int || pin_allows(pt[from], dir_offset(line_of(b))),
        v.walls_ok(),
        side.is_side(),
        on_board(from),
        v.ban[from].is_piece_of(side),
        from != to,
        -16 <= to < 176,
        c == v.at(to),
        c.value() & side.value() == 0,
        p != 0 ==> promotable(v.ban[from]),
        v.ban[from] == piece(side, KomaInf::OU) ==> king_step_safe(v, side, from, to),
    ensures
        sound_move(v, side, pt, te_of(from, to, v.ban[from], c, p)),
{
    let k = v.ban[from];
    let te = te_of(from, to, k, c, p);
    lemma_one_mark(k, side);
    lemma_one_mark(c, side);
    if to < 0 {
        assert(v.banpadding[to + 16] == KomaInf::Wall);
    }
    assert(0 <= to);
    if !on_board(to) {
        assert(v.ban[to] == KomaInf::Wall);
    }
    assert(on_board(to));
    assert(te.from as int == from);
    assert(te.to as int == to);
    assert(piece_gives(v.ban, te.from as int, te.to as int, b));
    KomaInf::lemma_value_from(k);
    lemma_promote_bit(k.value());
    KomaInf::lemma_from_value(placed_code(te));
    assert(taken(v.ban, te) == v.ban[to]);
    if counts_room(v) {
        assert(v.hand[hand_slot(side, v.ban[to])] < usize::MAX);
    }
    lemma_zero_bits(side.value());
}

/// The moves `add_move_spec` gives for a piece of `side` are sound.
pub proof fn lemma_add_move_sound(v: KyokumenView, side: KomaInf, pt: Seq<isize>, from: int, diff: int, pin: int, r_pin: int, b: int)
    requires
        0 <= b < 24,
        piece_gives(v.ban, from, from + diff, b),
        from == v.king(side) as int || pin_allows(pt[from], dir_offset(line_of(b)))
            || (pin == pt[from] as int && diff == dir_offset(line_of(b))),
        v.walls_ok(),
        side.is_side(),
        on_board(from),
        v.ban[from].is_piece_of(side),
        diff != 0,
        -16 <= from + diff < 176,
        v.ban[from] == piece(side, KomaInf::OU) ==> king_step_safe(v, side, from, from + diff),
    ensures
        all_sound(v, side, pt, add_move_spec(v, side, from, diff, pin, r_pin)),
{
    reveal(add_move_spec);
    let to = from + diff;
    let c = v.at(to);
    if c.value() & side.value() == 0 {
        if pin == 0 || pin == diff || pin == -diff {
            lemma_step_sound(v, side, pt, from, to, c, 0, b);
            if promotable(v.ban[from]) {
                lemma_step_sound(v, side, pt, from, to, c, 1, b);
            }
        }
    }
}

/// A drop of the piece `kind` of `side` from the hand onto `to`, a square
/// of the board without a piece of `side`, is sound (whatever the move
/// records as taken).
pub proof fn lemma_drop_sound(v: KyokumenView, side: KomaInf, pt: Seq<isize>, to: int, kind: KomaInf, c: KomaInf)
    requires
        v.walls_ok(),
        side.is_side(),
        on_board(to),
        v.ban[to] == KomaInf::EMP,
        1 <= kind.value() < 8,
        v.hand[piece(side, kind).value() as int] > 0,
        rank_rule(side, kind.value() as int, to % 16),
        kind == KomaInf::FU ==> !crate::gen_spec::nifu(v, side, to - to % 16)
            && !crate::gen_spec::utifudume_spec(v, side, to, pt),
    ensures
        sound_move(v, side, pt, te_of(0, to, piece(side, kind), c, 0)),
{
    let k = piece(side, kind);
    let te = te_of(0, to, k, c, 0);
    lemma_piece(side, kind);
    crate::koma_inf::lemma_mark_kind(kind.value());
    assert(k.value() % 16 == kind.value());
    KomaInf::lemma_value_from(kind);
    lemma_piece(side.opponent(), kind);
    lemma_one_mark(k, side);
    KomaInf::lemma_value_from(k);
    assert(te.to as int == to);
    assert(k.value() & side.value() != 0) by {
        lemma_bit4(k.value());
        lemma_bit5(k.value());
    }
    lemma_zero_bits(side.value());
    assert(taken(v.ban, te) == v.ban[to]);
}

/// The king square of `side` is on the board and holds the king of
/// `side`.
pub open spec fn king_stands(v: KyokumenView, side: KomaInf) -> bool {
    &&& on_board(v.king(side) as int)
    &&& v.ban[v.king(side) as int] == piece(side, KomaInf::OU)
}

/// The king square of `side`, where it is not 0, holds the king of
/// `side`.
pub open spec fn king_in_place(v: KyokumenView, side: KomaInf) -> bool {
    v.king(side) != 0 ==> v.ban[v.king(side) as int] == piece(side, KomaInf::OU)
}

/// The king of a player is a piece of that player and steps every way
/// along the eight lines.
pub proof fn lemma_king_piece(side: KomaInf)
    requires
        side.is_side(),
    ensures
        piece(side, KomaInf::OU).is_piece_of(side),
        piece(side, KomaInf::OU) == KomaInf::SOU || piece(side, KomaInf::OU) == KomaInf::EOU,
{
    crate::koma_inf::lemma_mark_kind(8u8);
    KomaInf::lemma_from_value((side.value() | 8u8) as u8);
    lemma_bit4(piece(side, KomaInf::OU).value());
    lemma_bit5(piece(side, KomaInf::OU).value());
}

/// The last square of a walk back from `sq`, when it holds a piece, slides
/// onto `sq` along `o`.
pub proof fn lemma_walk_ray(v: KyokumenView, sq: int, o: int)
    requires
        v.walls_ok(),
        0 <= sq < 176,
        o != 0,
    ensures
        0 <= v.walk(sq, -o) < 176 && v.at(v.walk(sq, -o)) != KomaInf::EMP
            ==> ray_reaches(v.ban, v.walk(sq, -o), o, sq),
    decreases (if -o > 0 { 176 - sq } else { sq + 16 }),
{
    let n = sq - o;
    if !(n < -16 || n >= 176) && v.at(n) == KomaInf::EMP {
        if n < 0 {
            assert(v.banpadding[n + 16] == KomaInf::Wall);
        }
        lemma_walk_ray(v, n, o);
        let q = v.walk(n, -o);
        if 0 <= q < 176 && v.at(q) != KomaInf::EMP {
            lemma_ray_through(v.ban, q, o, n, sq);
        }
    }
}

/// The moves along a slide are sound.
pub proof fn lemma_slide_sound(v: KyokumenView, side: KomaInf, pt: Seq<isize>, from: int, dir: int, i: int, d: int)
    requires
        v.walls_ok(),
        side.is_side(),
        on_board(from),
        v.ban[from].is_piece_of(side),
        0 <= d < 8,
        dir == dir_offset(d),
        slides(d, v.ban[from]),
        pin_allows(pt[from], dir),
        dir > 0 ==> i > 0,
        dir < 0 ==> i < 0,
        0 <= from + i < 176 ==> ray_reaches(v.ban, from, dir, from + i),
    ensures
        all_sound(v, side, pt, slide_spec(v, side, from, dir, i)),
    decreases (if dir > 0 { 176 - (from + i) } else { from + i }),
{
    let t = from + i;
    lemma_king_piece(side);
    if dir == 0 || t < 0 || t >= 176 {
    } else if v.ban[t] == KomaInf::EMP {
        lemma_add_move_sound(v, side, pt, from, i, 0, 0, 16 + d);
        if 0 <= t + dir < 176 {
            lemma_ray_through(v.ban, from, dir, t, t + dir);
            lemma_slide_sound(v, side, pt, from, dir, i + dir, d);
            lemma_all_sound_add(v, side, pt, add_move_spec(v, side, from, i, 0, 0), slide_spec(v, side, from, dir, i + dir));
        }
    } else if v.ban[t].value() & side.value() == 0 {
        lemma_add_move_sound(v, side, pt, from, i, 0, 0, 16 + d);
    }
}

/// The moves of a sliding piece are sound.
pub proof fn lemma_straight_sound(v: KyokumenView, side: KomaInf, pt: Seq<isize>, from: int, dir: int, pin: int, r_pin: int, d: int)
    requires
        v.walls_ok(),
        side.is_side(),
        on_board(from),
        v.ban[from].is_piece_of(side),
        0 <= d < 8,
        dir == dir_offset(d),
        slides(d, v.ban[from]),
        pin == pt[from] as int,
    ensures
        all_sound(v, side, pt, add_straight_spec(v, side, from, dir, pin, r_pin)),
{
    reveal(add_straight_spec);
    if pin_allows(pt[from], dir) {
        lemma_slide_sound(v, side, pt, from, dir, dir, d);
    }
}

/// The king's steps in directions `i..8` are sound.
pub proof fn lemma_king_steps_sound(v: KyokumenView, side: KomaInf, pt: Seq<isize>, kiki: usize, skip: Option<int>, i: int)
    requires
        v.walls_ok(),
        side.is_side(),
        king_stands(v, side),
        kiki == v.control(side.opponent())[v.king(side) as int] || v.control(side.opponent())[v.king(side) as int] == 0,
        0 <= i,
    ensures
        all_sound(v, side, pt, king_steps_from(v, side, kiki, skip, i)),
    decreases 8 - i,
{
    if i < 8 {
        let king = v.king(side) as int;
        lemma_king_steps_sound(v, side, pt, kiki, skip, i + 1);
        if skip != Some(i) {
            crate::drops::lemma_opp_dir(i);
            lemma_king_piece(side);
            if v.control(side.opponent())[king - dir_offset(i)] == 0
                && kiki & (1usize << ((23 - i) as usize)) == 0 {
                assert(v.control(side.opponent())[king] & (1usize << ((23 - i) as usize)) == 0) by {
                    let k = (23 - i) as usize;
                    assert(0usize & (1usize << k) == 0) by (bit_vector);
                }
                lemma_add_move_sound(v, side, pt, king, -dir_offset(i), 0, 0, crate::drops::opp_dir(i));
            }
            lemma_all_sound_add(v, side, pt, king_step_spec(v, side, kiki, i), king_steps_from(v, side, kiki, skip, i + 1));
        }
    }
}

/// The king's moves are sound.
pub proof fn lemma_move_king_sound(v: KyokumenView, side: KomaInf, pt: Seq<isize>, kiki: usize)
    requires
        v.walls_ok(),
        side.is_side(),
        king_stands(v, side),
        kiki == v.control(side.opponent())[v.king(side) as int] || v.control(side.opponent())[v.king(side) as int] == 0,
    ensures
        all_sound(v, side, pt, move_king_spec(v, side, kiki)),
{
    reveal(move_king_spec);
    let king = v.king(side) as int;
    let id = first_step_bit(kiki, 0);
    lemma_first_step_bit(kiki, 0);
    lemma_king_steps_sound(v, side, pt, kiki, id, 0);
    let first = match id {
        Some(i) => king_step_spec(v, side, kiki, i),
        None => seq![],
    };
    if let Some(i) = id {
        crate::drops::lemma_opp_dir(i);
        lemma_king_piece(side);
        if v.control(side.opponent())[king - dir_offset(i)] == 0
            && kiki & (1usize << ((23 - i) as usize)) == 0 {
            assert(v.control(side.opponent())[king] & (1usize << ((23 - i) as usize)) == 0) by {
                let k = (23 - i) as usize;
                assert(0usize & (1usize << k) == 0) by (bit_vector);
            }
            lemma_add_move_sound(v, side, pt, king, -dir_offset(i), 0, 0, crate::drops::opp_dir(i));
        }
    }
    lemma_all_sound_add(v, side, pt, first, king_steps_from(v, side, kiki, id, 0));
}

/// Sound lists joined one after another stay sound.
pub proof fn lemma_all_sound_sum(v: KyokumenView, side: KomaInf, pt: Seq<isize>, a: Seq<Te>, b: Seq<Te>, c: Seq<Te>, d: Seq<Te>, e: Seq<Te>, f: Seq<Te>)
    requires
        all_sound(v, side, pt, a),
        all_sound(v, side, pt, b),
        all_sound(v, side, pt, c),
        all_sound(v, side, pt, d),
        all_sound(v, side, pt, e),
        all_sound(v, side, pt, f),
    ensures
        all_sound(v, side, pt, a + b),
        all_sound(v, side, pt, a + b + c),
        all_sound(v, side, pt, a + b + c + d),
        all_sound(v, side, pt, a + b + c + d + e),
        all_sound(v, side, pt, a + b + c + d + e + f),
{
    lemma_all_sound_add(v, side, pt, a, b);
    lemma_all_sound_add(v, side, pt, a + b, c);
    lemma_all_sound_add(v, side, pt, a + b + c, d);
    lemma_all_sound_add(v, side, pt, a + b + c + d, e);
    lemma_all_sound_add(v, side, pt, a + b + c + d + e, f);
}

/// The moves of a piece of `side` on the board are sound.
pub proof fn lemma_add_moves_sound(v: KyokumenView, side: KomaInf, pt: Seq<isize>, from: int, pin: int, r_pin: int)
    requires
        v.walls_ok(),
        side.is_side(),
        v.ban[from] == piece(side, KomaInf::OU) ==> v.kings_ok() && king_in_place(v, side)
            && v.control(side.opponent())[v.king(side) as int] == 0,
        on_board(from),
        v.ban[from].value() & side.value() != 0,
        pin == pt[from] as int,
    ensures
        all_sound(v, side, pt, add_moves_spec(v, side, from, pin, r_pin)),
{
    lemma_king_piece(side);
    let a = |d: int| add_move_spec(v, side, from, d, pin, r_pin);
    let st = |d: int| add_straight_spec(v, side, from, d, pin, r_pin);
    match v.ban[from] {
        KomaInf::SFU => {
            lemma_add_move_sound(v, side, pt, from, -1, pin, r_pin, 6);
        },
        KomaInf::EFU => {
            lemma_add_move_sound(v, side, pt, from, 1, pin, r_pin, 1);
        },
        KomaInf::SKY => {
            lemma_straight_sound(v, side, pt, from, -1, pin, r_pin, 6);
        },
        KomaInf::EKY => {
            lemma_straight_sound(v, side, pt, from, 1, pin, r_pin, 1);
        },
        KomaInf::SKE => {
            lemma_add_move_sound(v, side, pt, from, 14, pin, r_pin, 8);
            lemma_add_move_sound(v, side, pt, from, -18, pin, r_pin, 9);
            lemma_all_sound_add(v, side, pt, a(14), a(-18));
        },
        KomaInf::EKE => {
            lemma_add_move_sound(v, side, pt, from, -14, pin, r_pin, 11);
            lemma_add_move_sound(v, side, pt, from, 18, pin, r_pin, 10);
            lemma_all_sound_add(v, side, pt, a(-14), a(18));
        },
        KomaInf::SGI => {
            lemma_add_move_sound(v, side, pt, from, -1, pin, r_pin, 6);
            lemma_add_move_sound(v, side, pt, from, -17, pin, r_pin, 7);
            lemma_add_move_sound(v, side, pt, from, 15, pin, r_pin, 5);
            lemma_add_move_sound(v, side, pt, from, 17, pin, r_pin, 0);
            lemma_add_move_sound(v, side, pt, from, -15, pin, r_pin, 2);
            lemma_all_sound_add(v, side, pt, a(-1), a(-17));
            lemma_all_sound_add(v, side, pt, a(-1) + a(-17), a(15));
            lemma_all_sound_add(v, side, pt, a(-1) + a(-17) + a(15), a(17));
            lemma_all_sound_add(v, side, pt, a(-1) + a(-17) + a(15) + a(17), a(-15));
        },
        KomaInf::EGI => {
            lemma_add_move_sound(v, side, pt, from, 1, pin, r_pin, 1);
            lemma_add_move_sound(v, side, pt, from, 17, pin, r_pin, 0);
            lemma_add_move_sound(v, side, pt, from, -15, pin, r_pin, 2);
            lemma_add_move_sound(v, side, pt, from, -17, pin, r_pin, 7);
            lemma_add_move_sound(v, side, pt, from, 15, pin, r_pin, 5);
            lemma_all_sound_add(v, side, pt, a(1), a(17));
            lemma_all_sound_add(v, side, pt, a(1) + a(17), a(-15));
            lemma_all_sound_add(v, side, pt, a(1) + a(17) + a(-15), a(-17));
            lemma_all_sound_add(v, side, pt, a(1) + a(17) + a(-15) + a(-17), a(15));
        },
        KomaInf::SKI | KomaInf::STO | KomaInf::SNY | KomaInf::SNK | KomaInf::SNG => {
            lemma_add_move_sound(v, side, pt, from, -1, pin, r_pin, 6);
            lemma_add_move_sound(v, side, pt, from, -17, pin, r_pin, 7);
            lemma_add_move_sound(v, side, pt, from, 15, pin, r_pin, 5);
            lemma_add_move_sound(v, side, pt, from, 1, pin, r_pin, 1);
            lemma_add_move_sound(v, side, pt, from, -16, pin, r_pin, 4);
            lemma_add_move_sound(v, side, pt, from, 16, pin, r_pin, 3);
            lemma_all_sound_add(v, side, pt, a(-1), a(-17));
            lemma_all_sound_add(v, side, pt, a(-1) + a(-17), a(15));
            lemma_all_sound_add(v, side, pt, a(-1) + a(-17) + a(15), a(1));
            lemma_all_sound_add(v, side, pt, a(-1) + a(-17) + a(15) + a(1), a(-16));
            lemma_all_sound_add(v, side, pt, a(-1) + a(-17) + a(15) + a(1) + a(-16), a(16));
        },
        KomaInf::EKI | KomaInf::ETO | KomaInf::ENY | KomaInf::ENK | KomaInf::ENG => {
            lemma_add_move_sound(v, side, pt, from, 1, pin, r_pin, 1);
            lemma_add_move_sound(v, side, pt, from, 17, pin, r_pin, 0);
            lemma_add_move_sound(v, side, pt, from, -15, pin, r_pin, 2);
            lemma_add_move_sound(v, side, pt, from, -1, pin, r_pin, 6);
            lemma_add_move_sound(v, side, pt, from, -16, pin, r_pin, 4);
            lemma_add_move_sound(v, side, pt, from, 16, pin, r_pin, 3);
            lemma_all_sound_add(v, side, pt, a(1), a(17));
            lemma_all_sound_add(v, side, pt, a(1) + a(17), a(-15));
            lemma_all_sound_add(v, side, pt, a(1) + a(17) + a(-15), a(-1));
            lemma_all_sound_add(v, side, pt, a(1) + a(17) + a(-15) + a(-1), a(-16));
            lemma_all_sound_add(v, side, pt, a(1) + a(17) + a(-15) + a(-1) + a(-16), a(16));
        },
        KomaInf::SRY | KomaInf::ERY => {
            lemma_straight_sound(v, side, pt, from, 1, pin, r_pin, 1);
            lemma_straight_sound(v, side, pt, from, -1, pin, r_pin, 6);
            lemma_straight_sound(v, side, pt, from, -16, pin, r_pin, 4);
            lemma_straight_sound(v, side, pt, from, 16, pin, r_pin, 3);
            lemma_add_move_sound(v, side, pt, from, 17, pin, r_pin, 0);
            lemma_add_move_sound(v, side, pt, from, -15, pin, r_pin, 2);
            lemma_add_move_sound(v, side, pt, from, -17, pin, r_pin, 7);
            lemma_add_move_sound(v, side, pt, from, 15, pin, r_pin, 5);
            lemma_all_sound_add(v, side, pt, st(1), st(-1));
            lemma_all_sound_add(v, side, pt, st(1) + st(-1), st(-16));
            lemma_all_sound_add(v, side, pt, st(1) + st(-1) + st(-16), st(16));
            lemma_all_sound_add(v, side, pt, st(1) + st(-1) + st(-16) + st(16), a(17));
            lemma_all_sound_add(v, side, pt, st(1) + st(-1) + st(-16) + st(16) + a(17), a(-15));
            lemma_all_sound_add(v, side, pt, st(1) + st(-1) + st(-16) + st(16) + a(17) + a(-15), a(-17));
            lemma_all_sound_add(v, side, pt, st(1) + st(-1) + st(-16) + st(16) + a(17) + a(-15) + a(-17), a(15));
        },
        KomaInf::SHI | KomaInf::EHI => {
            lemma_straight_sound(v, side, pt, from, 1, pin, r_pin, 1);
            lemma_straight_sound(v, side, pt, from, -1, pin, r_pin, 6);
            lemma_straight_sound(v, side, pt, from, -16, pin, r_pin, 4);
            lemma_straight_sound(v, side, pt, from, 16, pin, r_pin, 3);
            lemma_all_sound_add(v, side, pt, st(1), st(-1));
            lemma_all_sound_add(v, side, pt, st(1) + st(-1), st(-16));
            lemma_all_sound_add(v, side, pt, st(1) + st(-1) + st(-16), st(16));
        },
        KomaInf::SUM | KomaInf::EUM => {
            lemma_straight_sound(v, side, pt, from, 17, pin, r_pin, 0);
            lemma_straight_sound(v, side, pt, from, -17, pin, r_pin, 7);
            lemma_straight_sound(v, side, pt, from, 15, pin, r_pin, 5);
            lemma_straight_sound(v, side, pt, from, -15, pin, r_pin, 2);
            lemma_add_move_sound(v, side, pt, from, 1, pin, r_pin, 1);
            lemma_add_move_sound(v, side, pt, from, 16, pin, r_pin, 3);
            lemma_add_move_sound(v, side, pt, from, -16, pin, r_pin, 4);
            lemma_add_move_sound(v, side, pt, from, -1, pin, r_pin, 6);
            lemma_all_sound_add(v, side, pt, st(17), st(-17));
            lemma_all_sound_add(v, side, pt, st(17) + st(-17), st(15));
            lemma_all_sound_add(v, side, pt, st(17) + st(-17) + st(15), st(-15));
            lemma_all_sound_add(v, side, pt, st(17) + st(-17) + st(15) + st(-15), a(1));
            lemma_all_sound_add(v, side, pt, st(17) + st(-17) + st(15) + st(-15) + a(1), a(16));
            lemma_all_sound_add(v, side, pt, st(17) + st(-17) + st(15) + st(-15) + a(1) + a(16), a(-16));
            lemma_all_sound_add(v, side, pt, st(17) + st(-17) + st(15) + st(-15) + a(1) + a(16) + a(-16), a(-1));
        },
        KomaInf::SKA | KomaInf::EKA => {
            lemma_straight_sound(v, side, pt, from, 17, pin, r_pin, 0);
            lemma_straight_sound(v, side, pt, from, -17, pin, r_pin, 7);
            lemma_straight_sound(v, side, pt, from, 15, pin, r_pin, 5);
            lemma_straight_sound(v, side, pt, from, -15, pin, r_pin, 2);
            lemma_all_sound_add(v, side, pt, st(17), st(-17));
            lemma_all_sound_add(v, side, pt, st(17) + st(-17), st(15));
            lemma_all_sound_add(v, side, pt, st(17) + st(-17) + st(15), st(-15));
        },
        KomaInf::SOU | KomaInf::EOU => {
            assert(24u8 & 32u8 == 0 && 40u8 & 16u8 == 0) by (bit_vector);
            assert(v.king(side) != 0) by {
                lemma_bit4(v.ban[from].value());
                lemma_bit5(v.ban[from].value());
            }
            lemma_king_piece(side);
            lemma_move_king_sound(v, side, pt, 0);
        },
        _ => {},
    }
}

/// The moves of the pieces of `side` on the board, from file `s`, rank
/// `d` on, are sound.
pub proof fn lemma_board_moves_sound(v: KyokumenView, side: KomaInf, pin: Seq<isize>, s: int, d: int)
    requires
        v.control(side.opponent())[v.king(side) as int] == 0,
        v.walls_ok(),
        side.is_side(),
        v.kings_ok(),
        king_in_place(v, side),
    ensures
        all_sound(v, side, pin, board_moves_spec(v, side, pin, s, d)),
    decreases 10 - s, 10 - d,
{
    if s > 9 || s < 1 || d < 1 {
    } else if d > 9 {
        lemma_board_moves_sound(v, side, pin, s + 1, 1);
    } else {
        let sq = 16 * s + d;
        lemma_board_moves_sound(v, side, pin, s, d + 1);
        if v.ban[sq].value() & side.value() != 0 {
            lemma_add_moves_sound(v, side, pin, sq, pin[sq] as int, 0);
            lemma_all_sound_add(v, side, pin, add_moves_spec(v, side, sq, pin[sq] as int, 0), board_moves_spec(v, side, pin, s, d + 1));
        } else {
            lemma_all_sound_add(v, side, pin, seq![], board_moves_spec(v, side, pin, s, d + 1));
        }
    }
}

/// The drops of piece `kind` on the empty squares of file `s`, ranks `d`
/// to `hi`, are sound.
pub proof fn lemma_column_drops_sound(v: KyokumenView, side: KomaInf, pin: Seq<isize>, kind: KomaInf, fu: bool, s: int, d: int, hi: int)
    requires
        v.walls_ok(),
        side.is_side(),
        1 <= s <= 9,
        1 <= kind.value() < 8,
        v.hand[piece(side, kind).value() as int] > 0,
        kind == KomaInf::FU ==> fu && !crate::gen_spec::nifu(v, side, 16 * s),
        forall|r: int| d <= r <= hi && 1 <= r <= 9 ==> #[trigger] rank_rule(side, kind.value() as int, r),
    ensures
        all_sound(v, side, pin, column_drops(v, side, pin, piece(side, kind), fu, s, d, hi)),
    decreases 10 - d,
{
    if !(d > hi || d > 9 || d < 1) {
        let sq = 16 * s + d;
        lemma_column_drops_sound(v, side, pin, kind, fu, s, d + 1, hi);
        lemma_zero_bits(side.value());
        assert(sq % 16 == d && sq - sq % 16 == 16 * s);
        assert(rank_rule(side, kind.value() as int, d));
        if v.ban[sq] == KomaInf::EMP && !(fu && crate::gen_spec::utifudume_spec(v, side, sq, pin)) {
            lemma_drop_sound(v, side, pin, sq, kind, KomaInf::EMP);
        }
        let head = if v.ban[sq] == KomaInf::EMP && !(fu && crate::gen_spec::utifudume_spec(v, side, sq, pin)) {
            seq![te_of(0, sq, piece(side, kind), KomaInf::EMP, 0)]
        } else {
            seq![]
        };
        lemma_all_sound_add(v, side, pin, head, column_drops(v, side, pin, piece(side, kind), fu, s, d + 1, hi));
    }
}

/// The drops of piece `kind` on files `s` to 9 are sound.
pub proof fn lemma_file_drops_sound(v: KyokumenView, side: KomaInf, pin: Seq<isize>, kind: KomaInf, fu: bool, s: int, lo: int, hi: int)
    requires
        v.walls_ok(),
        side.is_side(),
        1 <= kind.value() < 8,
        v.hand[piece(side, kind).value() as int] > 0,
        kind == KomaInf::FU ==> fu,
        forall|r: int| lo <= r <= hi && 1 <= r <= 9 ==> #[trigger] rank_rule(side, kind.value() as int, r),
    ensures
        all_sound(v, side, pin, file_drops(v, side, pin, piece(side, kind), fu, s, lo, hi)),
    decreases 10 - s,
{
    if !(s > 9 || s < 1) {
        lemma_file_drops_sound(v, side, pin, kind, fu, s + 1, lo, hi);
        if !(fu && crate::gen_spec::nifu(v, side, 16 * s)) {
            lemma_column_drops_sound(v, side, pin, kind, fu, s, lo, hi);
        }
        let head = if fu && crate::gen_spec::nifu(v, side, 16 * s) {
            seq![]
        } else {
            column_drops(v, side, pin, piece(side, kind), fu, s, lo, hi)
        };
        lemma_all_sound_add(v, side, pin, head, file_drops(v, side, pin, piece(side, kind), fu, s + 1, lo, hi));
    }
}

/// The drops of silver to rook, kinds `koma..=7`, on every empty square
/// are sound.
pub proof fn lemma_hand_drops_sound(v: KyokumenView, side: KomaInf, pin: Seq<isize>, koma: int)
    requires
        v.walls_ok(),
        side.is_side(),
        4 <= koma,
    ensures
        all_sound(v, side, pin, hand_drops(v, side, pin, koma)),
    decreases 8 - koma,
{
    if koma <= 7 {
        lemma_hand_drops_sound(v, side, pin, koma + 1);
        let kind = KomaInf::from_value(koma as u8)->0;
        KomaInf::lemma_from_value(koma as u8);
        let k = KomaInf::from_value((side.value() | koma as u8) as u8)->0;
        assert(piece(side, kind) == k);
        let head = if v.hand[(side.value() | koma as u8) as int] > 0 { file_drops(v, side, pin, k, false, 1, 1, 9) } else { seq![] };
        if v.hand[(side.value() | koma as u8) as int] > 0 {
            lemma_piece(side, kind);
            lemma_file_drops_sound(v, side, pin, kind, false, 1, 1, 9);
        }
        lemma_all_sound_add(v, side, pin, head, hand_drops(v, side, pin, koma + 1));
    }
}

/// The drops of silver to rook, kinds `koma..=7`, on `to` are sound.
pub proof fn lemma_drops_from_sound(v: KyokumenView, side: KomaInf, pt: Seq<isize>, to: int, koma: int)
    requires
        v.walls_ok(),
        side.is_side(),
        on_board(to),
        v.ban[to] == KomaInf::EMP,
        4 <= koma,
    ensures
        all_sound(v, side, pt, drops_from(v, side, to, koma)),
    decreases 8 - koma,
{
    if koma <= 7 {
        lemma_drops_from_sound(v, side, pt, to, koma + 1);
        let kind = KomaInf::from_value(koma as u8)->0;
        KomaInf::lemma_from_value(koma as u8);
        let k = KomaInf::from_value((side.value() | koma as u8) as u8)->0;
        assert(piece(side, kind) == k);
        let head = if v.hand[(side.value() | koma as u8) as int] > 0 { seq![te_of(0, to, k, KomaInf::EMP, 0)] } else { seq![] };
        if v.hand[(side.value() | koma as u8) as int] > 0 {
            lemma_piece(side, kind);
            lemma_drop_sound(v, side, pt, to, kind, KomaInf::EMP);
        }
        lemma_all_sound_add(v, side, pt, head, drops_from(v, side, to, koma + 1));
    }
}

/// The moves when not in check are sound.
pub proof fn lemma_quiet_sound(v: KyokumenView, side: KomaInf, pin: Seq<isize>)
    requires
        v.control(side.opponent())[v.king(side) as int] == 0,
        v.walls_ok(),
        v.kings_ok(),
        side.is_side(),
        king_in_place(v, side),
    ensures
        all_sound(v, side, pin, quiet_moves_spec(v, side, pin)),
{
    let fu = piece(side, KomaInf::FU);
    let ky = piece(side, KomaInf::KY);
    let ke = piece(side, KomaInf::KE);
    let own = side == KomaInf::Self_;
    let lo1 = if own { 2int } else { 1int };
    let hi1 = if own { 9int } else { 8int };
    let lo2 = if own { 3int } else { 1int };
    let hi2 = if own { 9int } else { 7int };
    lemma_board_moves_sound(v, side, pin, 1, 1);
    let d1 = if v.hand[fu.value() as int] > 0 { file_drops(v, side, pin, fu, true, 1, lo1, hi1) } else { seq![] };
    let d2 = if v.hand[ky.value() as int] > 0 { file_drops(v, side, pin, ky, false, 1, lo1, hi1) } else { seq![] };
    let d3 = if v.hand[ke.value() as int] > 0 { file_drops(v, side, pin, ke, false, 1, lo2, hi2) } else { seq![] };
    if v.hand[fu.value() as int] > 0 {
        lemma_file_drops_sound(v, side, pin, KomaInf::FU, true, 1, lo1, hi1);
    }
    if v.hand[ky.value() as int] > 0 {
        lemma_file_drops_sound(v, side, pin, KomaInf::KY, false, 1, lo1, hi1);
    }
    if v.hand[ke.value() as int] > 0 {
        lemma_file_drops_sound(v, side, pin, KomaInf::KE, false, 1, lo2, hi2);
    }
    lemma_hand_drops_sound(v, side, pin, 4);
    lemma_all_sound_sum(v, side, pin, board_moves_spec(v, side, pin, 1, 1), d1, d2, d3, hand_drops(v, side, pin, 4), seq![]);
}

/// The drops onto the empty square `to` are sound.
pub proof fn lemma_put_to_sound(v: KyokumenView, side: KomaInf, to: int, pin: Seq<isize>)
    requires
        v.walls_ok(),
        side.is_side(),
        on_board(to),
        v.ban[to] == KomaInf::EMP,
    ensures
        all_sound(v, side, pin, put_to_spec(v, side, to, pin)),
{
    reveal(put_to_spec);
    reveal(fu_drop_spec);
    let fu = piece(side, KomaInf::FU);
    let ky = piece(side, KomaInf::KY);
    let ke = piece(side, KomaInf::KE);
    let dan = crate::gen_spec::rank_for(side, to);
    let m2 = if v.hand[ky.value() as int] > 0 && dan > 1 { seq![te_of(0, to, ky, KomaInf::EMP, 0)] } else { seq![] };
    let m3 = if v.hand[ke.value() as int] > 0 && dan > 2 { seq![te_of(0, to, ke, KomaInf::EMP, 0)] } else { seq![] };
    if v.hand[fu.value() as int] > 0 && dan > 1 && !crate::gen_spec::nifu(v, side, to - to % 16)
        && !crate::gen_spec::utifudume_spec(v, side, to, pin) {
        lemma_drop_sound(v, side, pin, to, KomaInf::FU, KomaInf::EMP);
    }
    if v.hand[ky.value() as int] > 0 && dan > 1 {
        lemma_drop_sound(v, side, pin, to, KomaInf::KY, KomaInf::EMP);
    }
    if v.hand[ke.value() as int] > 0 && dan > 2 {
        lemma_drop_sound(v, side, pin, to, KomaInf::KE, KomaInf::EMP);
    }
    lemma_drops_from_sound(v, side, pin, to, 4);
    lemma_all_sound_sum(v, side, pin, fu_drop_spec(v, side, to, pin), m2, m3, drops_from(v, side, to, 4), seq![], seq![]);
}

/// A walk moves away from its starting index.
pub proof fn lemma_walk_moves(v: KyokumenView, sq: int, dir: int)
    ensures
        dir > 0 ==> v.walk(sq, dir) > sq,
        dir < 0 ==> v.walk(sq, dir) < sq,
    decreases (if dir > 0 { 176 - sq } else { sq + 16 }),
{
    let n = sq + dir;
    if !(dir == 0 || n < -16 || n >= 176) && v.at(n) == KomaInf::EMP {
        lemma_walk_moves(v, n, dir);
    }
}

/// The moves onto `to` in direction `dir` are sound.
pub proof fn lemma_move_to_dir_sound(v: KyokumenView, side: KomaInf, to: int, pin: Seq<isize>, dir: int)
    requires
        v.walls_ok(),
        side.is_side(),
        on_board(to),
        0 <= dir < 12,
    ensures
        all_sound(v, side, pin, move_to_dir(v, side, to, pin, dir)),
{
    let o = dir_offset(dir);
    let p = to - o;
    let q = v.walk(to, -o);
    crate::drops::lemma_opp_dir(dir);
    let k = v.at(p);
    let kq = v.at(q);
    if k != KomaInf::EMP {
        if k.value() & side.value() != 0 && k != piece(side, KomaInf::OU) && moves_to(dir, k) && pin_allows(pin[p], o) {
            crate::drops::lemma_mover_on_board(v, dir, p);
            lemma_moves_shape(dir, k);
            if steps(dir, k) {
                lemma_add_move_sound(v, side, pin, p, o, 0, 0, dir);
            } else {
                lemma_add_move_sound(v, side, pin, p, o, 0, 0, 16 + dir);
            }
        }
    } else if dir < 8 && kq.value() & side.value() != 0 && kq != piece(side, KomaInf::OU) && slides(dir, kq) && pin_allows(pin[q], o) {
        v.lemma_walk(to, crate::drops::opp_dir(dir));
        lemma_walk_moves(v, to, -o);
        crate::drops::lemma_mover_on_board(v, dir, q);
        lemma_moves_shape(dir, kq);
        lemma_walk_ray(v, to, o);
        lemma_add_move_sound(v, side, pin, q, to - q, 0, 0, 16 + dir);
    }
}

/// The moves onto `to` over directions `dir..12` are sound.
pub proof fn lemma_move_to_from_sound(v: KyokumenView, side: KomaInf, to: int, pin: Seq<isize>, dir: int)
    requires
        v.walls_ok(),
        side.is_side(),
        on_board(to),
        0 <= dir,
    ensures
        all_sound(v, side, pin, move_to_from(v, side, to, pin, dir)),
    decreases 12 - dir,
{
    if dir < 12 {
        lemma_move_to_dir_sound(v, side, to, pin, dir);
        lemma_move_to_from_sound(v, side, to, pin, dir + 1);
        lemma_all_sound_add(v, side, pin, move_to_dir(v, side, to, pin, dir), move_to_from(v, side, to, pin, dir + 1));
    }
}

/// The drops between the king and a sliding piece that gives check are
/// sound.
pub proof fn lemma_interpose_sound(v: KyokumenView, side: KomaInf, i: int, off: int, pin: Seq<isize>)
    requires
        v.walls_ok(),
        side.is_side(),
    ensures
        all_sound(v, side, pin, interpose_spec(v, side, i, off, pin)),
    decreases (if off < 0 { 176 - i } else { i }),
{
    if !(off == 0 || i < 0 || i >= 176) && v.ban[i] == KomaInf::EMP {
        if !on_board(i) {
            assert(v.ban[i] == KomaInf::Wall);
        }
        lemma_zero_bits(side.value());
        lemma_put_to_sound(v, side, i, pin);
        let rest = if 0 <= i - off < 176 { interpose_spec(v, side, i - off, off, pin) } else { seq![] };
        if 0 <= i - off < 176 {
            lemma_interpose_sound(v, side, i - off, off, pin);
        }
        lemma_all_sound_add(v, side, pin, put_to_spec(v, side, i, pin), rest);
    }
}

/// The moves between the king and a sliding piece that gives check are
/// sound.
pub proof fn lemma_interpose_moves_sound(v: KyokumenView, side: KomaInf, i: int, off: int, pin: Seq<isize>)
    requires
        v.walls_ok(),
        side.is_side(),
    ensures
        all_sound(v, side, pin, interpose_moves(v, side, i, off, pin)),
    decreases (if off < 0 { 176 - i } else { i }),
{
    if !(off == 0 || i < 0 || i >= 176) && v.ban[i] == KomaInf::EMP {
        if !on_board(i) {
            assert(v.ban[i] == KomaInf::Wall);
        }
        lemma_move_to_from_sound(v, side, i, pin, 0);
        let rest = if 0 <= i - off < 176 { interpose_moves(v, side, i - off, off, pin) } else { seq![] };
        if 0 <= i - off < 176 {
            lemma_interpose_moves_sound(v, side, i - off, off, pin);
        }
        lemma_all_sound_add(v, side, pin, move_to_spec(v, side, i, pin), rest);
    }
}

/// The answers to a check are sound.
pub proof fn lemma_anti_check_sound(v: KyokumenView, side: KomaInf, pin: Seq<isize>, kiki: usize)
    requires
        kiki == v.control(side.opponent())[v.king(side) as int],
        v.walls_ok(),
        v.kings_ok(),
        side.is_side(),
        king_stands(v, side),
        check_answerable(v, side, kiki),
    ensures
        all_sound(v, side, pin, anti_check_spec(v, side, pin, kiki)),
{
    reveal(anti_check_spec);
    let king = v.king(side) as int;
    lemma_move_king_sound(v, side, pin, kiki);
    if kiki & ((kiki - 1) as usize) == 0 {
        let id = single_bit_index(kiki, 0);
        let check = checking_square(v, king, id);
        lemma_move_to_from_sound(v, side, check, pin, 0);
        let m1 = move_to_spec(v, side, check, pin);
        let m2 = move_king_spec(v, side, kiki);
        if id >= 16 {
            let off = dir_offset(id - 16);
            lemma_interpose_moves_sound(v, side, king - off, off, pin);
            lemma_interpose_sound(v, side, king - off, off, pin);
            lemma_all_sound_sum(v, side, pin, m1, m2, interpose_moves(v, side, king - off, off, pin),
                interpose_spec(v, side, king - off, off, pin), seq![], seq![]);
        } else {
            lemma_all_sound_add(v, side, pin, m1, m2);
        }
    }
}

/// Every move the generator produces for `side` is a move the piece can
/// make, along a line its pin allows, or a drop the rules allow (see
/// `piece_move`), and can be played: `move_` accepts it, the attack maps
/// can follow it, it sets down no mark, and it sets down a king only as
/// that king.
pub proof fn lemma_generated_moves_sound(v: KyokumenView, side: KomaInf, pin: Seq<isize>)
    requires
        generation_ready(v, side),
        king_in_place(v, side),
    ensures
        all_sound(v, side, pin, legal_moves_spec(v, side, pin)),
{
    let opp = side.opponent();
    let king = v.king(side) as int;
    if v.control(opp)[king] != 0 {
        lemma_anti_check_sound(v, side, pin, v.control(opp)[king]);
    } else {
        lemma_quiet_sound(v, side, pin);
    }
}

/// Every move the generator lists is one the attack maps can follow, so
/// that `move_`, playing it on a position whose maps agree with the
/// board, leaves maps that agree with the new board (see `move_`); it
/// also keeps the walls and the king squares.
pub proof fn lemma_listed_moves_keep_consistency(v: KyokumenView, side: KomaInf, pin: Seq<isize>)
    requires
        generation_ready(v, side),
        king_in_place(v, side),
    ensures
        forall|i: int| 0 <= i < legal_moves_spec(v, side, pin).len() ==> {
            let te = #[trigger] legal_moves_spec(v, side, pin)[i];
            &&& follows(v, side, te)
            &&& kings_follow(te)
            &&& !placed(te).is_mark()
        },
{
    lemma_generated_moves_sound(v, side, pin);
    assert forall|i: int| 0 <= i < legal_moves_spec(v, side, pin).len() implies {
        let te = #[trigger] legal_moves_spec(v, side, pin)[i];
        &&& follows(v, side, te)
        &&& kings_follow(te)
        &&& !placed(te).is_mark()
    } by {
        assert(sound_move(v, side, pin, legal_moves_spec(v, side, pin)[i]));
    }
}

} // verus!
