//! The rules of shogi the generator, the pawn-drop test, the reading of a
//! typed move and the playing of a move obey, stated over the board
//! itself.

use vstd::prelude::*;
use crate::koma_inf::{KomaInf, lemma_bit4, lemma_bit5};
use crate::kyokumen::{KyokumenView, on_board};
use crate::gen_spec::{add_move_spec, utifudume_spec, nifu, legal_moves_spec};
use crate::koma_moves::dir_offset;
use crate::game::{typed_move, digit_of};
use crate::advance::hand_after;
use crate::complete::lists_drop;
use crate::gen_spec::{count_move_upto, counts_at, pin_allows, piece};
use crate::koma_moves::{steps, slides};
use crate::control::{bit, owns, piece_gives, lemma_bit_set, lemma_bit_basics};
use crate::generated::line_of;
use crate::te::{Te, te_of};

verus! {

/// The rank of `sq` counted from the far side for `side`: rank 1 is the
/// last rank `side` moves towards.
pub open spec fn far_rank(side: KomaInf, sq: int) -> int {
    if side == KomaInf::Self_ { sq % 16 } else { 10 - sq % 16 }
}

/// Promotion choices: a piece of `side` gives no move onto a square that
/// holds a piece of `side`, or along a line its pin or the excluded line
/// forbids; otherwise it may promote when it is a
/// pawn, lance, knight, silver, bishop or rook (kind codes 1, 2, 3, 4, 6, 7)
/// and leaves or enters the last three ranks; it must promote when it is
/// a pawn or lance arriving on the last rank or a knight on the last two;
/// the move is listed promoted then plain where it may, only promoted where
/// it must, only plain where it may not.
pub proof fn lemma_promotion_choices(v: KyokumenView, side: KomaInf, from: int, diff: int, pin: int, r_pin: int)
    requires
        side.is_side(),
        on_board(from),
        on_board(from + diff),
        v.ban[from].is_piece_of(side),
    ensures
        !(r_pin != diff && r_pin != -diff && (pin == 0 || pin == diff || pin == -diff)
            && v.ban[from + diff].value() & side.value() == 0)
            ==> add_move_spec(v, side, from, diff, pin, r_pin).len() == 0,
        r_pin != diff && r_pin != -diff && (pin == 0 || pin == diff || pin == -diff)
            && v.ban[from + diff].value() & side.value() == 0 ==> ({
            let m = add_move_spec(v, side, from, diff, pin, r_pin);
            let to = from + diff;
            let k = v.ban[from];
            let kind = k.value() % 16;
            let p1 = te_of(from, to, k, v.ban[to], 1);
            let p0 = te_of(from, to, k, v.ban[to], 0);
            let may = (kind == 1 || kind == 2 || kind == 3 || kind == 4 || kind == 6 || kind == 7)
                && (far_rank(side, from) <= 3 || far_rank(side, to) <= 3);
            let must = ((kind == 1 || kind == 2) && far_rank(side, to) == 1) || (kind == 3 && far_rank(side, to) <= 2);
            &&& must ==> m == seq![p1]
            &&& !must && may ==> m == seq![p1, p0]
            &&& !must && !may ==> m == seq![p0]
        }),
{
    reveal(add_move_spec);
    let k = v.ban[from];
    KomaInf::lemma_value_from(k);
    lemma_bit4(k.value());
    lemma_bit5(k.value());
}

/// A pawn drop is a pawn-drop mate only when the pawn stands right in
/// front of the other king (giving check), the dropping player reaches the
/// pawn's square, and every other neighbour of that king holds a piece of
/// the king's own player or is reached by the dropping player: a king with
/// an empty or capturable, unreached neighbour escapes, and the drop is no
/// pawn-drop mate.
pub proof fn lemma_pawn_drop_mate_needs(v: KyokumenView, side: KomaInf, to: int, pin: Seq<isize>)
    requires
        side.is_side(),
        0 <= to < 176,
        v.ban.len() == 176,
        on_board(v.king(side.opponent()) as int),
    ensures
        utifudume_spec(v, side, to, pin) ==> {
            let opp = side.opponent();
            let king = v.king(opp) as int;
            &&& to == king + (if side == KomaInf::Self_ { 1int } else { -1int })
            &&& v.control(side)[to] != 0
            &&& forall|i: int| 0 <= i < 8 && #[trigger] dir_offset(i) != king - to ==> {
                    let sq = king - dir_offset(i);
                    v.ban[sq].value() & opp.value() != 0 || v.control(side)[sq] != 0
                }
        },
{
    reveal(utifudume_spec);
    let opp = side.opponent();
    let king = v.king(opp) as int;
    let v1 = v.with_koma(to, crate::gen_spec::piece(side, KomaInf::FU));
    if utifudume_spec(v, side, to, pin) {
        assert forall|i: int| 0 <= i < 8 && #[trigger] dir_offset(i) != king - to implies {
            let sq = king - dir_offset(i);
            v.ban[sq].value() & opp.value() != 0 || v.control(side)[sq] != 0
        } by {
            let sq = king - dir_offset(i);
            assert(sq != to);
            assert(crate::gen_spec::utifudume_guard(v, side, to));
            assert(!crate::gen_spec::king_escapes(v1, opp));
            assert(v1.king(opp) as int == king);
            assert(v1.control(opp.opponent()) == v.control(side));
            assert(!({
                &&& v1.ban[v1.king(opp) as int - dir_offset(i)].value() & opp.value() == 0
                &&& v1.control(opp.opponent())[v1.king(opp) as int - dir_offset(i)] == 0
            }));
            assert(v1.ban[sq] == v.ban[sq]);
        }
    }
}

/// Reading a typed move: four decimal digits give the square left (or a
/// drop code) and the square reached.  A code from 1 to 7 is a drop of the
/// first player's piece of that kind (pawn to rook) from no square; a
/// larger one is a move of the piece that stands on that square; the
/// move promotes exactly when a fifth character `*` follows.
pub proof fn lemma_typed_move_read(k: KyokumenView, chars: Seq<char>)
    requires
        chars.len() >= 4,
        forall|i: int| 0 <= i < 4 ==> #[trigger] digit_of(chars[i]) is Some,
    ensures
        ({
            let f = digit_of(chars[0]).unwrap() as int * 10 + digit_of(chars[1]).unwrap() as int;
            let t = digit_of(chars[2]).unwrap() as int * 10 + digit_of(chars[3]).unwrap() as int;
            let r = typed_move(k, chars);
            &&& r is Some
            &&& r->0.to as int == t
            &&& r->0.promote == (if chars.len() >= 5 && chars[4] == '*' { 1u8 } else { 0u8 })
            &&& 1 <= f <= 7 ==> r->0.from == 0 && r->0.koma as int == 16 + f
            &&& f >= 8 ==> r->0.from as int == f && r->0.koma == k.ban[f].value()
        }),
{
    let d0 = digit_of(chars[0]).unwrap() as int;
    let d1 = digit_of(chars[1]).unwrap() as int;
    let d2 = digit_of(chars[2]).unwrap() as int;
    let d3 = digit_of(chars[3]).unwrap() as int;
    assert(0 <= d0 <= 9 && 0 <= d1 <= 9 && 0 <= d2 <= 9 && 0 <= d3 <= 9);
    let f = d0 * 10 + d1;
    if 1 <= f <= 7 {
        KomaInf::lemma_from_value((16 + f) as u8);
    }
}

/// The two-pawn rule: a file is closed to the pawn drops of `side`
/// exactly when it holds an unpromoted pawn of `side`; a promoted pawn, or
/// any other piece, does not close it.
pub proof fn lemma_two_pawn_rule(v: KyokumenView, side: KomaInf, suji: int)
    requires
        side.is_side(),
    ensures
        nifu(v, side, suji) <==> exists|d: int| 1 <= d <= 9 && #[trigger] v.ban[suji + d].value() == side.value() + 1,
{
    crate::drops::lemma_piece(side, KomaInf::FU);
    if exists|d: int| 1 <= d <= 9 && #[trigger] v.ban[suji + d].value() == side.value() + 1 {
        let d = choose|d: int| 1 <= d <= 9 && #[trigger] v.ban[suji + d].value() == side.value() + 1;
        KomaInf::lemma_value_from(v.ban[suji + d]);
        KomaInf::lemma_value_from(crate::gen_spec::piece(side, KomaInf::FU));
        assert(v.ban[suji + d] == crate::gen_spec::piece(side, KomaInf::FU));
    }
}

/// Out of check, a pawn in hand is dropped on every empty square of a
/// file that holds no unpromoted pawn of `side` (a promoted pawn there
/// does not count), on any rank but the last, unless the drop would be a
/// pawn-drop mate.
pub proof fn lemma_pawn_drop_open_file(v: KyokumenView, side: KomaInf, pin: Seq<isize>, to: int)
    requires
        side.is_side(),
        v.control(side.opponent())[v.king(side) as int] == 0,
        on_board(to),
        v.ban[to] == KomaInf::EMP,
        v.hand[side.value() + 1] > 0,
        far_rank(side, to) > 1,
        forall|d: int| 1 <= d <= 9 ==> #[trigger] v.ban[to - to % 16 + d].value() != side.value() + 1,
        !utifudume_spec(v, side, to, pin),
    ensures
        lists_drop(legal_moves_spec(v, side, pin), crate::gen_spec::piece(side, KomaInf::FU), to),
{
    lemma_two_pawn_rule(v, side, to - to % 16);
    crate::drops::lemma_piece(side, KomaInf::FU);
    crate::koma_inf::lemma_mark_kind(1u8);
    crate::complete::lemma_drops_complete(v, side, pin, 1, to);
}

/// Taking a piece: after a board move of `side` that takes the piece on
/// its destination, the hand slot of `side`'s mark with the unpromoted
/// kind of the taken piece grows by one and no other count changes; a
/// move that takes nothing leaves the hands as they were; a drop takes one
/// piece of its code from the hand and changes nothing else (counts below
/// the largest `usize`, which a count one higher would overflow).
pub proof fn lemma_hand_after_move(v: KyokumenView, side: KomaInf, te: Te)
    requires
        side.is_side(),
        v.hand.len() == 40,
        forall|i: int| 0 <= i < 40 ==> #[trigger] v.hand[i] < usize::MAX,
        v.ban.len() == 176,
        on_board(te.to as int),
        te.from > 0x10 ==> te.from != te.to && on_board(te.from as int),
        te.from <= 0x10 ==> te.koma < 40 && v.hand[te.koma as int] > 0,
    ensures
        ({
            let h = hand_after(v, side, te);
            let c = v.ban[te.to as int];
            &&& h.len() == 40
            &&& te.from > 0x10 && c != KomaInf::EMP && c.value() < 64 ==> forall|i: int| 0 <= i < 40 ==>
                #[trigger] h[i] == v.hand[i] + (if i == side.value() + c.value() % 8 { 1int } else { 0int })
            &&& te.from > 0x10 && c == KomaInf::EMP ==> h == v.hand
            &&& te.from <= 0x10 && c == KomaInf::EMP ==> forall|i: int| 0 <= i < 40 ==>
                #[trigger] h[i] == v.hand[i] - (if i == te.koma { 1int } else { 0int })
        }),
{
    let c = v.ban[te.to as int];
    let h = hand_after(v, side, te);
    KomaInf::lemma_value_from(c);
    let lifted = crate::advance::lifted_board(v.ban, te);
    assert(crate::advance::taken(v.ban, te) == c);
    if te.from > 0x10 && c != KomaInf::EMP {
        let slot = crate::advance::hand_slot(side, c);
        assert(0 <= slot < 40);
        assert forall|i: int| 0 <= i < 40 implies
            #[trigger] h[i] == v.hand[i] + (if i == side.value() + c.value() % 8 { 1int } else { 0int }) by {
        }
    }
    if te.from <= 0x10 && c == KomaInf::EMP {
        assert forall|i: int| 0 <= i < 40 implies
            #[trigger] h[i] == v.hand[i] - (if i == te.koma { 1int } else { 0int }) by {
        }
    }
}

spec fn step_counted(v: KyokumenView, side: KomaInf, sq: int, pin: Seq<isize>, d: int) -> bool {
    steps(d, v.at(sq - dir_offset(d))) && counts_at(v, side, pin, d, sq - dir_offset(d))
}

spec fn slide_counted(v: KyokumenView, side: KomaInf, sq: int, pin: Seq<isize>, d: int) -> bool {
    let q = v.walk(sq, -dir_offset(d));
    slides(d, v.at(q)) && counts_at(v, side, pin, d, q)
}

/// The bits `count_move_upto` collects over the first `n` directions.
proof fn lemma_count_bits(v: KyokumenView, side: KomaInf, sq: int, pin: Seq<isize>, n: int)
    requires
        0 <= n <= 12,
    ensures
        count_move_upto(v, side, sq, pin, n) < 0x1000000,
        forall|j: usize| j < 24 ==> (#[trigger] bit(count_move_upto(v, side, sq, pin, n), j) <==> (
            (j < n && step_counted(v, side, sq, pin, j as int))
            || (16 <= j < 16 + n && !step_counted(v, side, sq, pin, j - 16) && slide_counted(v, side, sq, pin, j - 16)))),
    decreases n,
{
    if n == 0 {
        assert forall|j: usize| j < 24 implies !#[trigger] bit(0usize, j) by {
            lemma_bit_basics(j);
        }
    } else {
        let d = n - 1;
        lemma_count_bits(v, side, sq, pin, d);
        let acc = count_move_upto(v, side, sq, pin, d);
        if step_counted(v, side, sq, pin, d) {
            assert forall|j: usize| j < 24 implies #[trigger] bit(acc | (1usize << (d as usize)), j) == (bit(acc, j) || j == d) by {
                lemma_bit_set(acc, d as usize, j);
            }
            lemma_bit_set(acc, d as usize, 0);
        } else if slide_counted(v, side, sq, pin, d) {
            assert(d < 8);
            assert forall|j: usize| j < 24 implies #[trigger] bit(acc | (1usize << ((16 + d) as usize)), j) == (bit(acc, j) || j == 16 + d) by {
                lemma_bit_set(acc, (16 + d) as usize, j);
            }
            lemma_bit_set(acc, (16 + d) as usize, 0);
        }
    }
}

/// A piece of `opp`, other than its king on `king`, that could take a pawn
/// on `to`: it reaches `to` (see `piece_gives`) along a line its pin allows.
pub open spec fn pawn_taker(ban: Seq<KomaInf>, opp: KomaInf, king: int, to: int, pin: Seq<isize>, p: int, b: int) -> bool {
    &&& p != king
    &&& owns(ban, opp, p)
    &&& piece_gives(ban, p, to, b)
    &&& pin_allows(pin[p], dir_offset(line_of(b)))
}

/// The pawn-drop mate test, exactly: a pawn of `side` dropped on `to`
/// (empty) is judged a pawn-drop mate exactly when it stands right in
/// front of the other king, the dropping player reaches `to`, that king
/// may take it (its pin entry allows the line), no other piece of the
/// king's player could take it, and every other neighbour of the king
/// holds a piece of the king's player or is reached by the dropping
/// player.
pub proof fn lemma_pawn_drop_mate_exactly(v: KyokumenView, side: KomaInf, to: int, pin: Seq<isize>)
    requires
        side.is_side(),
        v.walls_ok(),
        on_board(to),
        v.ban[to] == KomaInf::EMP,
        on_board(v.king(side.opponent()) as int),
        v.ban[v.king(side.opponent()) as int] == piece(side.opponent(), KomaInf::OU),
        pin.len() == 176,
    ensures
        utifudume_spec(v, side, to, pin) <==> {
            let opp = side.opponent();
            let king = v.king(opp) as int;
            let b1 = v.ban.update(to, piece(side, KomaInf::FU));
            &&& to == king + (if side == KomaInf::Self_ { 1int } else { -1int })
            &&& v.control(side)[to] != 0
            &&& pin_allows(pin[king], 1)
            &&& forall|p: int, b: int| 0 <= b < 24 ==> !#[trigger] pawn_taker(b1, opp, king, to, pin, p, b)
            &&& forall|i: int| 0 <= i < 8 && #[trigger] dir_offset(i) != king - to ==> {
                    let sq = king - dir_offset(i);
                    v.ban[sq].value() & opp.value() != 0 || v.control(side)[sq] != 0
                }
        },
{
    reveal(utifudume_spec);
    let opp = side.opponent();
    let king = v.king(opp) as int;
    let fu = piece(side, KomaInf::FU);
    let v1 = v.with_koma(to, fu);
    let b1 = v1.ban;
    crate::drops::lemma_piece(side, KomaInf::FU);
    crate::generated::lemma_king_piece(opp);
    lemma_count_bits(v1, opp, to, pin, 12);
    let cnt = count_move_upto(v1, opp, to, pin, 12);
    let kd: int = if side == KomaInf::Self_ { 1 } else { 6 };
    let kbit: usize = 1usize << (kd as usize);
    assert(dir_offset(kd) == to - king || to != king + (if side == KomaInf::Self_ { 1int } else { -1int }));
    assert forall|j: usize| j < 24 implies #[trigger] bit(kbit, j) == (j == kd as usize) by {
        let kdu = kd as usize;
        assert((1usize << kdu) & (1usize << j) != 0 <==> j == kdu) by (bit_vector)
            requires kdu < 24, j < 24;
    }
    assert(kbit < 0x1000000) by {
        let kdu = kd as usize;
        assert(1usize << kdu < 0x1000000) by (bit_vector) requires kdu < 24;
    }
    // Facts about the pieces that count.
    assert(v1.walls_ok()) by {
        assert(!fu.is_mark());
    }
    if crate::gen_spec::utifudume_guard(v, side, to) {
        assert(to == king + (if side == KomaInf::Self_ { 1int } else { -1int }));
        assert(v1.at(king) == v.ban[king]);
        assert(step_counted(v1, opp, to, pin, kd) == pin_allows(pin[king], 1));
        assert forall|p: int, b: int| 0 <= b < 24 && #[trigger] pawn_taker(b1, opp, king, to, pin, p, b) implies
            exists|j: usize| j < 24 && j != kd as usize && #[trigger] bit(cnt, j) by {
            let o = dir_offset(line_of(b));
            assert(b1[p] != KomaInf::EMP) by {
                crate::follow::lemma_zero_bits(opp.value());
            }
            if b < 12 {
                assert(step_counted(v1, opp, to, pin, b));
                assert(bit(cnt, b as usize));
                if b == kd {
                    assert(p == king);
                }
            } else {
                let d = b - 16;
                crate::complete::lemma_ray_walk(v1, p, o, to);
                assert(slide_counted(v1, opp, to, pin, d));
                if step_counted(v1, opp, to, pin, d) {
                    assert(bit(cnt, d as usize));
                    if d == kd {
                        lemma_walk_first(v1, to, o);
                        assert(p == king);
                    }
                } else {
                    assert(bit(cnt, b as usize));
                }
            }
        }
        assert forall|j: usize| j < 24 && j != kd as usize && #[trigger] bit(cnt, j) implies
            exists|p: int, b: int| 0 <= b < 24 && #[trigger] pawn_taker(b1, opp, king, to, pin, p, b) by {
            if j < 12 {
                let p = to - dir_offset(j as int);
                crate::drops::lemma_mover_on_board(v1, j as int, p);
                if p == king {
                    assert(dir_offset(j as int) == dir_offset(kd));
                }
                assert(pawn_taker(b1, opp, king, to, pin, p, j as int));
            } else {
                let d = j - 16;
                let o = dir_offset(d);
                let q = v1.walk(to, -o);
                crate::drops::lemma_opp_dir(d);
                v1.lemma_walk(to, crate::drops::opp_dir(d));
                crate::drops::lemma_mover_on_board(v1, d, q);
                crate::generated::lemma_walk_ray(v1, to, o);
                if q == king {
                    assert(!slides(d, piece(opp, KomaInf::OU)));
                }
                assert(pawn_taker(b1, opp, king, to, pin, q, j as int));
            }
        }
        if (forall|p: int, b: int| 0 <= b < 24 ==> !#[trigger] pawn_taker(b1, opp, king, to, pin, p, b))
            && pin_allows(pin[king], 1) {
            assert forall|j: usize| j < 24 implies #[trigger] bit(cnt, j) == bit(kbit, j) by {}
            crate::control::lemma_same_bits(cnt, kbit);
        }
        if cnt == kbit {
            assert(bit(cnt, kd as usize));
            assert forall|p: int, b: int| 0 <= b < 24 implies !#[trigger] pawn_taker(b1, opp, king, to, pin, p, b) by {
                if pawn_taker(b1, opp, king, to, pin, p, b) {
                    let j = choose|j: usize| j < 24 && j != kd as usize && #[trigger] bit(cnt, j);
                    assert(bit(kbit, j));
                }
            }
        }
        let esc = crate::gen_spec::king_escapes(v1, opp);
        assert(v1.king(opp) as int == king);
        assert(v1.control(opp.opponent()) == v.control(side));
        if esc {
            let i = choose|i: int| 0 <= i < 8 && {
                let sq = #[trigger] (v1.king(opp) as int - dir_offset(i));
                &&& v1.ban[sq].value() & opp.value() == 0
                &&& v1.control(opp.opponent())[sq] == 0
            };
            let sq = king - dir_offset(i);
            if dir_offset(i) == king - to {
                assert(sq == to);
            } else {
                assert(v1.ban[sq] == v.ban[sq]);
            }
        } else {
            assert forall|i: int| 0 <= i < 8 && #[trigger] dir_offset(i) != king - to implies {
                let sq = king - dir_offset(i);
                v.ban[sq].value() & opp.value() != 0 || v.control(side)[sq] != 0
            } by {
                let sq = king - dir_offset(i);
                assert(!({
                    &&& v1.ban[v1.king(opp) as int - dir_offset(i)].value() & opp.value() == 0
                    &&& v1.control(opp.opponent())[v1.king(opp) as int - dir_offset(i)] == 0
                }));
                assert(v1.ban[sq] == v.ban[sq]);
            }
        }
    }
}

/// Going back from a square, a neighbour that is not empty is the first
/// piece found.
proof fn lemma_walk_first(v: KyokumenView, sq: int, o: int)
    requires
        o != 0,
        -16 <= sq - o < 176,
        v.at(sq - o) != KomaInf::EMP,
    ensures
        v.walk(sq, -o) == sq - o,
{
}

} // verus!
