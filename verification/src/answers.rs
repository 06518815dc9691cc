//! Against a check, every move the generator gives other than the king's,
//! and every drop, takes the single checking piece or, against a sliding
//! check, goes between the slider and the king.

use vstd::prelude::*;
use crate::koma_inf::KomaInf;
use crate::koma_moves::dir_offset;
use crate::kyokumen::{KyokumenView, on_board};
use crate::control::{ray_reaches, piece_gives, owns, control_matches, attacked, bit, lemma_ray_direction};
use crate::gen_spec::{add_move_spec, piece, move_to_dir, move_to_from, move_to_spec, king_step_spec,
    king_steps_from, move_king_spec, first_step_bit, put_to_spec, fu_drop_spec, drops_from, interpose_moves,
    interpose_spec, anti_check_spec, legal_moves_spec, single_bit_index, checking_square, check_answerable};
use crate::te::Te;
use crate::legal::generation_ready;
use crate::generated::king_in_place;

verus! {

/// Whether `te`, played by `side`, answers a check on its king as a move
/// other than the king's must: there is a single checking piece, on `c`,
/// giving bit `id` of the checks on the king, and `te` lands on `c` or,
/// against a slide, on a square between `c` and the king.  Out of check,
/// and for the king's own moves, nothing is asked.
pub open spec fn answers_check(v: KyokumenView, side: KomaInf, te: Te) -> bool {
    let king = v.king(side) as int;
    let kiki = v.control(side.opponent())[king];
    kiki != 0 && v.ban[te.from as int] != piece(side, KomaInf::OU) ==>
        exists|id: int, c: int| #![trigger piece_gives(v.ban, c, king, id)]
            0 <= id < 24 && kiki == 1usize << (id as usize)
            && owns(v.ban, side.opponent(), c) && piece_gives(v.ban, c, king, id)
            && (te.to as int == c || (16 <= id && ray_reaches(v.ban, c, dir_offset(id - 16), te.to as int)
                && ray_reaches(v.ban, te.to as int, dir_offset(id - 16), king)))
}

/// Every move of `moves` answers a check as `answers_check` asks.
pub open spec fn all_answer(v: KyokumenView, side: KomaInf, moves: Seq<Te>) -> bool {
    forall|i: int| 0 <= i < moves.len() ==> answers_check(v, side, #[trigger] moves[i])
}

/// Every move of `moves` has property `p`.
pub open spec fn all_hold(moves: Seq<Te>, p: spec_fn(Te) -> bool) -> bool {
    forall|i: int| 0 <= i < moves.len() ==> p(#[trigger] moves[i])
}

pub proof fn lemma_all_hold_add(a: Seq<Te>, b: Seq<Te>, p: spec_fn(Te) -> bool)
    requires
        all_hold(a, p),
        all_hold(b, p),
    ensures
        all_hold(a + b, p),
{
    assert forall|i: int| 0 <= i < (a + b).len() implies p(#[trigger] (a + b)[i]) by {
        if i < a.len() {
            assert((a + b)[i] == a[i]);
        } else {
            assert((a + b)[i] == b[i - a.len()]);
        }
    }
}

/// The moves that land on `x`.
pub open spec fn lands_on(x: int) -> spec_fn(Te) -> bool {
    |te: Te| te.to as int == x
}

/// The moves that leave `f`.
pub open spec fn leaves(f: int) -> spec_fn(Te) -> bool {
    |te: Te| te.from as int == f
}

/// The moves that land on an empty square from which a slide along `off`
/// reaches `king`.
pub open spec fn lands_before(ban: Seq<KomaInf>, off: int, king: int) -> spec_fn(Te) -> bool {
    |te: Te| ray_reaches(ban, te.to as int, off, king) && ban[te.to as int] == KomaInf::EMP
}

pub proof fn lemma_add_move_ends(v: KyokumenView, side: KomaInf, from: int, diff: int, pin: int, r_pin: int)
    ensures
        0 <= from + diff < 176 ==> all_hold(add_move_spec(v, side, from, diff, pin, r_pin), lands_on(from + diff)),
        0 <= from < 176 ==> all_hold(add_move_spec(v, side, from, diff, pin, r_pin), leaves(from)),
{
    reveal(add_move_spec);
}

pub proof fn lemma_move_to_lands(v: KyokumenView, side: KomaInf, to: int, pin: Seq<isize>, dir: int)
    requires
        0 <= to < 176,
    ensures
        all_hold(move_to_from(v, side, to, pin, dir), lands_on(to)),
    decreases 12 - dir,
{
    if 0 <= dir < 12 {
        let o = dir_offset(dir);
        let q = v.walk(to, -o);
        lemma_add_move_ends(v, side, to - o, o, 0, 0);
        lemma_add_move_ends(v, side, q, to - q, 0, 0);
        assert(all_hold(move_to_dir(v, side, to, pin, dir), lands_on(to)));
        lemma_move_to_lands(v, side, to, pin, dir + 1);
        lemma_all_hold_add(move_to_dir(v, side, to, pin, dir), move_to_from(v, side, to, pin, dir + 1), lands_on(to));
    }
}

pub proof fn lemma_king_steps_leave(v: KyokumenView, side: KomaInf, kiki: usize, skip: Option<int>, i: int)
    requires
        0 <= v.king(side) < 176,
    ensures
        all_hold(king_steps_from(v, side, kiki, skip, i), leaves(v.king(side) as int)),
    decreases 8 - i,
{
    if i < 8 {
        let king = v.king(side) as int;
        lemma_king_steps_leave(v, side, kiki, skip, i + 1);
        lemma_add_move_ends(v, side, king, -dir_offset(i), 0, 0);
        if skip != Some(i) {
            lemma_all_hold_add(king_step_spec(v, side, kiki, i), king_steps_from(v, side, kiki, skip, i + 1), leaves(king));
        }
    }
}

pub proof fn lemma_move_king_leaves(v: KyokumenView, side: KomaInf, kiki: usize)
    requires
        0 <= v.king(side) < 176,
    ensures
        all_hold(move_king_spec(v, side, kiki), leaves(v.king(side) as int)),
{
    reveal(move_king_spec);
    let king = v.king(side) as int;
    let id = first_step_bit(kiki, 0);
    let first = match id {
        Some(j) => king_step_spec(v, side, kiki, j),
        None => seq![],
    };
    if let Some(j) = id {
        lemma_add_move_ends(v, side, king, -dir_offset(j), 0, 0);
    }
    lemma_king_steps_leave(v, side, kiki, id, 0);
    lemma_all_hold_add(first, king_steps_from(v, side, kiki, id, 0), leaves(king));
}

pub proof fn lemma_drops_from_land(v: KyokumenView, side: KomaInf, to: int, koma: int)
    requires
        0 <= to < 176,
    ensures
        all_hold(drops_from(v, side, to, koma), lands_on(to)),
    decreases 8 - koma,
{
    if koma <= 7 {
        lemma_drops_from_land(v, side, to, koma + 1);
        let k = KomaInf::from_value((side.value() | koma as u8) as u8).unwrap();
        let head = if v.hand[(side.value() | koma as u8) as int] > 0 { seq![crate::te::te_of(0, to, k, KomaInf::EMP, 0)] } else { seq![] };
        lemma_all_hold_add(head, drops_from(v, side, to, koma + 1), lands_on(to));
    }
}

pub proof fn lemma_put_to_lands(v: KyokumenView, side: KomaInf, to: int, pin: Seq<isize>)
    requires
        0 <= to < 176,
    ensures
        all_hold(put_to_spec(v, side, to, pin), lands_on(to)),
{
    reveal(put_to_spec);
    reveal(fu_drop_spec);
    let dan = crate::gen_spec::rank_for(side, to);
    let ky = piece(side, KomaInf::KY);
    let ke = piece(side, KomaInf::KE);
    let m1 = fu_drop_spec(v, side, to, pin);
    let m2 = if v.hand[ky.value() as int] > 0 && dan > 1 { seq![crate::te::te_of(0, to, ky, KomaInf::EMP, 0)] } else { seq![] };
    let m3 = if v.hand[ke.value() as int] > 0 && dan > 2 { seq![crate::te::te_of(0, to, ke, KomaInf::EMP, 0)] } else { seq![] };
    lemma_drops_from_land(v, side, to, 4);
    lemma_all_hold_add(m1, m2, lands_on(to));
    lemma_all_hold_add(m1 + m2, m3, lands_on(to));
    lemma_all_hold_add(m1 + m2 + m3, drops_from(v, side, to, 4), lands_on(to));
}

pub proof fn lemma_interpose_moves_land(v: KyokumenView, side: KomaInf, i: int, off: int, pin: Seq<isize>, king: int)
    requires
        ray_reaches(v.ban, i, off, king),
    ensures
        all_hold(interpose_moves(v, side, i, off, pin), lands_before(v.ban, off, king)),
    decreases (if off < 0 { 176 - i } else { i }),
{
    if !(off == 0 || i < 0 || i >= 176) && v.ban[i] == KomaInf::EMP {
        lemma_move_to_lands(v, side, i, pin, 0);
        assert forall|j: int| 0 <= j < move_to_spec(v, side, i, pin).len()
            implies (#[trigger] lands_before(v.ban, off, king)(move_to_spec(v, side, i, pin)[j])) by {
            assert(lands_on(i)(move_to_spec(v, side, i, pin)[j]));
        }
        let rest = if 0 <= i - off < 176 { interpose_moves(v, side, i - off, off, pin) } else { seq![] };
        if 0 <= i - off < 176 {
            lemma_ray_direction(v.ban, i, off, king);
            assert(ray_reaches(v.ban, i - off, off, king));
            lemma_interpose_moves_land(v, side, i - off, off, pin, king);
        }
        lemma_all_hold_add(move_to_spec(v, side, i, pin), rest, lands_before(v.ban, off, king));
    }
}

pub proof fn lemma_interpose_drops_land(v: KyokumenView, side: KomaInf, i: int, off: int, pin: Seq<isize>, king: int)
    requires
        ray_reaches(v.ban, i, off, king),
    ensures
        all_hold(interpose_spec(v, side, i, off, pin), lands_before(v.ban, off, king)),
    decreases (if off < 0 { 176 - i } else { i }),
{
    if !(off == 0 || i < 0 || i >= 176) && v.ban[i] == KomaInf::EMP {
        lemma_put_to_lands(v, side, i, pin);
        assert forall|j: int| 0 <= j < put_to_spec(v, side, i, pin).len()
            implies (#[trigger] lands_before(v.ban, off, king)(put_to_spec(v, side, i, pin)[j])) by {
            assert(lands_on(i)(put_to_spec(v, side, i, pin)[j]));
        }
        let rest = if 0 <= i - off < 176 { interpose_spec(v, side, i - off, off, pin) } else { seq![] };
        if 0 <= i - off < 176 {
            lemma_ray_direction(v.ban, i, off, king);
            assert(ray_reaches(v.ban, i - off, off, king));
            lemma_interpose_drops_land(v, side, i - off, off, pin, king);
        }
        lemma_all_hold_add(put_to_spec(v, side, i, pin), rest, lands_before(v.ban, off, king));
    }
}

/// The index `single_bit_index` finds names the one bit of `kiki`.
pub proof fn lemma_single_bit_found(kiki: usize, i: int)
    requires
        0 <= i,
    ensures
        single_bit_index(kiki, i) >= 0,
        single_bit_index(kiki, i) < 32 ==> kiki == 1usize << (single_bit_index(kiki, i) as usize),
    decreases 32 - i,
{
    if i <= 31 && kiki != 1usize << (i as usize) {
        lemma_single_bit_found(kiki, i + 1);
    }
}

/// Against a check, every move the generator gives other than the king's,
/// and every drop, answers it (see `answers_check`), when the attack map
/// of the other player agrees with the board: a single checking piece is
/// taken or, when it slides, blocked.
pub proof fn lemma_generated_moves_answer(v: KyokumenView, side: KomaInf, pin: Seq<isize>)
    requires
        generation_ready(v, side),
        king_in_place(v, side),
        control_matches(v.ban, side.opponent(), v.control(side.opponent())),
    ensures
        all_answer(v, side, legal_moves_spec(v, side, pin)),
{
    let king = v.king(side) as int;
    let opp = side.opponent();
    let kiki = v.control(opp)[king];
    if kiki != 0 {
        reveal(anti_check_spec);
        let ms = legal_moves_spec(v, side, pin);
        assert(ms == anti_check_spec(v, side, pin, kiki));
        lemma_move_king_leaves(v, side, kiki);
        let m2 = move_king_spec(v, side, kiki);
        if kiki & ((kiki - 1) as usize) != 0 {
            assert forall|i: int| 0 <= i < ms.len() implies answers_check(v, side, #[trigger] ms[i]) by {
                assert(leaves(king)(m2[i]));
            }
        } else {
            let id = single_bit_index(kiki, 0);
            lemma_single_bit_found(kiki, 0);
            assert(check_answerable(v, side, kiki));
            assert(id < 12 || 16 <= id < 24);
            assert(on_board(king));
            let ub = id as usize;
            assert(bit(kiki, ub)) by {
                assert((1usize << ub) & (1usize << ub) != 0) by (bit_vector)
                    requires ub < 24usize;
            }
            assert(bit(v.control(opp)[king], ub));
            assert(attacked(v.ban, opp, king, ub as int));
            let c = choose|c: int| owns(v.ban, opp, c) && #[trigger] piece_gives(v.ban, c, king, id);
            assert(v.ban[c] != KomaInf::EMP) by {
                crate::follow::lemma_zero_bits(opp.value());
            }
            let check = checking_square(v, king, id);
            if id >= 16 {
                crate::complete::lemma_ray_walk(v, c, dir_offset(id - 16), king);
            }
            assert(check == c);
            let m1 = move_to_spec(v, side, check, pin);
            lemma_move_to_lands(v, side, check, pin, 0);
            if id >= 16 {
                let off = dir_offset(id - 16);
                let m3 = interpose_moves(v, side, king - off, off, pin);
                let m4 = interpose_spec(v, side, king - off, off, pin);
                assert(ray_reaches(v.ban, king - off, off, king));
                lemma_interpose_moves_land(v, side, king - off, off, pin, king);
                lemma_interpose_drops_land(v, side, king - off, off, pin, king);
                assert(ms == m1 + m2 + m3 + m4);
                assert forall|i: int| 0 <= i < ms.len() implies answers_check(v, side, #[trigger] ms[i]) by {
                    let te = ms[i];
                    if i < m1.len() {
                        assert(te == m1[i]);
                        assert(lands_on(c)(m1[i]));
                    } else if i < m1.len() + m2.len() {
                        assert(te == m2[i - m1.len()]);
                        assert(leaves(king)(m2[i - m1.len()]));
                    } else {
                        if i < m1.len() + m2.len() + m3.len() {
                            assert(te == m3[i - m1.len() - m2.len()]);
                            assert(lands_before(v.ban, off, king)(m3[i - m1.len() - m2.len()]));
                        } else {
                            assert(te == m4[i - m1.len() - m2.len() - m3.len()]);
                            assert(lands_before(v.ban, off, king)(m4[i - m1.len() - m2.len() - m3.len()]));
                        }
                        let x = te.to as int;
                        if x != c {
                            crate::rays::lemma_ray_comparable(v.ban, c, x, off, king);
                            if ray_reaches(v.ban, x, off, c) {
                                crate::rays::lemma_ray_between(v.ban, x, off, c, king);
                            }
                        }
                    }
                }
            } else {
                assert(ms == m1 + m2);
                assert forall|i: int| 0 <= i < ms.len() implies answers_check(v, side, #[trigger] ms[i]) by {
                    if i < m1.len() {
                        assert(ms[i] == m1[i]);
                        assert(lands_on(c)(m1[i]));
                    } else {
                        assert(ms[i] == m2[i - m1.len()]);
                        assert(leaves(king)(m2[i - m1.len()]));
                    }
                }
            }
        }
    }
}

} // verus!
