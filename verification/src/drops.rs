//! Who could take a piece on a square, the pawn-drop mate test, and the
//! drops onto one square.

use vstd::prelude::*;
use crate::koma_inf::{KomaInf, lemma_mark_kind, lemma_bit4, lemma_bit5};
use crate::koma_moves::{KomaMoves, dir_offset, moves_to};
use crate::kyokumen::{Kyokumen, KyokumenView, on_board};
use crate::control::lemma_bit_basics;
use crate::koma_moves::{steps, slides, lemma_moves_shape};
use crate::gen_spec::{count_move_upto, counts_at, pin_allows, move_to_dir, move_to_from, move_to_spec,
    piece, rank_for, fu_drop_spec, utifudume_spec, utifudume_guard, king_escapes, nifu, put_to_spec, drops_from};
use crate::movegen::lemma_rank_bits;
use crate::te::{Te, te_of};
use crate::{USquare, ISquare, Kiki};

verus! {

/// The direction opposite to `d`.
pub open spec fn opp_dir(d: int) -> int {
    if d < 8 { 7 - d } else { 19 - d }
}

/// Opposite directions have opposite offsets.
pub proof fn lemma_opp_dir(d: int)
    requires
        0 <= d < 12,
    ensures
        0 <= opp_dir(d) < 12,
        dir_offset(opp_dir(d)) == -dir_offset(d),
        -18 <= dir_offset(d) <= 18,
        dir_offset(d) != 0,
{
}

/// A piece that moves stands on the board.
pub proof fn lemma_mover_on_board(v: KyokumenView, d: int, p: int)
    requires
        v.walls_ok(),
        -16 <= p < 176,
        moves_to(d, v.at(p)),
    ensures
        on_board(p),
{
    if p < 0 {
        assert(v.banpadding[p + 16] == KomaInf::Wall);
    } else if !on_board(p) {
        assert(v.ban[p] == KomaInf::Wall);
    }
}

/// The value of a piece of a player.
pub proof fn lemma_piece(side: KomaInf, kind: KomaInf)
    requires
        side.is_side(),
        kind.value() < 8,
    ensures
        piece(side, kind).value() == side.value() + kind.value(),
        kind.value() | side.value() == side.value() + kind.value(),
        side.value() | kind.value() == side.value() + kind.value(),
        KomaInf::from_value((side.value() | kind.value()) as u8) == Some(piece(side, kind)),
        kind != KomaInf::EMP ==> !piece(side, kind).is_mark(),
        piece(side, kind) != KomaInf::EMP,
{
    lemma_mark_kind(kind.value());
    KomaInf::lemma_from_value((side.value() + kind.value()) as u8);
}

/// Whether `pin`'s entry for `p` lets the piece there move along `o`.
fn pin_ok(pin: &[ISquare; 176], p: ISquare, o: ISquare) -> (r: bool)
    requires
        0 <= p < 176,
        -18 <= o <= 18,
    ensures
        r == pin_allows(pin@[p as int], o as int),
{
    pin[p as usize] == 0 || pin[p as usize] == o || pin[p as usize] == -o
}

/// Whether `k` steps (and does not slide) in direction `dir`.
fn steps_exec(dir: usize, k: KomaInf) -> (r: bool)
    ensures
        r == steps(dir as int, k),
{
    proof {
        lemma_moves_shape(dir as int, k);
    }
    KomaMoves::can_move(dir, k) && !KomaMoves::can_jump(dir, k)
}

impl Kyokumen {
    /// Collects, for each direction, whether a neighbour of `sq` that is a
    /// piece of `s_or_e` steps onto it, or else whether the first piece
    /// found going back from `sq` is a piece of `s_or_e` that slides onto
    /// it; each time only if its pin allows the line (see
    /// `count_move_upto`).
    pub(crate) fn count_move(&self, s_or_e: KomaInf, sq: ISquare, pin: &[ISquare; 176]) -> (r: Kiki)
        requires
            self@.walls_ok(),
            on_board(sq as int),
        ensures
            r == count_move_upto(self@, s_or_e, sq as int, pin@, 12),
    {
        let mut ret: Kiki = 0;
        let mut dir: usize = 0;
        let mut b: usize = 1;
        let mut bj: usize = 1 << 16;
        proof {
            lemma_bit_basics(0);
        }
        while dir < 12
            invariant
                self@.walls_ok(),
                on_board(sq as int),
                dir <= 12,
                b == 1usize << dir,
                bj == 1usize << ((dir + 16) as usize),
                ret == count_move_upto(self@, s_or_e, sq as int, pin@, dir as int),
            decreases 12 - dir,
        {
            let o = KomaMoves::direct(dir);
            proof {
                lemma_opp_dir(dir as int);
                self@.lemma_walk(sq as int, opp_dir(dir as int));
            }
            let p = sq - o;
            let k = self.koma_at(p);
            let q = self.search_i(sq, -o);
            let kq = self.koma_at(q);
            proof {
                if moves_to(dir as int, k) {
                    lemma_mover_on_board(self@, dir as int, p as int);
                }
                if moves_to(dir as int, kq) {
                    lemma_mover_on_board(self@, dir as int, q as int);
                }
            }
            if steps_exec(dir, k) && k.meets(s_or_e) && pin_ok(pin, p, o) {
                ret = ret | b;
            } else if KomaMoves::can_jump(dir, kq) && kq.meets(s_or_e) && pin_ok(pin, q, o) {
                ret = ret | bj;
            }
            proof {
                lemma_bit_basics(dir);
                lemma_bit_basics((dir + 16) as usize);
            }
            dir += 1;
            b = b << 1;
            bj = bj << 1;
        }
        ret
    }

    /// The judgement of the pawn-drop mate test once the pawn of `s_or_e`
    /// stands on `to`, in front of the other king (see `utifudume_spec`).
    fn pawn_mates(&self, s_or_e: KomaInf, to: USquare, pin: &[ISquare; 176]) -> (r: bool)
        requires
            self@.walls_ok(),
            s_or_e.is_side(),
            on_board(to as int),
            s_or_e == KomaInf::Self_ ==> self.king_e + 1 == to,
            s_or_e == KomaInf::Enemy ==> self.king_s == to + 1,
            on_board(self@.king(s_or_e.opponent()) as int),
        ensures
            r == (if s_or_e == KomaInf::Self_ {
                self@.control_s[to as int] != 0 && count_move_upto(self@, KomaInf::Enemy, to as int, pin@, 12) == 1usize << 1usize
                    && !king_escapes(self@, KomaInf::Enemy)
            } else {
                self@.control_e[to as int] != 0 && count_move_upto(self@, KomaInf::Self_, to as int, pin@, 12) == 1usize << 6usize
                    && !king_escapes(self@, KomaInf::Self_)
            }),
    {
        let opp = if s_or_e == KomaInf::Self_ { KomaInf::Enemy } else { KomaInf::Self_ };
        let reached = if s_or_e == KomaInf::Self_ { self.is_control_s(to) } else { self.is_control_e(to) };
        let only_king: usize = if s_or_e == KomaInf::Self_ { 1usize << 1 } else { 1usize << 6 };
        if !(reached && self.count_move(opp, to as ISquare, pin) == only_king) {
            return false;
        }
        let king: USquare = if s_or_e == KomaInf::Self_ { self.king_e } else { self.king_s };
        let mut i: usize = 0;
        while i < 8
            invariant
                self@.walls_ok(),
                s_or_e.is_side(),
                opp == s_or_e.opponent(),
                king == self@.king(opp),
                on_board(king as int),
                i <= 8,
                forall|j: int| 0 <= j < i ==> {
                    let sq = #[trigger] (king - dir_offset(j));
                    !(self@.ban[sq].value() & opp.value() == 0 && self@.control(s_or_e)[sq] == 0)
                },
            decreases 8 - i,
        {
            let sq = Kyokumen::get_offset_sq(king, i as ISquare);
            assert(sq as int == king - dir_offset(i as int));
            let own = self.ban[sq].meets(opp);
            let hit = if s_or_e == KomaInf::Self_ { self.is_control_s(sq) } else { self.is_control_e(sq) };
            if !own && !hit {
                assert(king_escapes(self@, opp));
                return false;
            }
            i += 1;
        }
        true
    }

    /// The pawn-drop mate test for a pawn of `s_or_e` on `to` (see
    /// `utifudume_spec`).  When `to` is in front of the other king, the
    /// test puts the pawn there, judges, and puts back what stood there.
    pub(crate) fn utifudume(&mut self, s_or_e: KomaInf, to: USquare, pin: &[ISquare; 176]) -> (r: bool)
        requires
            old(self)@.walls_ok(),
            old(self)@.kings_ok(),
            s_or_e.is_side(),
            on_board(to as int),
        ensures
            r == utifudume_spec(old(self)@, s_or_e, to as int, pin@),
            final(self)@ == old(self)@,
    {
        reveal(utifudume_spec);
        let ghost v0 = self@;
        if s_or_e == KomaInf::Self_ {
            if self.king_e + 1 != to {
                return false;
            }
        } else {
            if self.king_s != to + 1 {
                return false;
            }
        }
        proof {
            lemma_piece(s_or_e, KomaInf::FU);
        }
        let fu = KomaInf::FU.bitor(s_or_e);
        assert(fu == piece(s_or_e, KomaInf::FU)) by {
            KomaInf::lemma_value_from(fu);
        }
        let before = self.ban[to];
        self.ban[to] = fu;
        assert(self@ == v0.with_koma(to as int, fu));
        let r = self.pawn_mates(s_or_e, to, pin);
        self.ban[to] = before;
        assert(self.ban@ =~= v0.ban);
        r
    }

    /// Adds the pawn drop of `s_or_e` onto `to` (see `fu_drop_spec`).
    pub(crate) fn fu_drop(&mut self, s_or_e: KomaInf, moves: &mut Vec<Te>, to: USquare, pin: &[ISquare; 176], dan: USquare)
        requires
            old(self)@.walls_ok(),
            old(self)@.kings_ok(),
            s_or_e.is_side(),
            on_board(to as int),
            dan == rank_for(s_or_e, to as int),
        ensures
            final(moves)@ == old(moves)@ + fu_drop_spec(old(self)@, s_or_e, to as int, pin@),
            final(self)@ == old(self)@,
    {
        reveal(fu_drop_spec);
        let ghost v0 = self@;
        proof {
            lemma_rank_bits(to);
            lemma_piece(s_or_e, KomaInf::FU);
        }
        let fu = s_or_e.bitor(KomaInf::FU);
        assert(fu == piece(s_or_e, KomaInf::FU)) by {
            KomaInf::lemma_value_from(fu);
        }
        if self.hand[fu.as_usize()] > 0 && dan > 1 {
            let suji: USquare = to & 0xf0;
            let mut nifu_found: bool = false;
            let mut d: usize = 1;
            while d <= 9
                invariant_except_break
                    !nifu_found,
                invariant
                    self@ == v0,
                    fu == piece(s_or_e, KomaInf::FU),
                    suji == to - to % 16,
                    on_board(to as int),
                    1 <= d <= 10,
                    forall|e: int| 1 <= e < d ==> #[trigger] v0.ban[suji + e] != fu,
                ensures
                    self@ == v0,
                    nifu_found == nifu(v0, s_or_e, suji as int),
                decreases 10 - d,
            {
                if self.ban[suji + d] == fu {
                    nifu_found = true;
                    assert(v0.ban[suji + d] == piece(s_or_e, KomaInf::FU));
                    break;
                }
                d += 1;
            }
            if !nifu_found && !self.utifudume(s_or_e, to, pin) {
                moves.push(Te::from_4(0, to, fu, KomaInf::EMP));
            }
        }
    }

    /// Adds the drops of `s_or_e` onto `to` (see `put_to_spec`).
    pub(crate) fn put_to(&mut self, s_or_e: KomaInf, moves: &mut Vec<Te>, to: USquare, pin: &[ISquare; 176])
        requires
            old(self)@.walls_ok(),
            old(self)@.kings_ok(),
            s_or_e.is_side(),
            on_board(to as int),
        ensures
            final(moves)@ == old(moves)@ + put_to_spec(old(self)@, s_or_e, to as int, pin@),
            final(self)@ == old(self)@,
    {
        reveal(put_to_spec);
        let ghost v0 = self@;
        let ghost m0 = moves@;
        proof {
            lemma_rank_bits(to);
            lemma_piece(s_or_e, KomaInf::KY);
            lemma_piece(s_or_e, KomaInf::KE);
        }
        let mut dan: USquare = to & 0x0f;
        if s_or_e == KomaInf::Enemy {
            dan = 10 - dan;
        }
        self.fu_drop(s_or_e, moves, to, pin, dan);
        let ky = s_or_e.bitor(KomaInf::KY);
        assert(ky == piece(s_or_e, KomaInf::KY)) by {
            KomaInf::lemma_value_from(ky);
        }
        if self.hand[ky.as_usize()] > 0 && dan > 1 {
            moves.push(Te::from_4(0, to, ky, KomaInf::EMP));
        }
        let ke = s_or_e.bitor(KomaInf::KE);
        assert(ke == piece(s_or_e, KomaInf::KE)) by {
            KomaInf::lemma_value_from(ke);
        }
        if self.hand[ke.as_usize()] > 0 && dan > 2 {
            moves.push(Te::from_4(0, to, ke, KomaInf::EMP));
        }
        let ghost m3 = moves@;
        let mut koma: u8 = 4;
        while koma <= 7
            invariant
                s_or_e.is_side(),
                self@ == v0,
                4 <= koma <= 8,
                moves@ + drops_from(v0, s_or_e, to as int, koma as int) == m3 + drops_from(v0, s_or_e, to as int, 4),
            decreases 8 - koma,
        {
            proof {
                lemma_mark_kind(koma);
                KomaInf::lemma_from_value((s_or_e.value() | koma) as u8);
            }
            let code = s_or_e.as_u8() | koma;
            if self.hand[code as usize] > 0 {
                let k = match KomaInf::from_u8(code) {
                    Some(k) => k,
                    None => KomaInf::EMP,
                };
                moves.push(Te::from_4(0, to, k, KomaInf::EMP));
            }
            koma += 1;
        }
        assert(moves@ =~= m0 + put_to_spec(v0, s_or_e, to as int, pin@));
    }

    /// Adds the moves onto `to` of the pieces of `s_or_e` other than the
    /// king, each only where its pin allows the line (see `move_to_spec`).
    pub(crate) fn move_to(&self, s_or_e: KomaInf, moves: &mut Vec<Te>, to: USquare, pin: &[ISquare; 176])
        requires
            self@.walls_ok(),
            s_or_e.is_side(),
            on_board(to as int),
        ensures
            final(moves)@ == old(moves)@ + move_to_spec(self@, s_or_e, to as int, pin@),
    {
        let ghost m0 = moves@;
        proof {
            lemma_mark_kind(8u8);
            KomaInf::lemma_from_value((s_or_e.value() | 8u8) as u8);
        }
        let ou = KomaInf::OU.bitor(s_or_e);
        assert(ou == piece(s_or_e, KomaInf::OU)) by {
            KomaInf::lemma_value_from(ou);
        }
        let mut dir: usize = 0;
        while dir < 12
            invariant
                self@.walls_ok(),
                s_or_e.is_side(),
                on_board(to as int),
                ou == piece(s_or_e, KomaInf::OU),
                dir <= 12,
                moves@ + move_to_from(self@, s_or_e, to as int, pin@, dir as int) == m0 + move_to_spec(self@, s_or_e, to as int, pin@),
            decreases 12 - dir,
        {
            let ghost mb = moves@;
            let o = KomaMoves::direct(dir);
            proof {
                lemma_opp_dir(dir as int);
                self@.lemma_walk(to as int, opp_dir(dir as int));
            }
            let p = to as ISquare - o;
            let k = self.koma_at(p);
            let q = self.search_i(to as ISquare, -o);
            let kq = self.koma_at(q);
            proof {
                if moves_to(dir as int, k) {
                    lemma_mover_on_board(self@, dir as int, p as int);
                }
                if moves_to(dir as int, kq) {
                    lemma_mover_on_board(self@, dir as int, q as int);
                }
            }
            if k != KomaInf::EMP {
                if k.meets(s_or_e) && k != ou && KomaMoves::can_move(dir, k) && pin_ok(pin, p, o) {
                    self.add_move(s_or_e, moves, p as USquare, o, 0, 0);
                }
            } else if dir < 8 && kq.meets(s_or_e) && kq != ou && KomaMoves::can_jump(dir, kq) && pin_ok(pin, q, o) {
                self.add_move(s_or_e, moves, q as USquare, to as ISquare - q, 0, 0);
            }
            assert(moves@ == mb + move_to_dir(self@, s_or_e, to as int, pin@, dir as int));
            assert(move_to_from(self@, s_or_e, to as int, pin@, dir as int)
                == move_to_dir(self@, s_or_e, to as int, pin@, dir as int) + move_to_from(self@, s_or_e, to as int, pin@, dir + 1));
            assert(mb + move_to_from(self@, s_or_e, to as int, pin@, dir as int)
                =~= moves@ + move_to_from(self@, s_or_e, to as int, pin@, dir + 1));
            dir += 1;
        }
        assert(moves@ =~= m0 + move_to_spec(self@, s_or_e, to as int, pin@));
    }
}

} // verus!
