//! The move generator: the moves of the pieces on the board, the drops,
//! and the answers to a check.

use vstd::prelude::*;
use crate::koma_inf::{KomaInf, lemma_bit4, lemma_bit5};
use crate::koma_moves::{KomaMoves, dir_offset, promotable};
use crate::kyokumen::{Kyokumen, KyokumenView, on_board};
use crate::gen_spec::{add_moves_spec, add_move_spec, slide_spec, add_straight_spec, king_step_spec, move_king_spec, first_step_bit, king_steps_from};
use crate::te::{Te, te_of};
use crate::{USquare, ISquare, Kiki};

verus! {

/// The low four bits are the rank, the next four the file.
pub proof fn lemma_rank_bits(x: usize)
    by (bit_vector)
    requires
        x < 256,
    ensures
        x & 0x0f == x % 16,
        x & 0xf0 == x - x % 16,
{
}

/// Whether `o` is the offset of one of the eight neighbour directions.
pub open spec fn is_line(o: int) -> bool {
    o == 1 || o == -1 || o == 15 || o == -15 || o == 16 || o == -16 || o == 17 || o == -17
}

/// A square of the board with a neighbour offset stays inside the
/// padded board.
pub proof fn lemma_line_step(sq: int, o: int)
    requires
        on_board(sq),
        is_line(o) || o == 14 || o == -14 || o == 18 || o == -18,
    ensures
        -1 <= sq + o < 176,
        is_line(o) ==> 0 <= sq + o < 176,
{
}

/// The step bit found lies among the eight neighbour directions.
pub proof fn lemma_first_step_bit(kiki: usize, i: int)
    ensures
        first_step_bit(kiki, i) matches Some(j) ==> i <= j < 8,
    decreases 8 - i,
{
    if i < 8 {
        lemma_first_step_bit(kiki, i + 1);
    }
}

impl Kyokumen {
    /// Adds the moves of the piece on `from` to `from + diff` (see
    /// `add_move_spec`).
    pub(crate) fn add_move(&self, s_or_e: KomaInf, moves: &mut Vec<Te>, from: USquare, diff: ISquare, pin: ISquare, r_pin: ISquare)
        requires
            s_or_e.is_side(),
            self@.walls_ok(),
            from < 176,
            -16 <= from + diff < 176,
        ensures
            final(moves)@ == old(moves)@ + add_move_spec(self@, s_or_e, from as int, diff as int, pin as int, r_pin as int),
    {
        reveal(add_move_spec);
        if r_pin == diff || r_pin == -diff {
            return;
        }
        let to_i: ISquare = from as ISquare + diff;
        let c = self.koma_at(to_i);
        proof {
            if to_i < 0 {
                assert(self@.banpadding[to_i + 16] == KomaInf::Wall);
                lemma_bit4(c.value());
                lemma_bit5(c.value());
            }
        }
        if to_i < 0 {
            return;
        }
        let to: USquare = to_i as USquare;
        proof {
            lemma_rank_bits(to);
            lemma_rank_bits(from);
        }
        let dan: USquare = to & 0x0f;
        let from_dan: USquare = from & 0x0f;
        let k = self.ban[from];
        if (pin == 0 || pin == diff || pin == -diff) && !c.meets(s_or_e) {
            if k == KomaInf::SKE && dan <= 2 {
                moves.push(Te::from_5(from, to, k, c, 1));
            } else if (k == KomaInf::SFU || k == KomaInf::SKY) && dan <= 1 {
                moves.push(Te::from_5(from, to, k, c, 1));
            } else if k == KomaInf::EKE && dan >= 8 {
                moves.push(Te::from_5(from, to, k, c, 1));
            } else if (k == KomaInf::EFU || k == KomaInf::EKY) && dan >= 9 {
                moves.push(Te::from_5(from, to, k, c, 1));
            } else {
                if s_or_e == KomaInf::Self_ && (from_dan <= 3 || dan <= 3) && self.can_promote(from) {
                    moves.push(Te::from_5(from, to, k, c, 1));
                } else if s_or_e == KomaInf::Enemy && (from_dan >= 7 || dan >= 7) && self.can_promote(from) {
                    moves.push(Te::from_5(from, to, k, c, 1));
                }
                moves.push(Te::from_5(from, to, k, c, 0));
            }
        }
    }

    /// Adds the moves of a sliding piece on `from` along `dir` (see
    /// `add_straight_spec`).
    pub(crate) fn add_straight(&self, s_or_e: KomaInf, moves: &mut Vec<Te>, from: USquare, dir: ISquare, pin: ISquare, r_pin: ISquare)
        requires
            s_or_e.is_side(),
            self@.walls_ok(),
            on_board(from as int),
            is_line(dir as int),
            r_pin > isize::MIN,
        ensures
            final(moves)@ == old(moves)@ + add_straight_spec(self@, s_or_e, from as int, dir as int, pin as int, r_pin as int),
    {
        reveal(add_straight_spec);
        if dir == r_pin || dir == -r_pin {
            return;
        }
        if pin == 0 || pin == dir || pin == -dir {
            let ghost target = old(moves)@ + slide_spec(self@, s_or_e, from as int, dir as int, dir as int);
            let mut i: ISquare = dir;
            proof {
                lemma_line_step(from as int, dir as int);
            }
            while self.ban[(from as ISquare + i) as USquare] == KomaInf::EMP
                invariant
                    s_or_e.is_side(),
                    self@.walls_ok(),
                    on_board(from as int),
                    is_line(dir as int),
                    0 <= from + i < 176,
                    -176 < i < 176,
                    moves@ + slide_spec(self@, s_or_e, from as int, dir as int, i as int) == target,
                decreases (if dir > 0 { 176 - (from + i) } else { from + i }),
            {
                let ghost t = from as int + i as int;
                assert(on_board(t));
                proof {
                    lemma_line_step(t, dir as int);
                }
                let ghost m0 = moves@;
                self.add_move(s_or_e, moves, from, i, 0, 0);
                assert(moves@ + slide_spec(self@, s_or_e, from as int, dir as int, (i + dir) as int)
                    == m0 + slide_spec(self@, s_or_e, from as int, dir as int, i as int));
                i += dir;
            }
            if !self.ban[(from as ISquare + i) as USquare].meets(s_or_e) {
                self.add_move(s_or_e, moves, from, i, 0, 0);
            }
            assert(moves@ == target);
        }
    }

    /// Adds the king's move to the neighbour against direction `i` (see
    /// `king_step_spec`).
    pub(crate) fn king_step(&self, s_or_e: KomaInf, moves: &mut Vec<Te>, kiki: Kiki, i: usize)
        requires
            s_or_e.is_side(),
            self@.walls_ok(),
            on_board(self@.king(s_or_e) as int),
            i < 8,
        ensures
            final(moves)@ == old(moves)@ + king_step_spec(self@, s_or_e, kiki, i as int),
    {
        let king = if s_or_e == KomaInf::Self_ { self.king_s } else { self.king_e };
        proof {
            lemma_line_step(king as int, -dir_offset(i as int));
        }
        let sq = Kyokumen::get_offset_sq(king, i as ISquare);
        let koma = self.ban[sq];
        if s_or_e == KomaInf::Self_ {
            if (koma == KomaInf::EMP || koma.meets(KomaInf::Enemy))
                && !self.is_control_e(sq)
                && kiki & (1usize << (23 - i)) == 0 {
                self.add_move(s_or_e, moves, king, -KomaMoves::direct(i), 0, 0);
            }
        } else {
            if (koma == KomaInf::EMP || koma.meets(KomaInf::Self_))
                && !self.is_control_s(sq)
                && kiki & (1usize << (23 - i)) == 0 {
                self.add_move(s_or_e, moves, king, -KomaMoves::direct(i), 0, 0);
            }
        }
    }

    /// Adds the king's moves (see `move_king_spec`).
    pub(crate) fn move_king(&self, s_or_e: KomaInf, moves: &mut Vec<Te>, kiki: Kiki)
        requires
            s_or_e.is_side(),
            self@.walls_ok(),
            on_board(self@.king(s_or_e) as int),
        ensures
            final(moves)@ == old(moves)@ + move_king_spec(self@, s_or_e, kiki),
    {
        reveal(move_king_spec);
        let mut id: Option<usize> = None;
        let mut i: usize = 0;
        while i < 8
            invariant_except_break
                id is None,
            invariant
                i <= 8,
                first_step_bit(kiki, 0) == first_step_bit(kiki, i as int),
            ensures
                id == (match first_step_bit(kiki, 0) { Some(j) => Some(j as usize), None => None::<usize> }),
                id matches Some(j) ==> j < 8,
            decreases 8 - i,
        {
            if kiki & (1usize << i) != 0 {
                id = Some(i);
                break;
            }
            i += 1;
        }
        let ghost m0 = moves@;
        let ghost skip = first_step_bit(kiki, 0);
        proof {
            lemma_first_step_bit(kiki, 0);
        }
        if let Some(id) = id {
            self.king_step(s_or_e, moves, kiki, id);
        }
        assert(moves@ == m0 + (match skip { Some(j) => king_step_spec(self@, s_or_e, kiki, j), None => seq![] }));
        let ghost m1 = moves@;
        let mut i: usize = 0;
        while i < 8
            invariant
                s_or_e.is_side(),
                self@.walls_ok(),
                on_board(self@.king(s_or_e) as int),
                i <= 8,
                id == (match skip { Some(j) => Some(j as usize), None => None::<usize> }),
                skip matches Some(j) ==> 0 <= j < 8,
                moves@ + king_steps_from(self@, s_or_e, kiki, skip, i as int)
                    == m1 + king_steps_from(self@, s_or_e, kiki, skip, 0),
            decreases 8 - i,
        {
            if id == Some(i) {
                assert(king_steps_from(self@, s_or_e, kiki, skip, i as int)
                    == king_steps_from(self@, s_or_e, kiki, skip, (i + 1) as int));
                i += 1;
                continue;
            }
            self.king_step(s_or_e, moves, kiki, i);
            i += 1;
        }
    }
}


impl Kyokumen {
    /// Adds the moves of the piece of `s_or_e` on `from` (see
    /// `add_moves_spec`); a king moves from the recorded king square.
    pub(crate) fn add_moves(&self, s_or_e: KomaInf, moves: &mut Vec<Te>, from: USquare, pin: ISquare, r_pin: ISquare)
        requires
            s_or_e.is_side(),
            self@.walls_ok(),
            self@.kings_ok(),
            on_board(from as int),
            self@.ban[from as int].value() & s_or_e.value() != 0,
            r_pin > isize::MIN,
        ensures
            final(moves)@ == old(moves)@ + add_moves_spec(self@, s_or_e, from as int, pin as int, r_pin as int),
    {
        let ghost m0 = moves@;
        proof {
            lemma_bit4(self@.ban[from as int].value());
            lemma_bit5(self@.ban[from as int].value());
        }
        match self.ban[from] {
            KomaInf::SFU => {
                self.add_move(s_or_e, moves, from, -1, pin, r_pin);
                assert(moves@ =~= m0 + (add_move_spec(self@, s_or_e, from as int, -1, pin as int, r_pin as int)));
            }
            KomaInf::EFU => {
                self.add_move(s_or_e, moves, from, 1, pin, r_pin);
                assert(moves@ =~= m0 + (add_move_spec(self@, s_or_e, from as int, 1, pin as int, r_pin as int)));
            }
            KomaInf::SKY => {
                self.add_straight(s_or_e, moves, from, -1, pin, r_pin);
                assert(moves@ =~= m0 + (add_straight_spec(self@, s_or_e, from as int, -1, pin as int, r_pin as int)));
            }
            KomaInf::EKY => {
                self.add_straight(s_or_e, moves, from, 1, pin, r_pin);
                assert(moves@ =~= m0 + (add_straight_spec(self@, s_or_e, from as int, 1, pin as int, r_pin as int)));
            }
            KomaInf::SKE => {
                self.add_move(s_or_e, moves, from, 14, pin, r_pin);
                self.add_move(s_or_e, moves, from, -18, pin, r_pin);
                assert(moves@ =~= m0 + (add_move_spec(self@, s_or_e, from as int, 14, pin as int, r_pin as int)
                    + add_move_spec(self@, s_or_e, from as int, -18, pin as int, r_pin as int)));
            }
            KomaInf::EKE => {
                self.add_move(s_or_e, moves, from, -14, pin, r_pin);
                self.add_move(s_or_e, moves, from, 18, pin, r_pin);
                assert(moves@ =~= m0 + (add_move_spec(self@, s_or_e, from as int, -14, pin as int, r_pin as int)
                    + add_move_spec(self@, s_or_e, from as int, 18, pin as int, r_pin as int)));
            }
            KomaInf::SGI => {
                self.add_move(s_or_e, moves, from, -1, pin, r_pin);
                self.add_move(s_or_e, moves, from, -17, pin, r_pin);
                self.add_move(s_or_e, moves, from, 15, pin, r_pin);
                self.add_move(s_or_e, moves, from, 17, pin, r_pin);
                self.add_move(s_or_e, moves, from, -15, pin, r_pin);
                assert(moves@ =~= m0 + (add_move_spec(self@, s_or_e, from as int, -1, pin as int, r_pin as int)
                    + add_move_spec(self@, s_or_e, from as int, -17, pin as int, r_pin as int)
                    + add_move_spec(self@, s_or_e, from as int, 15, pin as int, r_pin as int)
                    + add_move_spec(self@, s_or_e, from as int, 17, pin as int, r_pin as int)
                    + add_move_spec(self@, s_or_e, from as int, -15, pin as int, r_pin as int)));
            }
            KomaInf::EGI => {
                self.add_move(s_or_e, moves, from, 1, pin, r_pin);
                self.add_move(s_or_e, moves, from, 17, pin, r_pin);
                self.add_move(s_or_e, moves, from, -15, pin, r_pin);
                self.add_move(s_or_e, moves, from, -17, pin, r_pin);
                self.add_move(s_or_e, moves, from, 15, pin, r_pin);
                assert(moves@ =~= m0 + (add_move_spec(self@, s_or_e, from as int, 1, pin as int, r_pin as int)
                    + add_move_spec(self@, s_or_e, from as int, 17, pin as int, r_pin as int)
                    + add_move_spec(self@, s_or_e, from as int, -15, pin as int, r_pin as int)
                    + add_move_spec(self@, s_or_e, from as int, -17, pin as int, r_pin as int)
                    + add_move_spec(self@, s_or_e, from as int, 15, pin as int, r_pin as int)));
            }
            KomaInf::SKI | KomaInf::STO | KomaInf::SNY | KomaInf::SNK | KomaInf::SNG => {
                self.add_move(s_or_e, moves, from, -1, pin, r_pin);
                self.add_move(s_or_e, moves, from, -17, pin, r_pin);
                self.add_move(s_or_e, moves, from, 15, pin, r_pin);
                self.add_move(s_or_e, moves, from, 1, pin, r_pin);
                self.add_move(s_or_e, moves, from, -16, pin, r_pin);
                self.add_move(s_or_e, moves, from, 16, pin, r_pin);
                assert(moves@ =~= m0 + (add_move_spec(self@, s_or_e, from as int, -1, pin as int, r_pin as int)
                    + add_move_spec(self@, s_or_e, from as int, -17, pin as int, r_pin as int)
                    + add_move_spec(self@, s_or_e, from as int, 15, pin as int, r_pin as int)
                    + add_move_spec(self@, s_or_e, from as int, 1, pin as int, r_pin as int)
                    + add_move_spec(self@, s_or_e, from as int, -16, pin as int, r_pin as int)
                    + add_move_spec(self@, s_or_e, from as int, 16, pin as int, r_pin as int)));
            }
            KomaInf::EKI | KomaInf::ETO | KomaInf::ENY | KomaInf::ENK | KomaInf::ENG => {
                self.add_move(s_or_e, moves, from, 1, pin, r_pin);
                self.add_move(s_or_e, moves, from, 17, pin, r_pin);
                self.add_move(s_or_e, moves, from, -15, pin, r_pin);
                self.add_move(s_or_e, moves, from, -1, pin, r_pin);
                self.add_move(s_or_e, moves, from, -16, pin, r_pin);
                self.add_move(s_or_e, moves, from, 16, pin, r_pin);
                assert(moves@ =~= m0 + (add_move_spec(self@, s_or_e, from as int, 1, pin as int, r_pin as int)
                    + add_move_spec(self@, s_or_e, from as int, 17, pin as int, r_pin as int)
                    + add_move_spec(self@, s_or_e, from as int, -15, pin as int, r_pin as int)
                    + add_move_spec(self@, s_or_e, from as int, -1, pin as int, r_pin as int)
                    + add_move_spec(self@, s_or_e, from as int, -16, pin as int, r_pin as int)
                    + add_move_spec(self@, s_or_e, from as int, 16, pin as int, r_pin as int)));
            }
            _ => {
                self.add_moves_major(s_or_e, moves, from, pin, r_pin);
            }
        }
    }

    /// Adds the moves of a dragon, rook, horse, bishop or king of
    /// `s_or_e` on `from` (see `add_moves_spec`).
    pub(crate) fn add_moves_major(&self, s_or_e: KomaInf, moves: &mut Vec<Te>, from: USquare, pin: ISquare, r_pin: ISquare)
        requires
            s_or_e.is_side(),
            self@.walls_ok(),
            self@.kings_ok(),
            on_board(from as int),
            self@.ban[from as int].value() & s_or_e.value() != 0,
            r_pin > isize::MIN,
            self@.ban[from as int] is SRY || self@.ban[from as int] is ERY || self@.ban[from as int] is SHI
                || self@.ban[from as int] is EHI || self@.ban[from as int] is SUM || self@.ban[from as int] is EUM
                || self@.ban[from as int] is SKA || self@.ban[from as int] is EKA || self@.ban[from as int] is SOU
                || self@.ban[from as int] is EOU,
        ensures
            final(moves)@ == old(moves)@ + add_moves_spec(self@, s_or_e, from as int, pin as int, r_pin as int),
    {
        let ghost m0 = moves@;
        proof {
            lemma_bit4(self@.ban[from as int].value());
            lemma_bit5(self@.ban[from as int].value());
        }
        match self.ban[from] {
            KomaInf::SRY | KomaInf::ERY => {
                self.add_straight(s_or_e, moves, from, 1, pin, r_pin);
                self.add_straight(s_or_e, moves, from, -1, pin, r_pin);
                self.add_straight(s_or_e, moves, from, -16, pin, r_pin);
                self.add_straight(s_or_e, moves, from, 16, pin, r_pin);
                self.add_move(s_or_e, moves, from, 17, pin, r_pin);
                self.add_move(s_or_e, moves, from, -15, pin, r_pin);
                self.add_move(s_or_e, moves, from, -17, pin, r_pin);
                self.add_move(s_or_e, moves, from, 15, pin, r_pin);
                assert(moves@ =~= m0 + (add_straight_spec(self@, s_or_e, from as int, 1, pin as int, r_pin as int)
                    + add_straight_spec(self@, s_or_e, from as int, -1, pin as int, r_pin as int)
                    + add_straight_spec(self@, s_or_e, from as int, -16, pin as int, r_pin as int)
                    + add_straight_spec(self@, s_or_e, from as int, 16, pin as int, r_pin as int)
                    + add_move_spec(self@, s_or_e, from as int, 17, pin as int, r_pin as int)
                    + add_move_spec(self@, s_or_e, from as int, -15, pin as int, r_pin as int)
                    + add_move_spec(self@, s_or_e, from as int, -17, pin as int, r_pin as int)
                    + add_move_spec(self@, s_or_e, from as int, 15, pin as int, r_pin as int)));
            }
            KomaInf::SHI | KomaInf::EHI => {
                self.add_straight(s_or_e, moves, from, 1, pin, r_pin);
                self.add_straight(s_or_e, moves, from, -1, pin, r_pin);
                self.add_straight(s_or_e, moves, from, -16, pin, r_pin);
                self.add_straight(s_or_e, moves, from, 16, pin, r_pin);
                assert(moves@ =~= m0 + (add_straight_spec(self@, s_or_e, from as int, 1, pin as int, r_pin as int)
                    + add_straight_spec(self@, s_or_e, from as int, -1, pin as int, r_pin as int)
                    + add_straight_spec(self@, s_or_e, from as int, -16, pin as int, r_pin as int)
                    + add_straight_spec(self@, s_or_e, from as int, 16, pin as int, r_pin as int)));
            }
            KomaInf::SUM | KomaInf::EUM => {
                self.add_straight(s_or_e, moves, from, 17, pin, r_pin);
                self.add_straight(s_or_e, moves, from, -17, pin, r_pin);
                self.add_straight(s_or_e, moves, from, 15, pin, r_pin);
                self.add_straight(s_or_e, moves, from, -15, pin, r_pin);
                self.add_move(s_or_e, moves, from, 1, pin, r_pin);
                self.add_move(s_or_e, moves, from, 16, pin, r_pin);
                self.add_move(s_or_e, moves, from, -16, pin, r_pin);
                self.add_move(s_or_e, moves, from, -1, pin, r_pin);
                assert(moves@ =~= m0 + (add_straight_spec(self@, s_or_e, from as int, 17, pin as int, r_pin as int)
                    + add_straight_spec(self@, s_or_e, from as int, -17, pin as int, r_pin as int)
                    + add_straight_spec(self@, s_or_e, from as int, 15, pin as int, r_pin as int)
                    + add_straight_spec(self@, s_or_e, from as int, -15, pin as int, r_pin as int)
                    + add_move_spec(self@, s_or_e, from as int, 1, pin as int, r_pin as int)
                    + add_move_spec(self@, s_or_e, from as int, 16, pin as int, r_pin as int)
                    + add_move_spec(self@, s_or_e, from as int, -16, pin as int, r_pin as int)
                    + add_move_spec(self@, s_or_e, from as int, -1, pin as int, r_pin as int)));
            }
            KomaInf::SKA | KomaInf::EKA => {
                self.add_straight(s_or_e, moves, from, 17, pin, r_pin);
                self.add_straight(s_or_e, moves, from, -17, pin, r_pin);
                self.add_straight(s_or_e, moves, from, 15, pin, r_pin);
                self.add_straight(s_or_e, moves, from, -15, pin, r_pin);
                assert(moves@ =~= m0 + (add_straight_spec(self@, s_or_e, from as int, 17, pin as int, r_pin as int)
                    + add_straight_spec(self@, s_or_e, from as int, -17, pin as int, r_pin as int)
                    + add_straight_spec(self@, s_or_e, from as int, 15, pin as int, r_pin as int)
                    + add_straight_spec(self@, s_or_e, from as int, -15, pin as int, r_pin as int)));
            }
            KomaInf::SOU | KomaInf::EOU => {
                self.move_king(s_or_e, moves, 0);
            }
            _ => {}
        }
    }
}

} // verus!
