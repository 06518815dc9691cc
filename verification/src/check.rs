//! Pins, and the answers to a check.

use vstd::prelude::*;
use crate::koma_inf::KomaInf;
use crate::koma_moves::{KomaMoves, dir_offset};
use crate::kyokumen::{Kyokumen, KyokumenView, on_board};
use crate::gen_spec::{pin_cleared, pins_s_upto, pins_e_upto, pin_spec, interpose_moves,
    interpose_spec, anti_check_spec, single_bit_index, check_answerable, checking_square};
use crate::te::Te;
use crate::{USquare, ISquare, Kiki};

verus! {

impl Kyokumen {
    /// Fills `pin` with the pins against both kings (see `pin_spec`): the
    /// squares `0x11..=0x99` are cleared, then each piece that stands
    /// between its own king and a slide of the other player along that line
    /// gets the line's offset.
    pub fn make_pin_inf(&self, pin: &mut [ISquare; 176])
        requires
            self@.walls_ok(),
            self@.kings_ok(),
        ensures
            final(pin)@ == pin_spec(self@, old(pin)@),
    {
        let mut sq: usize = 0x11;
        while sq <= 0x99
            invariant
                0x11 <= sq <= 0x9a,
                forall|j: int| 0 <= j < 176 ==> #[trigger] pin@[j] == (if 0x11 <= j < sq { 0isize } else { old(pin)@[j] }),
            decreases 0x9a - sq,
        {
            pin[sq] = 0;
            sq += 1;
        }
        assert(pin@ =~= pin_cleared(old(pin)@));
        let ghost p1 = pin@;
        if self.king_s != 0 {
            let mut i: usize = 0;
            while i < 8
                invariant
                    self@.walls_ok(),
                    on_board(self.king_s as int),
                    i <= 8,
                    pin@ == pins_s_upto(self@, p1, i as int),
                decreases 8 - i,
            {
                proof {
                    self@.lemma_walk(self.king_s as int, i as int);
                }
                let p = self.search(self.king_s, KomaMoves::direct(i));
                if self.ban[p] != KomaInf::Wall && !self.is_e(p) {
                    if (self.control_e[p] & (1usize << (23 - i))) != 0 {
                        pin[p] = KomaMoves::direct(i);
                    }
                }
                i += 1;
            }
        }
        let ghost p2 = pin@;
        if self.king_e != 0 {
            let mut i: usize = 0;
            while i < 8
                invariant
                    self@.walls_ok(),
                    on_board(self.king_e as int),
                    i <= 8,
                    pin@ == pins_e_upto(self@, p2, i as int),
                decreases 8 - i,
            {
                proof {
                    crate::drops::lemma_opp_dir(i as int);
                    self@.lemma_walk(self.king_e as int, crate::drops::opp_dir(i as int));
                }
                let p = self.search(self.king_e, -KomaMoves::direct(i));
                if self.ban[p] != KomaInf::Wall && self.is_e(p) {
                    if (self.control_s[p] & (1usize << (16 + i))) != 0 {
                        pin[p] = KomaMoves::direct(i);
                    }
                }
                i += 1;
            }
        }
    }

    /// Adds the answers of `s_or_e` to the check given by `kiki` (see
    /// `anti_check_spec`).
    pub(crate) fn answer_check(&mut self, s_or_e: KomaInf, moves: &mut Vec<Te>, pin: &[ISquare; 176], kiki: Kiki)
        requires
            old(self)@.walls_ok(),
            old(self)@.kings_ok(),
            s_or_e.is_side(),
            on_board(old(self)@.king(s_or_e) as int),
            check_answerable(old(self)@, s_or_e, kiki),
        ensures
            final(moves)@ == old(moves)@ + anti_check_spec(old(self)@, s_or_e, pin@, kiki),
            final(self)@ == old(self)@,
    {
        reveal(anti_check_spec);
        let ghost v0 = self@;
        let ghost m0 = moves@;
        if (kiki & (kiki - 1)) != 0 {
            self.move_king(s_or_e, moves, kiki);
            return;
        }
        let king: USquare = if s_or_e == KomaInf::Self_ { self.king_s } else { self.king_e };
        let mut id: usize = 0;
        while id <= 31
            invariant
                id <= 32,
                single_bit_index(kiki, 0) == single_bit_index(kiki, id as int),
            ensures
                id == single_bit_index(kiki, 0),
            decreases 32 - id,
        {
            if kiki == (1usize << id) {
                break;
            }
            id += 1;
        }
        let check: USquare = if id < 16 {
            Kyokumen::get_offset_sq(king, id as ISquare)
        } else {
            proof {
                crate::drops::lemma_opp_dir((id - 16) as int);
                self@.lemma_walk(king as int, crate::drops::opp_dir((id - 16) as int));
            }
            self.search(king, -KomaMoves::direct(id - 16))
        };
        assert(check as int == checking_square(v0, king as int, id as int));
        assert(on_board(check as int));
        self.move_to(s_or_e, moves, check, pin);
        self.move_king(s_or_e, moves, kiki);
        if id >= 16 {
            let off = KomaMoves::direct(id - 16);
            let ghost m2 = moves@;
            let ghost t1 = interpose_moves(v0, s_or_e, king - off, off as int, pin@);
            let ghost t2 = interpose_spec(v0, s_or_e, king - off, off as int, pin@);
            proof {
                crate::drops::lemma_opp_dir((id - 16) as int);
                crate::movegen::lemma_line_step(king as int, -off);
            }
            let mut i: USquare = Kyokumen::get_offset_sq(king, (id - 16) as ISquare);
            while !self.is_exists(i)
                invariant
                    self@ == v0,
                    v0.walls_ok(),
                    v0.kings_ok(),
                    s_or_e.is_side(),
                    crate::movegen::is_line(off as int),
                    16 <= id < 24,
                    off == dir_offset((id - 16) as int),
                    0 <= i < 176,
                    moves@ + interpose_moves(v0, s_or_e, i as int, off as int, pin@) == m2 + t1,
                decreases (if off < 0 { 176 - i } else { i as int }),
            {
                assert(on_board(i as int));
                proof {
                    crate::movegen::lemma_line_step(i as int, -off);
                }
                self.move_to(s_or_e, moves, i, pin);
                i = Kyokumen::get_offset_sq(i, (id - 16) as ISquare);
            }
            let ghost m3 = moves@;
            let mut i: USquare = Kyokumen::get_offset_sq(king, (id - 16) as ISquare);
            while !self.is_exists(i)
                invariant
                    self@ == v0,
                    v0.walls_ok(),
                    v0.kings_ok(),
                    s_or_e.is_side(),
                    crate::movegen::is_line(off as int),
                    16 <= id < 24,
                    off == dir_offset((id - 16) as int),
                    0 <= i < 176,
                    moves@ + interpose_spec(v0, s_or_e, i as int, off as int, pin@) == m3 + t2,
                decreases (if off < 0 { 176 - i } else { i as int }),
            {
                assert(on_board(i as int));
                proof {
                    crate::movegen::lemma_line_step(i as int, -off);
                }
                self.put_to(s_or_e, moves, i, pin);
                i = Kyokumen::get_offset_sq(i, (id - 16) as ISquare);
            }
        }
        assert(moves@ =~= m0 + anti_check_spec(v0, s_or_e, pin@, kiki));
    }
}

} // verus!
