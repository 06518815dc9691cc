//! Tests, at run time, of what the move generator asks of a position.

use vstd::prelude::*;
use crate::koma_inf::KomaInf;
use crate::koma_moves::{KomaMoves, dir_offset};
use crate::kyokumen::{Kyokumen, on_board};
use crate::gen_spec::single_bit_index;
use crate::legal::generation_ready;
use crate::USquare;

verus! {

/// Whether `sq` is one of the 81 squares of the board.
pub fn is_on_board(sq: isize) -> (r: bool)
    ensures
        r == on_board(sq as int),
{
    16 <= sq && sq < 160 && 1 <= sq % 16 && sq % 16 <= 9
}

impl Kyokumen {
    /// Whether the padding and everything around the 81 squares is wall,
    /// and no square of the board holds a mark (see `walls_ok`).
    pub fn walls_intact(&self) -> (r: bool)
        ensures
            r == self@.walls_ok(),
    {
        let mut i: usize = 0;
        while i < 16
            invariant
                i <= 16,
                forall|j: int| 0 <= j < i ==> #[trigger] self.banpadding@[j] == KomaInf::Wall,
            decreases 16 - i,
        {
            if self.banpadding[i] != KomaInf::Wall {
                return false;
            }
            i += 1;
        }
        let mut sq: usize = 0;
        while sq < 176
            invariant
                sq <= 176,
                forall|j: int| 0 <= j < 16 ==> #[trigger] self.banpadding@[j] == KomaInf::Wall,
                forall|x: int| 0 <= x < sq && !on_board(x) ==> #[trigger] self.ban@[x] == KomaInf::Wall,
                forall|x: int| 0 <= x < sq && on_board(x) ==> !(#[trigger] self.ban@[x]).is_mark(),
            decreases 176 - sq,
        {
            let k = self.ban[sq];
            if is_on_board(sq as isize) {
                if k == KomaInf::Self_ || k == KomaInf::Enemy || k == KomaInf::Wall {
                    return false;
                }
            } else if k != KomaInf::Wall {
                return false;
            }
            sq += 1;
        }
        true
    }

    /// Whether each king square is 0 or a square of the board, and is not
    /// 0 while that player's king stands on the board (see `kings_ok`).
    pub fn kings_placed(&self) -> (r: bool)
        ensures
            r == self@.kings_ok(),
    {
        if !(self.king_s == 0 || (self.king_s < 160 && is_on_board(self.king_s as isize))) {
            return false;
        }
        if !(self.king_e == 0 || (self.king_e < 160 && is_on_board(self.king_e as isize))) {
            return false;
        }
        let mut sq: usize = 0;
        while sq < 176
            invariant
                sq <= 176,
                forall|x: int| 0 <= x < sq && on_board(x) && #[trigger] self.ban@[x] == KomaInf::SOU ==> self.king_s != 0,
                forall|x: int| 0 <= x < sq && on_board(x) && #[trigger] self.ban@[x] == KomaInf::EOU ==> self.king_e != 0,
            decreases 176 - sq,
        {
            if is_on_board(sq as isize) {
                if self.ban[sq] == KomaInf::SOU && self.king_s == 0 {
                    return false;
                }
                if self.ban[sq] == KomaInf::EOU && self.king_e == 0 {
                    return false;
                }
            }
            sq += 1;
        }
        true
    }

    /// Whether the move generator can run for `s_or_e` on this position
    /// (see `generation_ready`): walls where they belong, king squares that
    /// fit the board, and, when the king of `s_or_e` is reached by the other
    /// player, a king on the board and a check the generator can answer.
    pub fn ready(&self, s_or_e: KomaInf) -> (r: bool)
        requires
            s_or_e.is_side(),
        ensures
            r == generation_ready(self@, s_or_e),
    {
        if !self.walls_intact() || !self.kings_placed() {
            return false;
        }
        let king: USquare = if s_or_e == KomaInf::Self_ { self.king_s } else { self.king_e };
        let kiki = if s_or_e == KomaInf::Self_ { self.control_e[king] } else { self.control_s[king] };
        if kiki == 0 {
            return true;
        }
        if !is_on_board(king as isize) {
            return false;
        }
        if kiki & (kiki - 1) != 0 {
            return true;
        }
        let mut id: usize = 0;
        while id <= 31
            invariant
                id <= 32,
                single_bit_index(kiki, 0) == single_bit_index(kiki, id as int),
            ensures
                id == single_bit_index(kiki, 0),
            decreases 32 - id,
        {
            if kiki == (1usize << id) {
                break;
            }
            id += 1;
        }
        if id < 12 {
            is_on_board(king as isize - KomaMoves::direct(id))
        } else if 16 <= id && id < 24 {
            proof {
                crate::drops::lemma_opp_dir((id - 16) as int);
                self@.lemma_walk(king as int, crate::drops::opp_dir((id - 16) as int));
            }
            let check = self.search_i(king as isize, -KomaMoves::direct(id - 16));
            is_on_board(check)
        } else {
            false
        }
    }
}

} // verus!
