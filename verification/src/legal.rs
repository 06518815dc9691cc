//! The whole move generator: the pieces on the board and the drops, or
//! the answers to a check; with the pin table worked out when none is
//! given.

use vstd::prelude::*;
use crate::koma_inf::{KomaInf, lemma_mark_kind};
use crate::kyokumen::{Kyokumen, KyokumenView, on_board};
use crate::gen_spec::{board_moves_spec, column_drops, file_drops, hand_drops, quiet_moves_spec,
    legal_moves_spec, anti_check_spec, check_answerable, pin_spec, piece, nifu, utifudume_spec};
use crate::drops::lemma_piece;
use crate::te::Te;
use crate::generated::{all_sound, king_in_place, lemma_generated_moves_sound};
use crate::answers::all_answer;
use crate::distinct::{no_repeats, one_king};
use crate::legality::{all_safe, king_safe_after};
use crate::generated::king_stands;
use crate::control::control_matches;
use crate::{USquare, ISquare, Kiki};

verus! {

/// What the move generator needs of a position to run without fault for
/// `side`: walls around the board, valid king squares, and when the king
/// of `side` is reached by the other player, a king on the board and a
/// check that can be answered (see `check_answerable`).
pub open spec fn generation_ready(v: KyokumenView, side: KomaInf) -> bool {
    let king = v.king(side) as int;
    let kiki = v.control(side.opponent())[king];
    &&& side.is_side()
    &&& v.walls_ok()
    &&& v.kings_ok()
    &&& v.control_s.len() == 176
    &&& v.control_e.len() == 176
    &&& kiki != 0 ==> on_board(king) && check_answerable(v, side, kiki)
}

/// The pin table the generator uses: the one given, or the one
/// `make_pin_inf` writes over an all-zero table.
pub open spec fn pins_used(v: KyokumenView, pin: Option<[ISquare; 176]>) -> Seq<isize> {
    match pin {
        Some(p) => p@,
        None => pin_spec(v, Seq::new(176, |i: int| 0isize)),
    }
}

/// Handing the generator the pin table that `make_pin_inf` writes over an
/// all-zero table gives the same moves as letting it work the pins out.
pub proof fn lemma_computed_pins_same(v: KyokumenView, side: KomaInf, p: [ISquare; 176])
    requires
        p@ == pin_spec(v, Seq::new(176, |i: int| 0isize)),
    ensures
        legal_moves_spec(v, side, pins_used(v, Some(p))) == legal_moves_spec(v, side, pins_used(v, None)),
{
}

/// Copies `moves` to the front of `te_buf`.
fn fill_buffer(te_buf: &mut [Te; 600], moves: &Vec<Te>) -> (n: usize)
    requires
        moves.len() <= 600,
    ensures
        n == moves.len(),
        forall|i: int| 0 <= i < n ==> final(te_buf)@[i] == moves@[i],
        forall|i: int| n <= i < 600 ==> final(te_buf)@[i] == old(te_buf)@[i],
{
    let mut i: usize = 0;
    while i < moves.len()
        invariant
            i <= moves.len() <= 600,
            forall|j: int| 0 <= j < i ==> te_buf@[j] == moves@[j],
            forall|j: int| i <= j < 600 ==> te_buf@[j] == old(te_buf)@[j],
        decreases moves.len() - i,
    {
        te_buf[i] = moves[i];
        i += 1;
    }
    i
}

impl Kyokumen {
    /// Adds the moves of the pieces of `s_or_e` on the board, file by file
    /// (see `board_moves_spec`).
    pub(crate) fn board_moves(&self, s_or_e: KomaInf, moves: &mut Vec<Te>, pin: &[ISquare; 176])
        requires
            s_or_e.is_side(),
            self@.walls_ok(),
            self@.kings_ok(),
        ensures
            final(moves)@ == old(moves)@ + board_moves_spec(self@, s_or_e, pin@, 1, 1),
    {
        let ghost target = old(moves)@ + board_moves_spec(self@, s_or_e, pin@, 1, 1);
        let mut suji: usize = 0x10;
        while suji <= 0x90
            invariant
                s_or_e.is_side(),
                self@.walls_ok(),
                self@.kings_ok(),
                0x10 <= suji <= 0xa0,
                suji % 16 == 0,
                moves@ + board_moves_spec(self@, s_or_e, pin@, (suji / 16) as int, 1) == target,
            decreases 0xa0 - suji,
        {
            let mut dan: usize = 1;
            while dan <= 9
                invariant
                    s_or_e.is_side(),
                    self@.walls_ok(),
                    self@.kings_ok(),
                    0x10 <= suji <= 0x90,
                    suji % 16 == 0,
                    1 <= dan <= 10,
                    moves@ + board_moves_spec(self@, s_or_e, pin@, (suji / 16) as int, dan as int) == target,
                decreases 10 - dan,
            {
                let sq = suji + dan;
                assert(on_board(sq as int));
                let ghost m0 = moves@;
                if self.is_exists_s_or_e(sq, s_or_e) {
                    self.add_moves(s_or_e, moves, sq, pin[sq], 0);
                }
                assert(sq == 16 * (suji / 16) + dan);
                dan += 1;
            }
            suji += 0x10;
        }
    }

    /// Adds the drops of `k` on the empty squares of ranks `lo..=hi` of
    /// every file; with `fu`, files holding a pawn of `s_or_e` are skipped
    /// and squares where the pawn-drop test says yes are left out (see
    /// `file_drops`).
    pub(crate) fn drops_on_files(&mut self, s_or_e: KomaInf, moves: &mut Vec<Te>, pin: &[ISquare; 176], k: KomaInf, fu: bool, lo: usize, hi: usize)
        requires
            s_or_e.is_side(),
            old(self)@.walls_ok(),
            old(self)@.kings_ok(),
            fu ==> k == piece(s_or_e, KomaInf::FU),
            1 <= lo <= hi + 1,
            hi <= 9,
        ensures
            final(moves)@ == old(moves)@ + file_drops(old(self)@, s_or_e, pin@, k, fu, 1, lo as int, hi as int),
            final(self)@ == old(self)@,
    {
        let ghost v0 = self@;
        let ghost target = old(moves)@ + file_drops(v0, s_or_e, pin@, k, fu, 1, lo as int, hi as int);
        let mut suji: usize = 0x10;
        while suji <= 0x90
            invariant
                s_or_e.is_side(),
                self@ == v0,
                v0.walls_ok(),
                v0.kings_ok(),
                fu ==> k == piece(s_or_e, KomaInf::FU),
                1 <= lo <= hi + 1,
                hi <= 9,
                0x10 <= suji <= 0xa0,
                suji % 16 == 0,
                moves@ + file_drops(v0, s_or_e, pin@, k, fu, (suji / 16) as int, lo as int, hi as int) == target,
            decreases 0xa0 - suji,
        {
            let ghost s = (suji / 16) as int;
            let mut skip = false;
            if fu {
                let mut d: usize = 1;
                while d <= 9
                    invariant_except_break
                        !skip,
                    invariant
                        self@ == v0,
                        k == piece(s_or_e, KomaInf::FU),
                        0x10 <= suji <= 0x90,
                        suji % 16 == 0,
                        1 <= d <= 10,
                        forall|e: int| 1 <= e < d ==> #[trigger] v0.ban[suji + e] != k,
                    ensures
                        skip == nifu(v0, s_or_e, suji as int),
                    decreases 10 - d,
                {
                    if self.ban[suji + d] == k {
                        skip = true;
                        assert(v0.ban[suji + d] == piece(s_or_e, KomaInf::FU));
                        break;
                    }
                    d += 1;
                }
            }
            assert(16 * s == suji);
            if !skip {
                let ghost col_target = moves@ + crate::gen_spec::column_drops(v0, s_or_e, pin@, k, fu, s, lo as int, hi as int);
                let mut dan: usize = lo;
                while dan <= hi
                    invariant
                        s_or_e.is_side(),
                        self@ == v0,
                        v0.walls_ok(),
                        v0.kings_ok(),
                        0x10 <= suji <= 0x90,
                        suji % 16 == 0,
                        16 * s == suji,
                        1 <= lo <= dan,
                        hi <= 9,
                        dan <= hi + 1,
                        moves@ + column_drops(v0, s_or_e, pin@, k, fu, s, dan as int, hi as int) == col_target,
                    decreases hi + 1 - dan,
                {
                    let sq = suji + dan;
                    assert(on_board(sq as int));
                    if !self.is_exists(sq) && !(fu && self.utifudume(s_or_e, sq, pin)) {
                        moves.push(Te::from_4(0, sq, k, KomaInf::EMP));
                    }
                    assert(self@ == v0);
                    dan += 1;
                }
            }
            suji += 0x10;
        }
    }

    /// Adds the drops of silver to rook of `s_or_e` on every empty square
    /// (see `hand_drops`).
    pub(crate) fn drops_of_hand(&mut self, s_or_e: KomaInf, moves: &mut Vec<Te>, pin: &[ISquare; 176])
        requires
            s_or_e.is_side(),
            old(self)@.walls_ok(),
            old(self)@.kings_ok(),
        ensures
            final(moves)@ == old(moves)@ + hand_drops(old(self)@, s_or_e, pin@, 4),
            final(self)@ == old(self)@,
    {
        let ghost v0 = self@;
        let ghost target = old(moves)@ + hand_drops(v0, s_or_e, pin@, 4);
        let mut koma: u8 = 4;
        while koma <= 7
            invariant
                s_or_e.is_side(),
                self@ == v0,
                v0.walls_ok(),
                v0.kings_ok(),
                4 <= koma <= 8,
                moves@ + hand_drops(v0, s_or_e, pin@, koma as int) == target,
            decreases 8 - koma,
        {
            proof {
                lemma_mark_kind(koma);
                KomaInf::lemma_from_value((s_or_e.value() | koma) as u8);
            }
            let code = s_or_e.as_u8() | koma;
            if self.hand[code as usize] > 0 {
                let k = match KomaInf::from_u8(code) {
                    Some(k) => k,
                    None => KomaInf::EMP,
                };
                self.drops_on_files(s_or_e, moves, pin, k, false, 1, 9);
            }
            koma += 1;
        }
    }

    /// Adds the moves of `s_or_e` when not in check (see
    /// `quiet_moves_spec`).
    #[verifier::rlimit(60)]
    pub(crate) fn quiet_moves(&mut self, s_or_e: KomaInf, moves: &mut Vec<Te>, pin: &[ISquare; 176])
        requires
            s_or_e.is_side(),
            old(self)@.walls_ok(),
            old(self)@.kings_ok(),
        ensures
            final(moves)@ == old(moves)@ + quiet_moves_spec(old(self)@, s_or_e, pin@),
            final(self)@ == old(self)@,
    {
        let ghost v0 = self@;
        let ghost m0 = moves@;
        proof {
            lemma_piece(s_or_e, KomaInf::FU);
            lemma_piece(s_or_e, KomaInf::KY);
            lemma_piece(s_or_e, KomaInf::KE);
        }
        self.board_moves(s_or_e, moves, pin);
        let ghost m1 = moves@;
        let own = s_or_e == KomaInf::Self_;
        let fu = s_or_e.bitor(KomaInf::FU);
        assert(fu == piece(s_or_e, KomaInf::FU)) by {
            KomaInf::lemma_value_from(fu);
        }
        if self.hand[fu.as_usize()] > 0 {
            self.drops_on_files(s_or_e, moves, pin, fu, true, if own { 2 } else { 1 }, if own { 9 } else { 8 });
        }
        let ghost m2 = moves@;
        let ky = s_or_e.bitor(KomaInf::KY);
        assert(ky == piece(s_or_e, KomaInf::KY)) by {
            KomaInf::lemma_value_from(ky);
        }
        if self.hand[ky.as_usize()] > 0 {
            self.drops_on_files(s_or_e, moves, pin, ky, false, if own { 2 } else { 1 }, if own { 9 } else { 8 });
        }
        let ghost m3 = moves@;
        let ke = s_or_e.bitor(KomaInf::KE);
        assert(ke == piece(s_or_e, KomaInf::KE)) by {
            KomaInf::lemma_value_from(ke);
        }
        if self.hand[ke.as_usize()] > 0 {
            self.drops_on_files(s_or_e, moves, pin, ke, false, if own { 3 } else { 1 }, if own { 9 } else { 7 });
        }
        let ghost m4 = moves@;
        self.drops_of_hand(s_or_e, moves, pin);
        assert(moves@ =~= m0 + quiet_moves_spec(v0, s_or_e, pin@));
    }

    /// The moves of `s_or_e` in this position, in the generator's order
    /// (see `legal_moves_spec`), with the pin table `pin` or, when it is
    /// `None`, the one `make_pin_inf` computes; the position is left as it
    /// was.  Each move is one the piece can make, respecting the pins, or a
    /// drop the rules allow, and can be played (see
    /// `lemma_generated_moves_sound`); against a check, each move other
    /// than the king's takes or blocks the single checking piece (see
    /// `lemma_generated_moves_answer`); no move leaves the king of `s_or_e`
    /// reached by a piece of the other player (see `king_safe_after`); and
    /// no move comes twice.  No move of those kinds is left out (see the
    /// laws of `complete`).
    pub fn legal_moves(&mut self, s_or_e: KomaInf, pin: &Option<[ISquare; 176]>) -> (moves: Vec<Te>)
        requires
            generation_ready(old(self)@, s_or_e),
        ensures
            moves@ == legal_moves_spec(old(self)@, s_or_e, pins_used(old(self)@, *pin)),
            final(self)@ == old(self)@,
            king_in_place(old(self)@, s_or_e)
                ==> all_sound(old(self)@, s_or_e, pins_used(old(self)@, *pin), moves@),
            king_in_place(old(self)@, s_or_e)
                && control_matches(old(self)@.ban, s_or_e.opponent(), old(self)@.control(s_or_e.opponent()))
                ==> all_answer(old(self)@, s_or_e, moves@),
            king_stands(old(self)@, s_or_e) && one_king(old(self)@, s_or_e) ==> no_repeats(moves@),
            *pin == None::<[ISquare; 176]> && king_stands(old(self)@, s_or_e)
                && old(self)@.consistent() ==> all_safe(old(self)@, s_or_e, moves@),
    {
        proof {
            if king_stands(old(self)@, s_or_e) && one_king(old(self)@, s_or_e) {
                crate::distinct::lemma_generated_moves_distinct(old(self)@, s_or_e, pins_used(old(self)@, *pin));
            }
            if *pin == None::<[ISquare; 176]> && king_stands(old(self)@, s_or_e)
                && old(self)@.consistent() {
                crate::legality::lemma_generated_moves_safe(old(self)@, s_or_e);
            }
            if king_in_place(old(self)@, s_or_e) {
                lemma_generated_moves_sound(old(self)@, s_or_e, pins_used(old(self)@, *pin));
            }
            if king_in_place(old(self)@, s_or_e)
                && control_matches(old(self)@.ban, s_or_e.opponent(), old(self)@.control(s_or_e.opponent())) {
                crate::answers::lemma_generated_moves_answer(old(self)@, s_or_e, pins_used(old(self)@, *pin));
            }
        }
        let mut moves: Vec<Te> = Vec::new();
        let pin_table: [ISquare; 176] = match pin {
            None => {
                let mut pbuf: [ISquare; 176] = [0; 176];
                assert(pbuf@ =~= Seq::new(176, |i: int| 0isize));
                self.make_pin_inf(&mut pbuf);
                pbuf
            }
            Some(p) => *p,
        };
        if s_or_e == KomaInf::Self_ && self.is_control_e(self.king_s) {
            let kiki = self.control_e[self.king_s];
            self.answer_check(s_or_e, &mut moves, &pin_table, kiki);
            return moves;
        }
        if s_or_e == KomaInf::Enemy && self.is_control_s(self.king_e) {
            let kiki = self.control_s[self.king_e];
            self.answer_check(s_or_e, &mut moves, &pin_table, kiki);
            return moves;
        }
        self.quiet_moves(s_or_e, &mut moves, &pin_table);
        moves
    }

    /// Writes the moves of `s_or_e` (see `legal_moves`) to the front of
    /// `te_buf` and returns how many there are; `pin` is `None` to have the
    /// pins worked out.
    pub fn make_legal_moves(&mut self, s_or_e: KomaInf, te_buf: &mut [Te; 600], pin: &mut Option<[ISquare; 176]>) -> (n: usize)
        requires
            generation_ready(old(self)@, s_or_e),
            legal_moves_spec(old(self)@, s_or_e, pins_used(old(self)@, *old(pin))).len() <= 600,
        ensures
            n == legal_moves_spec(old(self)@, s_or_e, pins_used(old(self)@, *old(pin))).len(),
            forall|i: int| 0 <= i < n ==> final(te_buf)@[i] == legal_moves_spec(old(self)@, s_or_e, pins_used(old(self)@, *old(pin)))[i],
            forall|i: int| n <= i < 600 ==> final(te_buf)@[i] == old(te_buf)@[i],
            final(self)@ == old(self)@,
            *final(pin) == *old(pin),
            king_stands(old(self)@, s_or_e) && one_king(old(self)@, s_or_e) ==>
                forall|i: int, j: int| 0 <= i < j < n ==> !(#[trigger] final(te_buf)@[i]).same_move(#[trigger] final(te_buf)@[j]),
            *old(pin) == None::<[ISquare; 176]> && king_stands(old(self)@, s_or_e)
                && old(self)@.consistent() ==>
                forall|i: int| 0 <= i < n ==> #[trigger] king_safe_after(old(self)@, s_or_e, final(te_buf)@[i]),
    {
        let moves = self.legal_moves(s_or_e, pin);
        let n = fill_buffer(te_buf, &moves);
        proof {
            assert forall|i: int| 0 <= i < n implies te_buf@[i] == moves@[i] by {}
            if king_stands(old(self)@, s_or_e) && one_king(old(self)@, s_or_e) {
                assert forall|i: int, j: int| 0 <= i < j < n implies !(#[trigger] te_buf@[i]).same_move(#[trigger] te_buf@[j]) by {
                    assert(!moves@[i].same_move(moves@[j]));
                }
            }
            if king_stands(old(self)@, s_or_e) && old(self)@.consistent()
                && *old(pin) == None::<[ISquare; 176]> {
                assert forall|i: int| 0 <= i < n implies #[trigger] king_safe_after(old(self)@, s_or_e, te_buf@[i]) by {
                    assert(king_safe_after(old(self)@, s_or_e, moves@[i]));
                }
            }
        }
        n
    }

    /// Writes the answers of `s_or_e` to the check given by `kiki` (see
    /// `anti_check_spec`) to the front of `te_buf` and returns how many
    /// there are.
    pub fn anti_check(&mut self, s_or_e: KomaInf, te_buf: &mut [Te; 600], pin: &[ISquare; 176], kiki: Kiki) -> (n: usize)
        requires
            s_or_e.is_side(),
            old(self)@.walls_ok(),
            old(self)@.kings_ok(),
            on_board(old(self)@.king(s_or_e) as int),
            check_answerable(old(self)@, s_or_e, kiki),
            anti_check_spec(old(self)@, s_or_e, pin@, kiki).len() <= 600,
        ensures
            n == anti_check_spec(old(self)@, s_or_e, pin@, kiki).len(),
            forall|i: int| 0 <= i < n ==> final(te_buf)@[i] == anti_check_spec(old(self)@, s_or_e, pin@, kiki)[i],
            forall|i: int| n <= i < 600 ==> final(te_buf)@[i] == old(te_buf)@[i],
            final(self)@ == old(self)@,
    {
        let mut moves: Vec<Te> = Vec::new();
        self.answer_check(s_or_e, &mut moves, pin, kiki);
        fill_buffer(te_buf, &moves)
    }
}

} // verus!
