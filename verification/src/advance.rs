//! Playing a move: the board, the hands, the kings, the move count, and
//! both attack maps brought up to date.

use vstd::prelude::*;
use crate::koma_inf::{KomaInf, lemma_kind_bits, lemma_mark_kind};
use crate::koma_info::KomaInfo;
use crate::kyokumen::{Kyokumen, KyokumenView, on_board};
use crate::control::{add_control, owns, add_upto};
use crate::edits::{lift_control, take_control, extend_slides, cut_slides, lift_upto, take_upto, extend_upto, cut_upto};
use crate::follow::{matches_all, lemma_removed, lemma_emptied, lemma_filled, lemma_reshaped, lemma_unowned, lemma_placed};
use crate::te::Te;
use crate::ready::is_on_board;

verus! {

/// The board once the moving piece has left its square; a drop leaves
/// the board as it is.
pub open spec fn lifted_board(ban: Seq<KomaInf>, te: Te) -> Seq<KomaInf> {
    if te.from > 0x10 { ban.update(te.from as int, KomaInf::EMP) } else { ban }
}

/// The code of the piece a move sets down: the moving piece, with the
/// promotion bit when the move promotes.
pub open spec fn placed_code(te: Te) -> u8 {
    if te.promote != 0 { te.koma | 8u8 } else { te.koma }
}

/// Whether the code a move sets down is a code.
pub open spec fn placeable(te: Te) -> bool {
    KomaInf::from_value(placed_code(te)) is Some
}

/// The piece a move sets down.
pub open spec fn placed(te: Te) -> KomaInf {
    KomaInf::from_value(placed_code(te))->0
}

/// The board after a move.
pub open spec fn board_after(ban: Seq<KomaInf>, te: Te) -> Seq<KomaInf> {
    lifted_board(ban, te).update(te.to as int, placed(te))
}

/// The hands once a dropped piece has left them.
pub open spec fn hand_lifted(hand: Seq<usize>, te: Te) -> Seq<usize> {
    if te.from > 0x10 { hand } else { hand.update(te.koma as int, (hand[te.koma as int] - 1) as usize) }
}

/// Where a piece `k` taken by `side` goes in the hands: the mark of
/// `side` with the kind of `k`, unpromoted.
pub open spec fn hand_slot(side: KomaInf, k: KomaInf) -> int {
    side.value() + k.value() % 8
}

/// What stands on a move's destination once the moving piece has left
/// its square.
pub open spec fn taken(ban: Seq<KomaInf>, te: Te) -> KomaInf {
    lifted_board(ban, te)[te.to as int]
}

/// The hands after a move of `side`: a drop takes one piece from them, a
/// capture adds one.
pub open spec fn hand_after(v: KyokumenView, side: KomaInf, te: Te) -> Seq<usize> {
    let h = hand_lifted(v.hand, te);
    let c = taken(v.ban, te);
    if c == KomaInf::EMP { h } else { h.update(hand_slot(side, c), (h[hand_slot(side, c)] + 1) as usize) }
}

/// The piece a move's code names, or the empty square where the code
/// names none.
pub open spec fn mover(te: Te) -> KomaInf {
    match KomaInf::from_value(te.koma) {
        Some(k) => k,
        None => KomaInf::EMP,
    }
}

/// The attack maps (first player's, second player's) after a move of
/// `side`, edit by edit: for a board move the mover's map loses the bits
/// of the moving piece and both maps carry their slides on through the
/// emptied square; then the opponent's map loses the bits of a taken
/// piece, or, where nothing is taken, both maps have their slides through
/// the destination cut; last the mover's map gains the bits of the piece
/// set down.
pub open spec fn maps_after(v: KyokumenView, side: KomaInf, te: Te) -> (Seq<usize>, Seq<usize>) {
    let own = side == KomaInf::Self_;
    let from = te.from as int;
    let to = te.to as int;
    let b1 = lifted_board(v.ban, te);
    let b2 = board_after(v.ban, te);
    let (cs1, ce1) = if te.from > 0x10 {
        if own {
            (extend_upto(lift_upto(v.control_s, v.ban, from, mover(te), 12), b1, from, 8), extend_upto(v.control_e, b1, from, 8))
        } else {
            (extend_upto(v.control_s, b1, from, 8), extend_upto(lift_upto(v.control_e, v.ban, from, mover(te), 12), b1, from, 8))
        }
    } else {
        (v.control_s, v.control_e)
    };
    let cap = b1[to];
    let (cs2, ce2) = if cap != KomaInf::EMP {
        if own { (cs1, take_upto(ce1, b1, to, cap, 12)) } else { (take_upto(cs1, b1, to, cap, 12), ce1) }
    } else {
        (cut_upto(cs1, b1, to, 8), cut_upto(ce1, b1, to, 8))
    };
    if own { (add_upto(cs2, b2, to, 12), ce2) } else { (cs2, add_upto(ce2, b2, to, 12)) }
}

/// A king square after a move: the destination when the move's piece is
/// the king `k`.
pub open spec fn king_after(king: usize, k: KomaInf, te: Te) -> usize {
    if te.koma == k.value() { te.to as usize } else { king }
}

/// What playing `te` for `side` needs: a destination on the board, a
/// square of departure on the board for a board move, a piece in hand of
/// a code below 40 for a drop, a code to set down, and room in the count
/// of the hand that gets a taken piece and in the move count.
pub open spec fn move_ok(v: KyokumenView, side: KomaInf, te: Te) -> bool {
    &&& on_board(te.to as int)
    &&& te.from > 0x10 ==> on_board(te.from as int)
    &&& te.from <= 0x10 ==> te.koma < 40 && v.hand[te.koma as int] > 0
    &&& placeable(te)
    &&& taken(v.ban, te) != KomaInf::EMP ==> hand_lifted(v.hand, te)[hand_slot(side, taken(v.ban, te))] < usize::MAX
    &&& v.tesu < usize::MAX
}

/// Whether the piece a move sets down is a king only when the moving
/// piece is that same king.
pub open spec fn kings_follow(te: Te) -> bool {
    &&& placed(te) == KomaInf::SOU ==> te.koma == KomaInf::SOU.value()
    &&& placed(te) == KomaInf::EOU ==> te.koma == KomaInf::EOU.value()
}

/// Whether a move of `side` is one the attack maps can follow: a piece
/// that is not empty and carries no mark of the opponent goes to a square
/// that holds nothing of `side`; a board move starts on another square
/// than it ends on, and names the piece that stands there.
pub open spec fn follows(v: KyokumenView, side: KomaInf, te: Te) -> bool {
    &&& te.koma != 0
    &&& te.koma & side.opponent().value() == 0
    &&& v.ban[te.to as int].value() & side.value() == 0
    &&& te.from > 0x10 ==> te.from != te.to && v.ban[te.from as int].value() == te.koma
}

/// Promotion keeps the marks, and a code that is not zero stays so.
pub proof fn lemma_promote_marks(k: u8)
    by (bit_vector)
    ensures
        (k | 8u8) & 16u8 == k & 16u8,
        (k | 8u8) & 32u8 == k & 32u8,
        k | 8u8 != 0,
{
}

impl Kyokumen {
    /// Whether `move_` accepts the move `te` of `s_or_e` here (see
    /// `move_ok`).
    pub fn playable(&self, s_or_e: KomaInf, te: &Te) -> (r: bool)
        requires
            s_or_e.is_side(),
        ensures
            r == move_ok(self@, s_or_e, *te),
    {
        if !is_on_board(te.to as isize) {
            return false;
        }
        if te.from > 0x10 {
            if !is_on_board(te.from as isize) {
                return false;
            }
        } else if te.koma >= 40 || self.hand[te.koma as usize] == 0 {
            return false;
        }
        let code = if te.promote != 0 { te.koma | KomaInfo::Promoted.as_u8() } else { te.koma };
        if KomaInf::from_u8(code).is_none() {
            return false;
        }
        let to = te.to as usize;
        let t = if te.from > 0x10 && te.from == te.to { KomaInf::EMP } else { self.ban[to] };
        assert(t == taken(self@.ban, *te));
        if t != KomaInf::EMP {
            let slot = s_or_e.as_u8() as usize + (t.as_u8() % 8) as usize;
            let count = if te.from <= 0x10 && te.koma as usize == slot { self.hand[slot] - 1 } else { self.hand[slot] };
            assert(count == hand_lifted(self@.hand, *te)[hand_slot(s_or_e, t)]);
            if count == usize::MAX {
                return false;
            }
        }
        self.tesu < usize::MAX
    }

    /// Plays the move `te` of `s_or_e`.  A board move empties its square
    /// of departure; a drop takes the piece from the hands.  Whatever
    /// stands on the destination goes to the mover's hand, unpromoted, and
    /// the destination gets the moving piece, promoted if the move
    /// promotes.  The king squares follow the kings, and the move count
    /// goes up by one.  Both attack maps are edited as the move goes (see
    /// `maps_after`); where the move is one they can follow, maps that
    /// agreed with the board still agree with it.
    pub fn move_(&mut self, s_or_e: KomaInf, te: &Te)
        requires
            old(self)@.walls_ok(),
            s_or_e.is_side(),
            move_ok(old(self)@, s_or_e, *te),
        ensures
            final(self)@.ban == board_after(old(self)@.ban, *te),
            final(self)@.banpadding == old(self)@.banpadding,
            final(self)@.hand == hand_after(old(self)@, s_or_e, *te),
            final(self)@.control_s == maps_after(old(self)@, s_or_e, *te).0,
            final(self)@.control_e == maps_after(old(self)@, s_or_e, *te).1,
            final(self).tesu == old(self).tesu + 1,
            final(self).king_s == king_after(old(self).king_s, KomaInf::SOU, *te),
            final(self).king_e == king_after(old(self).king_e, KomaInf::EOU, *te),
            !placed(*te).is_mark() ==> final(self)@.walls_ok(),
            old(self)@.kings_ok() && kings_follow(*te) ==> final(self)@.kings_ok(),
            follows(old(self)@, s_or_e, *te) && old(self)@.consistent() ==> final(self)@.consistent(),
    {
        let ghost v0 = self@;
        let ghost good = follows(v0, s_or_e, *te) && v0.consistent();
        let ghost opp = s_or_e.opponent();
        let from: usize = te.from as usize;
        let to: usize = te.to as usize;
        let side_s = s_or_e == KomaInf::Self_;
        if te.from > 0x10 {
            let k = match KomaInf::from_u8(te.koma) {
                Some(k) => k,
                None => KomaInf::EMP,
            };
            proof {
                if good {
                    KomaInf::lemma_value_from(v0.ban[from as int]);
                    assert(k == v0.ban[from as int]);
                    assert(!owns(v0.ban, opp, from as int));
                }
            }
            let ghost cs0 = self.control_s@;
            let ghost ce0 = self.control_e@;
            if side_s {
                lift_control(&mut self.control_s, &self.ban, from, k);
            } else {
                lift_control(&mut self.control_e, &self.ban, from, k);
            }
            let ghost cs1 = self.control_s@;
            let ghost ce1 = self.control_e@;
            proof {
                if good {
                    if side_s {
                        lemma_removed(v0.ban, KomaInf::Self_, cs0, cs1, from as int, true);
                        lemma_unowned(v0.ban, KomaInf::Enemy, ce1, from as int);
                    } else {
                        lemma_removed(v0.ban, KomaInf::Enemy, ce0, ce1, from as int, true);
                        lemma_unowned(v0.ban, KomaInf::Self_, cs1, from as int);
                    }
                }
            }
            self.ban[from] = KomaInf::EMP;
            extend_slides(&mut self.control_s, &self.ban, from);
            extend_slides(&mut self.control_e, &self.ban, from);
            proof {
                if good {
                    lemma_emptied(v0.ban, KomaInf::Self_, cs1, self.control_s@, from as int);
                    lemma_emptied(v0.ban, KomaInf::Enemy, ce1, self.control_e@, from as int);
                }
            }
        } else {
            self.hand[te.koma as usize] = self.hand[te.koma as usize] - 1;
        }
        let ghost b1 = self.ban@;
        let ghost cs2 = self.control_s@;
        let ghost ce2 = self.control_e@;
        assert(b1 == lifted_board(v0.ban, *te));
        assert(good ==> matches_all(b1, KomaInf::Self_, cs2) && matches_all(b1, KomaInf::Enemy, ce2));
        let cap = self.ban[to];
        if cap != KomaInf::EMP {
            let kind: u8 = cap.as_u8() & !KomaInfo::Promoted.as_u8() & !KomaInf::Self_.as_u8()
                & !KomaInf::Enemy.as_u8();
            proof {
                KomaInf::lemma_value_from(cap);
                lemma_kind_bits(cap.value());
                lemma_mark_kind(kind);
            }
            let slot = (s_or_e.as_u8() | kind) as usize;
            assert(slot == hand_slot(s_or_e, cap));
            self.hand[slot] = self.hand[slot] + 1;
            if side_s {
                take_control(&mut self.control_e, &self.ban, to, cap);
            } else {
                take_control(&mut self.control_s, &self.ban, to, cap);
            }
            proof {
                if good {
                    assert(!owns(b1, s_or_e, to as int));
                    if side_s {
                        lemma_removed(b1, KomaInf::Enemy, ce2, self.control_e@, to as int, false);
                        lemma_unowned(b1, KomaInf::Self_, cs2, to as int);
                    } else {
                        lemma_removed(b1, KomaInf::Self_, cs2, self.control_s@, to as int, false);
                        lemma_unowned(b1, KomaInf::Enemy, ce2, to as int);
                    }
                }
            }
        } else {
            cut_slides(&mut self.control_s, &self.ban, to);
            cut_slides(&mut self.control_e, &self.ban, to);
        }
        let ghost cs3 = self.control_s@;
        let ghost ce3 = self.control_e@;
        let p = if te.promote != 0 {
            KomaInf::from_u8(te.koma | KomaInfo::Promoted.as_u8()).unwrap()
        } else {
            KomaInf::from_u8(te.koma).unwrap()
        };
        assert(p == placed(*te));
        proof {
            KomaInf::lemma_from_value(placed_code(*te));
            lemma_promote_marks(te.koma);
        }
        self.ban[to] = p;
        let ghost b2 = self.ban@;
        proof {
            if good {
                assert(p != KomaInf::EMP);
                if cap != KomaInf::EMP {
                    lemma_reshaped(b1, KomaInf::Self_, cs3, to as int, p);
                    lemma_reshaped(b1, KomaInf::Enemy, ce3, to as int, p);
                } else {
                    lemma_filled(b1, KomaInf::Self_, cs2, cs3, to as int, p);
                    lemma_filled(b1, KomaInf::Enemy, ce2, ce3, to as int, p);
                }
                assert(!owns(b2, opp, to as int));
            }
        }
        if side_s {
            add_control(&mut self.control_s, &self.ban, to);
        } else {
            add_control(&mut self.control_e, &self.ban, to);
        }
        proof {
            if good {
                if side_s {
                    lemma_placed(b2, KomaInf::Self_, cs3, self.control_s@, to as int);
                    lemma_unowned(b2, KomaInf::Enemy, self.control_e@, to as int);
                } else {
                    lemma_placed(b2, KomaInf::Enemy, ce3, self.control_e@, to as int);
                    lemma_unowned(b2, KomaInf::Self_, self.control_s@, to as int);
                }
            }
        }
        if te.koma == KomaInf::SOU.as_u8() {
            self.king_s = to;
        }
        if te.koma == KomaInf::EOU.as_u8() {
            self.king_e = to;
        }
        self.tesu = self.tesu + 1;
        assert(self@.ban =~= board_after(v0.ban, *te));
    }
}

} // verus!
