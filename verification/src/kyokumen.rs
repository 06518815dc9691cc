//! The position: the board with its padding, the attack maps of both
//! players, the pieces in hand, the move count and where the kings stand.

use vstd::prelude::*;
use crate::koma_inf::KomaInf;
use crate::koma_moves::{KomaMoves, dir_offset, moves_to, promotable, steps, slides};
use crate::koma_inf::{lemma_bit4, lemma_bit5};
use crate::control::{add_control, piece_gives, owns, attacked, bit, control_matches, framed, lemma_bit_basics};
use crate::{USquare, ISquare, Kiki, TeNum};

verus! {

/// Whether `sq` is one of the 81 squares of the board: file and rank
/// both from 1 to 9.
pub open spec fn on_board(sq: int) -> bool {
    16 <= sq < 160 && 1 <= sq % 16 <= 9
}

/// A position.
pub struct Kyokumen {
    /// Sixteen wall squares that stand before the board, so that a knight's
    /// jump from the corner reads a wall instead of leaving the board.
    pub banpadding: [KomaInf; 16],
    /// The padded board: square `16 * file + rank`; everything that is not
    /// one of the 81 squares is a wall.
    pub ban: [KomaInf; 176],
    /// Bit `d` (d < 12) of `control_s[x]`: a first player's piece on
    /// `x - DIRECT[d]` steps onto `x`.  Bit `16 + d` (d < 8): a first
    /// player's piece slides along direction `d` onto `x`.
    pub control_s: [Kiki; 176],
    /// The same for the second player.
    pub control_e: [Kiki; 176],
    /// How many pieces of each code are in hand.
    pub hand: [usize; 40],
    /// How many moves have been played.
    pub tesu: TeNum,
    /// Where the first player's king stands, or 0.
    pub king_s: Kiki,
    /// Where the second player's king stands, or 0.
    pub king_e: Kiki,
}

/// The contents of a position as mathematical values.
pub struct KyokumenView {
    pub banpadding: Seq<KomaInf>,
    pub ban: Seq<KomaInf>,
    pub control_s: Seq<usize>,
    pub control_e: Seq<usize>,
    pub hand: Seq<usize>,
    pub tesu: usize,
    pub king_s: usize,
    pub king_e: usize,
}

impl View for Kyokumen {
    type V = KyokumenView;

    open spec fn view(&self) -> KyokumenView {
        KyokumenView {
            banpadding: self.banpadding@,
            ban: self.ban@,
            control_s: self.control_s@,
            control_e: self.control_e@,
            hand: self.hand@,
            tesu: self.tesu,
            king_s: self.king_s,
            king_e: self.king_e,
        }
    }
}

/// The bits that an attack map may hold: steps 0 to 11, slides 16 to 23.
pub open spec fn control_bits() -> usize {
    0xFF0FFFusize
}

/// An attack map holds only step and slide bits, and each step bit names a
/// square of the board as its origin.
pub open spec fn shaped(c: Seq<usize>) -> bool {
    &&& c.len() == 176
    &&& forall|x: int| 0 <= x < 176 ==> #[trigger] c[x] & !control_bits() == 0
    &&& forall|x: int, d: usize| 0 <= x < 176 && d < 12 && #[trigger] (c[x] & (1usize << d)) != 0
            ==> on_board(x - dir_offset(d as int))
}

impl KyokumenView {
    /// What stands at index `i` of the padded board, `-16 <= i < 176`;
    /// negative indices fall on the padding.
    pub open spec fn at(self, i: int) -> KomaInf {
        if i < 0 { self.banpadding[i + 16] } else { self.ban[i] }
    }

    /// The attack map of `side`.
    pub open spec fn control(self, side: KomaInf) -> Seq<usize> {
        if side == KomaInf::Self_ { self.control_s } else { self.control_e }
    }

    /// Where the king of `side` stands, or 0.
    pub open spec fn king(self, side: KomaInf) -> usize {
        if side == KomaInf::Self_ { self.king_s } else { self.king_e }
    }

    /// The padding and everything around the 81 squares is wall, and no
    /// square of the board holds a mark.
    pub open spec fn walls_ok(self) -> bool {
        &&& self.banpadding.len() == 16
        &&& self.ban.len() == 176
        &&& self.hand.len() == 40
        &&& forall|i: int| 0 <= i < 16 ==> #[trigger] self.banpadding[i] == KomaInf::Wall
        &&& forall|sq: int| 0 <= sq < 176 && !on_board(sq) ==> #[trigger] self.ban[sq] == KomaInf::Wall
        &&& forall|sq: int| on_board(sq) ==> !(#[trigger] self.ban[sq]).is_mark()
    }

    /// Each king square is 0 or a square of the board, and it is not 0
    /// while a king of that player stands on the board.
    pub open spec fn kings_ok(self) -> bool {
        &&& (self.king_s == 0 || on_board(self.king_s as int))
        &&& (self.king_e == 0 || on_board(self.king_e as int))
        &&& forall|sq: int| on_board(sq) && #[trigger] self.ban[sq] == KomaInf::SOU ==> self.king_s != 0
        &&& forall|sq: int| on_board(sq) && #[trigger] self.ban[sq] == KomaInf::EOU ==> self.king_e != 0
    }

    /// What the move generator needs of a position to run without fault.
    pub open spec fn sound(self) -> bool {
        &&& self.walls_ok()
        &&& self.kings_ok()
        &&& shaped(self.control_s)
        &&& shaped(self.control_e)
    }

    /// The first index after `sq`, going `dir` at a time, that is not
    /// empty (or the first one outside `-16..176`).
    pub open spec fn walk(self, sq: int, dir: int) -> int
        decreases (if dir > 0 { 176 - sq } else { sq + 16 }),
    {
        let n = sq + dir;
        if dir == 0 || n < -16 || n >= 176 {
            n
        } else if self.at(n) != KomaInf::EMP {
            n
        } else {
            self.walk(n, dir)
        }
    }

    /// Whether the walk from `sq` stops on a non-empty index of `-16..176`.
    pub open spec fn walk_ok(self, sq: int, dir: int) -> bool
        decreases (if dir > 0 { 176 - sq } else { sq + 16 }),
    {
        let n = sq + dir;
        if dir == 0 || n < -16 || n >= 176 {
            false
        } else if self.at(n) != KomaInf::EMP {
            true
        } else {
            self.walk_ok(n, dir)
        }
    }

    /// From a square of the board, a walk along any of the twelve
    /// directions stops on a non-empty index; along the eight neighbour
    /// directions that index is not in the padding.
    pub proof fn lemma_walk(self, sq: int, i: int)
        requires
            self.walls_ok(),
            on_board(sq),
            0 <= i < 12,
        ensures
            self.walk_ok(sq, dir_offset(i)),
            -16 <= self.walk(sq, dir_offset(i)) < 176,
            self.at(self.walk(sq, dir_offset(i))) != KomaInf::EMP,
            i < 8 ==> 0 <= self.walk(sq, dir_offset(i)) < 176,
        decreases (if dir_offset(i) > 0 { 176 - sq } else { sq + 16 }),
    {
        let d = dir_offset(i);
        let n = sq + d;
        if n < 0 {
            assert(self.banpadding[n + 16] == KomaInf::Wall);
        } else if !on_board(n) {
            assert(self.ban[n] == KomaInf::Wall);
        } else if self.at(n) != KomaInf::EMP {
        } else {
            self.lemma_walk(n, i);
        }
    }
}

impl Kyokumen {
    /// What stands at index `i` of the padded board; negative indices fall
    /// on the padding.
    pub fn koma_at(&self, i: ISquare) -> (r: KomaInf)
        requires
            -16 <= i < 176,
        ensures
            r == self@.at(i as int),
    {
        if i < 0 {
            self.banpadding[(i + 16) as usize]
        } else {
            self.ban[i as usize]
        }
    }

    /// Whether a first player's mark is on what stands at `sq`.
    pub fn is_s(&self, sq: USquare) -> (r: bool)
        requires
            sq < 176,
        ensures
            r == (self@.ban[sq as int].value() & KomaInf::Self_.value() != 0),
    {
        self.ban[sq].meets(KomaInf::Self_)
    }

    /// Whether a second player's mark is on what stands at `sq`.
    pub fn is_e(&self, sq: USquare) -> (r: bool)
        requires
            sq < 176,
        ensures
            r == (self@.ban[sq as int].value() & KomaInf::Enemy.value() != 0),
    {
        self.ban[sq].meets(KomaInf::Enemy)
    }

    /// Whether any second player's piece reaches `sq`.
    pub fn is_control_e(&self, sq: USquare) -> (r: bool)
        requires
            sq < 176,
        ensures
            r == (self@.control_e[sq as int] != 0),
    {
        self.control_e[sq] != 0
    }

    /// Whether any first player's piece reaches `sq`.
    pub fn is_control_s(&self, sq: USquare) -> (r: bool)
        requires
            sq < 176,
        ensures
            r == (self@.control_s[sq as int] != 0),
    {
        self.control_s[sq] != 0
    }

    /// Whether `sq` is not empty.
    pub fn is_exists(&self, sq: USquare) -> (r: bool)
        requires
            sq < 176,
        ensures
            r == (self@.ban[sq as int] != KomaInf::EMP),
    {
        self.ban[sq] != KomaInf::EMP
    }

    /// Whether what stands at `sq` carries a bit of `s_or_e`.
    pub fn is_exists_s_or_e(&self, sq: USquare, s_or_e: KomaInf) -> (r: bool)
        requires
            sq < 176,
        ensures
            r == (self@.ban[sq as int].value() & s_or_e.value() != 0),
    {
        self.ban[sq].meets(s_or_e)
    }

    /// Whether what stands at `sq - DIRECT[dir]` may go to the neighbouring
    /// square in direction `dir`, that is onto `sq`.
    pub fn can_move(&self, dir: usize, sq: ISquare) -> (r: bool)
        requires
            dir < 12,
            -16 <= sq - dir_offset(dir as int) < 176,
        ensures
            r == moves_to(dir as int, self@.at(sq - dir_offset(dir as int))),
    {
        let from = sq - KomaMoves::direct(dir);
        KomaMoves::can_move(dir, self.koma_at(from))
    }

    /// Whether what stands at `sq` may go to the neighbouring square in
    /// direction `dir` (the same table as `can_move`, read at `sq` itself).
    pub fn can_jump(&self, dir: usize, sq: USquare) -> (r: bool)
        requires
            dir < 12,
            sq < 176,
        ensures
            r == moves_to(dir as int, self@.ban[sq as int]),
    {
        KomaMoves::can_move(dir, self.ban[sq])
    }

    /// Whether what stands at `sq` may promote.
    pub fn can_promote(&self, sq: USquare) -> (r: bool)
        requires
            sq < 176,
        ensures
            r == promotable(self@.ban[sq as int]),
    {
        KomaMoves::can_promote(self.ban[sq])
    }

    /// What stands at `get_offset_sq(absolute_sq, relative_sq)`.
    pub fn get_koma_by_offset_sq(&self, absolute_sq: USquare, relative_sq: ISquare) -> (r: KomaInf)
        requires
            0 <= relative_sq < 12,
            0 <= absolute_sq - dir_offset(relative_sq as int) < 176,
        ensures
            r == self@.ban[absolute_sq - dir_offset(relative_sq as int)],
    {
        self.ban[Kyokumen::get_offset_sq(absolute_sq, relative_sq)]
    }

    /// The square one step against direction `relative_sq` from
    /// `absolute_sq`: `absolute_sq - DIRECT[relative_sq]` (note the minus),
    /// worked out as an `isize` and cut to a `usize`.
    pub fn get_offset_sq(absolute_sq: USquare, relative_sq: ISquare) -> (r: USquare)
        requires
            0 <= relative_sq < 12,
            isize::MIN <= (absolute_sq as isize) - dir_offset(relative_sq as int) <= isize::MAX,
        ensures
            r == ((absolute_sq as isize) - dir_offset(relative_sq as int)) as usize,
    {
        (absolute_sq as ISquare - KomaMoves::direct(relative_sq as usize)) as USquare
    }

    /// The first non-empty index after `sq` going `dir` at a time, with
    /// the padding read as wall.
    pub fn search_i(&self, sq: ISquare, dir: ISquare) -> (r: ISquare)
        requires
            -16 <= sq < 176,
            self@.walk_ok(sq as int, dir as int),
        ensures
            r == self@.walk(sq as int, dir as int),
            -16 <= r < 176,
    {
        let mut s = sq;
        loop
            invariant
                -16 <= s < 176,
                    self@.walk_ok(s as int, dir as int),
                self@.walk(s as int, dir as int) == self@.walk(sq as int, dir as int),
            decreases (if dir > 0 { 176 - s } else { s + 16 }),
        {
            let n = s + dir;
            if self.koma_at(n) != KomaInf::EMP {
                return n;
            }
            s = n;
        }
    }

    /// The first non-empty square after `sq` going `dir` at a time.
    pub fn search(&self, sq: USquare, dir: ISquare) -> (r: USquare)
        requires
            self@.walk_ok(sq as int, dir as int),
            self@.walk(sq as int, dir as int) >= 0,
        ensures
            r == self@.walk(sq as int, dir as int),
    {
        if sq < 176 {
            return self.search_i(sq as ISquare, dir) as USquare;
        }
        // Far from the board the first step must come back onto it.
        let dir_abs: usize = if dir == isize::MIN { (isize::MAX as usize) + 1 } else { (-dir) as usize };
        let n: ISquare = ((sq + 16 - dir_abs) as ISquare) - 16;
        assert(n == sq + dir);
        if self.koma_at(n) != KomaInf::EMP {
            return n as USquare;
        }
        self.search_i(n, dir) as USquare
    }
}


/// A piece that moves carries exactly one player's mark.
pub proof fn lemma_mover_mark(d: int, k: KomaInf)
    requires
        steps(d, k) || slides(d, k),
    ensures
        (k.value() & KomaInf::Self_.value() != 0) != (k.value() & KomaInf::Enemy.value() != 0),
{
    lemma_bit4(k.value());
    lemma_bit5(k.value());
}

/// Whether `p` is one of the squares the set-up loop has handled when it
/// stands at file `suji` (times 16), rank `dan`.
pub open spec fn handled(p: int, suji: int, dan: int) -> bool {
    on_board(p) && (p / 16 < suji / 16 || (p / 16 == suji / 16 && p % 16 < dan))
}

/// Whether the set-up loop files the piece on `p` under `side`: a piece
/// with the second player's mark goes to the second player, else one with
/// the first player's mark to the first.
pub open spec fn filed_under(ban: Seq<KomaInf>, side: KomaInf, p: int) -> bool {
    if side == KomaInf::Enemy {
        ban[p].value() & KomaInf::Enemy.value() != 0
    } else {
        ban[p].value() & KomaInf::Enemy.value() == 0 && ban[p].value() & KomaInf::Self_.value() != 0
    }
}

impl Kyokumen {
    /// Computes both attack maps from the board alone.
    fn init_control(&mut self)
        requires
            framed(old(self).ban@),
        ensures
            final(self).ban == old(self).ban,
            final(self).banpadding == old(self).banpadding,
            final(self).hand == old(self).hand,
            final(self).tesu == old(self).tesu,
            final(self).king_s == old(self).king_s,
            final(self).king_e == old(self).king_e,
            control_matches(final(self).ban@, KomaInf::Self_, final(self).control_s@),
            control_matches(final(self).ban@, KomaInf::Enemy, final(self).control_e@),
            control_matches(old(self).ban@, KomaInf::Self_, old(self).control_s@) ==> final(self).control_s == old(self).control_s,
            control_matches(old(self).ban@, KomaInf::Enemy, old(self).control_e@) ==> final(self).control_e == old(self).control_e,
    {
        let ghost cs0 = self.control_s;
        let ghost ce0 = self.control_e;
        self.control_s = [0; 176];
        self.control_e = [0; 176];
        proof {
            assert forall|x: int, b: usize| 0 <= x < 176 && b < 24 implies !bit(self.control_s@[x], b) by {
                lemma_bit_basics(b);
            }
            assert forall|x: int, b: usize| 0 <= x < 176 && b < 24 implies !bit(self.control_e@[x], b) by {
                lemma_bit_basics(b);
            }
        }
        let mut suji: usize = 0x10;
        while suji <= 0x90
            invariant
                0x10 <= suji <= 0xa0,
                suji % 16 == 0,
                framed(self.ban@),
                self.ban == old(self).ban,
                self.banpadding == old(self).banpadding,
                self.hand == old(self).hand,
                self.tesu == old(self).tesu,
                self.king_s == old(self).king_s,
                self.king_e == old(self).king_e,
                forall|x: int| 0 <= x < 176 ==> #[trigger] self.control_s@[x] < 0x1000000,
                forall|x: int| 0 <= x < 176 ==> #[trigger] self.control_e@[x] < 0x1000000,
                forall|x: int, b: usize| 0 <= x < 176 && b < 24 ==>
                    (#[trigger] bit(self.control_s@[x], b) <==> exists|p: int| handled(p, suji as int, 1)
                        && filed_under(self.ban@, KomaInf::Self_, p) && #[trigger] piece_gives(self.ban@, p, x, b as int)),
                forall|x: int, b: usize| 0 <= x < 176 && b < 24 ==>
                    (#[trigger] bit(self.control_e@[x], b) <==> exists|p: int| handled(p, suji as int, 1)
                        && filed_under(self.ban@, KomaInf::Enemy, p) && #[trigger] piece_gives(self.ban@, p, x, b as int)),
            decreases 0xa0 - suji,
        {
            let mut dan: usize = 1;
            while dan <= 9
                invariant
                    0x10 <= suji <= 0x90,
                    suji % 16 == 0,
                    1 <= dan <= 10,
                    framed(self.ban@),
                    self.ban == old(self).ban,
                    self.banpadding == old(self).banpadding,
                    self.hand == old(self).hand,
                    self.tesu == old(self).tesu,
                    self.king_s == old(self).king_s,
                    self.king_e == old(self).king_e,
                    forall|x: int| 0 <= x < 176 ==> #[trigger] self.control_s@[x] < 0x1000000,
                    forall|x: int| 0 <= x < 176 ==> #[trigger] self.control_e@[x] < 0x1000000,
                    forall|x: int, b: usize| 0 <= x < 176 && b < 24 ==>
                        (#[trigger] bit(self.control_s@[x], b) <==> exists|p: int| handled(p, suji as int, dan as int)
                            && filed_under(self.ban@, KomaInf::Self_, p) && #[trigger] piece_gives(self.ban@, p, x, b as int)),
                    forall|x: int, b: usize| 0 <= x < 176 && b < 24 ==>
                        (#[trigger] bit(self.control_e@[x], b) <==> exists|p: int| handled(p, suji as int, dan as int)
                            && filed_under(self.ban@, KomaInf::Enemy, p) && #[trigger] piece_gives(self.ban@, p, x, b as int)),
                decreases 10 - dan,
            {
                let sq = suji + dan;
                let ghost cs = self.control_s@;
                let ghost ce = self.control_e@;
                assert(on_board(sq as int));
                if self.ban[sq].meets(KomaInf::Enemy) {
                    add_control(&mut self.control_e, &self.ban, sq);
                } else if self.ban[sq].meets(KomaInf::Self_) {
                    add_control(&mut self.control_s, &self.ban, sq);
                }
                proof {
                    assert forall|p: int| #[trigger] handled(p, suji as int, (dan + 1) as int)
                        <==> handled(p, suji as int, dan as int) || p == sq by {
                    }
                    let ghost fe = filed_under(self.ban@, KomaInf::Enemy, sq as int);
                    let ghost fs = filed_under(self.ban@, KomaInf::Self_, sq as int);
                    assert forall|x: int, b: usize| 0 <= x < 176 && b < 24 implies
                        (#[trigger] bit(self.control_s@[x], b) <==> exists|p: int| handled(p, suji as int, (dan + 1) as int)
                            && filed_under(self.ban@, KomaInf::Self_, p) && #[trigger] piece_gives(self.ban@, p, x, b as int)) by {
                        assert(bit(self.control_s@[x], b) <==> bit(cs[x], b) || (fs && piece_gives(self.ban@, sq as int, x, b as int)));
                        if bit(cs[x], b) {
                            let p = choose|p: int| handled(p, suji as int, dan as int)
                                && filed_under(self.ban@, KomaInf::Self_, p) && #[trigger] piece_gives(self.ban@, p, x, b as int);
                            assert(handled(p, suji as int, (dan + 1) as int));
                        }
                        if fs && piece_gives(self.ban@, sq as int, x, b as int) {
                            assert(handled(sq as int, suji as int, (dan + 1) as int));
                        }
                        if exists|p: int| handled(p, suji as int, (dan + 1) as int)
                            && filed_under(self.ban@, KomaInf::Self_, p) && #[trigger] piece_gives(self.ban@, p, x, b as int) {
                            let p = choose|p: int| handled(p, suji as int, (dan + 1) as int)
                                && filed_under(self.ban@, KomaInf::Self_, p) && #[trigger] piece_gives(self.ban@, p, x, b as int);
                            if p != sq {
                                assert(handled(p, suji as int, dan as int));
                            }
                        }
                    }
                    assert forall|x: int, b: usize| 0 <= x < 176 && b < 24 implies
                        (#[trigger] bit(self.control_e@[x], b) <==> exists|p: int| handled(p, suji as int, (dan + 1) as int)
                            && filed_under(self.ban@, KomaInf::Enemy, p) && #[trigger] piece_gives(self.ban@, p, x, b as int)) by {
                        assert(bit(self.control_e@[x], b) <==> bit(ce[x], b) || (fe && piece_gives(self.ban@, sq as int, x, b as int)));
                        if bit(ce[x], b) {
                            let p = choose|p: int| handled(p, suji as int, dan as int)
                                && filed_under(self.ban@, KomaInf::Enemy, p) && #[trigger] piece_gives(self.ban@, p, x, b as int);
                            assert(handled(p, suji as int, (dan + 1) as int));
                        }
                        if fe && piece_gives(self.ban@, sq as int, x, b as int) {
                            assert(handled(sq as int, suji as int, (dan + 1) as int));
                        }
                        if exists|p: int| handled(p, suji as int, (dan + 1) as int)
                            && filed_under(self.ban@, KomaInf::Enemy, p) && #[trigger] piece_gives(self.ban@, p, x, b as int) {
                            let p = choose|p: int| handled(p, suji as int, (dan + 1) as int)
                                && filed_under(self.ban@, KomaInf::Enemy, p) && #[trigger] piece_gives(self.ban@, p, x, b as int);
                            if p != sq {
                                assert(handled(p, suji as int, dan as int));
                            }
                        }
                    }
                }
                dan += 1;
            }
            proof {
                assert forall|p: int| #[trigger] handled(p, (suji + 16) as int, 1) <==> handled(p, suji as int, 10) by {
                }
            }
            suji += 0x10;
        }
        proof {
            assert forall|x: int, b: usize| 0 <= x < 176 && b < 24 implies
                (#[trigger] bit(self.control_s@[x], b) <==> attacked(self.ban@, KomaInf::Self_, x, b as int)) by {
                if attacked(self.ban@, KomaInf::Self_, x, b as int) {
                    let p = choose|p: int| owns(self.ban@, KomaInf::Self_, p) && #[trigger] piece_gives(self.ban@, p, x, b as int);
                    lemma_mover_mark(if b < 12 { b as int } else { b - 16 }, self.ban@[p]);
                    assert(handled(p, 0xa0, 1));
                }
                if bit(self.control_s@[x], b) {
                    let p = choose|p: int| handled(p, 0xa0, 1)
                        && filed_under(self.ban@, KomaInf::Self_, p) && #[trigger] piece_gives(self.ban@, p, x, b as int);
                    assert(owns(self.ban@, KomaInf::Self_, p));
                }
            }
            assert forall|x: int, b: usize| 0 <= x < 176 && b < 24 implies
                (#[trigger] bit(self.control_e@[x], b) <==> attacked(self.ban@, KomaInf::Enemy, x, b as int)) by {
                if attacked(self.ban@, KomaInf::Enemy, x, b as int) {
                    let p = choose|p: int| owns(self.ban@, KomaInf::Enemy, p) && #[trigger] piece_gives(self.ban@, p, x, b as int);
                    assert(handled(p, 0xa0, 1));
                }
                if bit(self.control_e@[x], b) {
                    let p = choose|p: int| handled(p, 0xa0, 1)
                        && filed_under(self.ban@, KomaInf::Enemy, p) && #[trigger] piece_gives(self.ban@, p, x, b as int);
                    assert(owns(self.ban@, KomaInf::Enemy, p));
                }
            }
            if control_matches(self.ban@, KomaInf::Self_, cs0@) {
                crate::control::lemma_control_determined(self.ban@, KomaInf::Self_, cs0@, self.control_s@);
                assert(self.control_s@ == cs0@);
                assert(self.control_s == cs0);
            }
            if control_matches(self.ban@, KomaInf::Enemy, ce0@) {
                crate::control::lemma_control_determined(self.ban@, KomaInf::Enemy, ce0@, self.control_e@);
                assert(self.control_e@ == ce0@);
                assert(self.control_e == ce0);
            }
        }
    }
}


/// The square that the set-up loop fills in its `m`-th step: rank-major,
/// rank `m / 9 + 1`, file `m % 9 + 1`.
pub open spec fn order_sq(m: int) -> int {
    16 * (m % 9 + 1) + (m / 9 + 1)
}

/// The padded board laid out from a 9 x 9 picture: row `r` is rank `r + 1`,
/// column `c` is file `9 - c` (files run from right to left).
pub open spec fn laid_out(board: [[KomaInf; 9]; 9]) -> Seq<KomaInf> {
    Seq::new(176, |sq: int| if on_board(sq) { board@[sq % 16 - 1]@[9 - sq / 16] } else { KomaInf::Wall })
}

/// The last square, in the set-up loop's order, among its first `m` that
/// holds `k`; 0 if none does.
pub open spec fn last_found(ban: Seq<KomaInf>, k: KomaInf, m: int) -> usize
    decreases m,
{
    if m <= 0 {
        0
    } else if ban[order_sq(m - 1)] == k {
        order_sq(m - 1) as usize
    } else {
        last_found(ban, k, m - 1)
    }
}

/// Whether no square of a 9 x 9 picture holds a mark.
pub open spec fn no_marks(board: [[KomaInf; 9]; 9]) -> bool {
    forall|r: int, c: int| 0 <= r < 9 && 0 <= c < 9 ==> !(#[trigger] board@[r]@[c]).is_mark()
}

/// The set-up loop's step that fills square `sq` of the board.
pub open spec fn order_index(sq: int) -> int {
    (sq % 16 - 1) * 9 + (sq / 16 - 1)
}

/// `last_found` names 0 or a square of the board holding `k`, and it is
/// not 0 once a square holding `k` has been passed.
pub proof fn lemma_last_found(ban: Seq<KomaInf>, k: KomaInf, m: int)
    requires
        0 <= m <= 81,
    ensures
        last_found(ban, k, m) != 0 ==> on_board(last_found(ban, k, m) as int) && ban[last_found(ban, k, m) as int] == k,
        forall|j: int| 0 <= j < m && #[trigger] ban[order_sq(j)] == k ==> last_found(ban, k, m) != 0,
    decreases m,
{
    if m > 0 {
        lemma_last_found(ban, k, m - 1);
        assert(on_board(order_sq(m - 1)));
    }
}

impl KyokumenView {
    /// Both attack maps agree with the board.
    pub open spec fn consistent(self) -> bool {
        &&& control_matches(self.ban, KomaInf::Self_, self.control_s)
        &&& control_matches(self.ban, KomaInf::Enemy, self.control_e)
    }
}

/// A map that agrees with a framed board has the shape the move generator
/// relies on.
pub proof fn lemma_matches_shaped(ban: Seq<KomaInf>, side: KomaInf, c: Seq<usize>)
    requires
        framed(ban),
        control_matches(ban, side, c),
    ensures
        shaped(c),
{
    assert forall|x: int| 0 <= x < 176 implies #[trigger] c[x] & !control_bits() == 0 by {
        assert(!bit(c[x], 12));
        assert(!bit(c[x], 13));
        assert(!bit(c[x], 14));
        assert(!bit(c[x], 15));
        lemma_shape_bits(c[x]);
    }
    assert forall|x: int, d: usize| 0 <= x < 176 && d < 12 && #[trigger] (c[x] & (1usize << d)) != 0
        implies on_board(x - dir_offset(d as int)) by {
        assert(bit(c[x], d));
        let p = choose|p: int| owns(ban, side, p) && #[trigger] piece_gives(ban, p, x, d as int);
    }
}

/// A value below bit 24 with bits 12 to 15 clear holds only attack-map bits.
pub proof fn lemma_shape_bits(c: usize)
    by (bit_vector)
    requires
        c < 0x1000000,
        c & (1usize << 12usize) == 0,
        c & (1usize << 13usize) == 0,
        c & (1usize << 14usize) == 0,
        c & (1usize << 15usize) == 0,
    ensures
        c & !0xFF0FFFusize == 0,
{
}

impl Default for Kyokumen {
    /// A position with walls in the padding, an empty padded board, empty
    /// attack maps and hands, no moves played and no kings.
    fn default() -> (r: Kyokumen)
        ensures
            r@.banpadding == Seq::new(16, |i: int| KomaInf::Wall),
            r@.ban == Seq::new(176, |i: int| KomaInf::EMP),
            r@.control_s == Seq::new(176, |i: int| 0usize),
            r@.control_e == Seq::new(176, |i: int| 0usize),
            r@.hand == Seq::new(40, |i: int| 0usize),
            r.tesu == 0,
            r.king_s == 0,
            r.king_e == 0,
    {
        let r = Kyokumen {
            banpadding: [KomaInf::Wall; 16],
            ban: [KomaInf::EMP; 176],
            control_s: [0; 176],
            control_e: [0; 176],
            hand: [0; 40],
            tesu: 0,
            king_s: 0,
            king_e: 0,
        };
        assert(r@.banpadding =~= Seq::new(16, |i: int| KomaInf::Wall));
        assert(r@.ban =~= Seq::new(176, |i: int| KomaInf::EMP));
        assert(r@.control_s =~= Seq::new(176, |i: int| 0usize));
        assert(r@.control_e =~= Seq::new(176, |i: int| 0usize));
        assert(r@.hand =~= Seq::new(40, |i: int| 0usize));
        r
    }
}

impl Kyokumen {
    /// Sets up a position: `tesu` moves played, the 81 squares from
    /// `board` (row `r` is rank `r + 1`, column `c` is file `9 - c`), the
    /// pieces in hand from `motigoma`, and both attack maps computed from
    /// the board.  Each king square is the last square holding that king in
    /// rank-major order, or 0.
    pub fn from_3(tesu: usize, board: [[KomaInf; 9]; 9], motigoma: [usize; 40]) -> (s: Self)
        ensures
            s@.ban == laid_out(board),
            s@.banpadding == Seq::new(16, |i: int| KomaInf::Wall),
            s@.hand == motigoma@,
            s.tesu == tesu,
            s.king_s == last_found(laid_out(board), KomaInf::SOU, 81),
            s.king_e == last_found(laid_out(board), KomaInf::EOU, 81),
            s@.consistent(),
            no_marks(board) ==> s@.walls_ok() && s@.kings_ok(),
            s.king_s != 0 ==> s@.ban[s.king_s as int] == KomaInf::SOU,
            s.king_e != 0 ==> s@.ban[s.king_e as int] == KomaInf::EOU,
    {
        let mut s = Kyokumen::default();
        s.king_s = 0;
        s.king_e = 0;
        s.tesu = tesu;
        s.banpadding = [KomaInf::Wall; 16];
        s.ban = [KomaInf::Wall; 176];
        let ghost lay = laid_out(board);
        let mut dan: usize = 1;
        while dan <= 9
            invariant
                1 <= dan <= 10,
                lay == laid_out(board),
                s.tesu == tesu,
                s@.banpadding == Seq::new(16, |i: int| KomaInf::Wall),
                forall|sq: int| 0 <= sq < 176 ==> #[trigger] s.ban@[sq] == (if on_board(sq) && sq % 16 < dan { lay[sq] } else { KomaInf::Wall }),
                s.king_s == last_found(lay, KomaInf::SOU, (dan - 1) * 9),
                s.king_e == last_found(lay, KomaInf::EOU, (dan - 1) * 9),
            decreases 10 - dan,
        {
            let mut suji: usize = 0x10;
            while suji <= 0x90
                invariant
                    1 <= dan <= 9,
                    0x10 <= suji <= 0xa0,
                    suji % 16 == 0,
                    lay == laid_out(board),
                    s.tesu == tesu,
                    s@.banpadding == Seq::new(16, |i: int| KomaInf::Wall),
                    forall|sq: int| 0 <= sq < 176 ==> #[trigger] s.ban@[sq] == (if on_board(sq) && (sq % 16 < dan || (sq % 16 == dan && sq / 16 < suji / 16)) { lay[sq] } else { KomaInf::Wall }),
                    s.king_s == last_found(lay, KomaInf::SOU, (dan - 1) * 9 + suji / 16 - 1),
                    s.king_e == last_found(lay, KomaInf::EOU, (dan - 1) * 9 + suji / 16 - 1),
                decreases 0xa0 - suji,
            {
                let sq = suji + dan;
                let ghost m = (dan - 1) * 9 + suji / 16 - 1;
                assert(order_sq(m) == sq);
                assert(on_board(sq as int));
                s.ban[sq] = board[dan - 1][9 - suji / 0x10];
                assert(s.ban@[sq as int] == lay[sq as int]);
                if s.ban[sq] == KomaInf::SOU {
                    s.king_s = suji + dan;
                }
                if s.ban[sq] == KomaInf::EOU {
                    s.king_e = suji + dan;
                }
                suji += 0x10;
            }
            dan += 1;
        }
        assert(s.ban@ =~= lay);
        let mut i: usize = 0;
        while i <= 39
            invariant
                i <= 40,
                s.ban@ == lay,
                lay == laid_out(board),
                s.tesu == tesu,
                s@.banpadding == Seq::new(16, |i: int| KomaInf::Wall),
                s.king_s == last_found(lay, KomaInf::SOU, 81),
                s.king_e == last_found(lay, KomaInf::EOU, 81),
                forall|j: int| 0 <= j < i ==> s.hand@[j] == motigoma@[j],
            decreases 40 - i,
        {
            s.hand[i] = motigoma[i];
            i += 1;
        }
        assert(s.hand@ =~= motigoma@);
        s.init_control();
        proof {
            lemma_last_found(lay, KomaInf::SOU, 81);
            lemma_last_found(lay, KomaInf::EOU, 81);
            assert forall|sq: int| on_board(sq) implies #[trigger] order_sq(order_index(sq)) == sq
                && 0 <= order_index(sq) < 81 by {
            }
            if no_marks(board) {
                assert forall|sq: int| on_board(sq) implies !(#[trigger] s@.ban[sq]).is_mark() by {
                    assert(!board@[sq % 16 - 1]@[9 - sq / 16].is_mark());
                }
                assert forall|sq: int| on_board(sq) && #[trigger] s@.ban[sq] == KomaInf::SOU implies s.king_s != 0 by {
                    assert(lay[order_sq(order_index(sq))] == KomaInf::SOU);
                }
                assert forall|sq: int| on_board(sq) && #[trigger] s@.ban[sq] == KomaInf::EOU implies s.king_e != 0 by {
                    assert(lay[order_sq(order_index(sq))] == KomaInf::EOU);
                }
            }
        }
        s
    }
}

} // verus!
