//! A move.

use vstd::prelude::*;
use crate::koma_inf::KomaInf;
use crate::USquare;

verus! {

/// A move: from where to where, which piece, what it takes, whether it
/// promotes.  A drop has `from` at most `0x10`.
#[derive(Clone, Copy, Debug)]
pub struct Te {
    /// The square the piece leaves (at most `0x10` for a drop).
    pub from: u8,
    /// The square the piece arrives at.
    pub to: u8,
    /// The code of the piece that moves.
    pub koma: u8,
    /// The code of what stands on `to` before the move.
    pub capture: u8,
    /// Not zero when the piece promotes.
    pub promote: u8,
    /// A class of the move, for use by a search.
    pub kind: u8,
    /// A provisional worth of the move, for use by a search.
    pub value: i16,
}

/// The move with the given squares, pieces and promotion, with `kind` and
/// `value` zero.
pub open spec fn te_of(f: int, t: int, k: KomaInf, c: KomaInf, p: u8) -> Te {
    Te { from: f as u8, to: t as u8, koma: k.value(), capture: c.value(), promote: p, kind: 0, value: 0 }
}

impl Te {
    /// Two moves are the same move when they agree on `from`, `to`, the
    /// piece and the promotion; `capture`, `kind` and `value` do not count.
    pub open spec fn same_move(self, other: Te) -> bool {
        &&& other.from == self.from
        &&& other.to == self.to
        &&& other.koma == self.koma
        &&& other.promote == self.promote
    }

    /// Being the same move is an equivalence: every move is the same move
    /// as itself, and the relation is symmetric and transitive.
    pub proof fn lemma_same_move_equivalence(a: Te, b: Te, c: Te)
        ensures
            a.same_move(a),
            a.same_move(b) == b.same_move(a),
            a.same_move(b) && b.same_move(c) ==> a.same_move(c),
    {
    }

    /// A move with no promotion, `kind` or `value`.
    pub fn from_4(f: USquare, t: USquare, k: KomaInf, c: KomaInf) -> (r: Te)
        ensures
            r == te_of(f as int, t as int, k, c, 0),
    {
        Te::from_7(f, t, k, c, 0, 0, 0)
    }

    /// A move with no `kind` or `value`.
    pub fn from_5(f: USquare, t: USquare, k: KomaInf, c: KomaInf, p: u8) -> (r: Te)
        ensures
            r == te_of(f as int, t as int, k, c, p),
    {
        Te::from_7(f, t, k, c, p, 0, 0)
    }

    /// A move from all its fields; the squares are cut to a byte.
    pub fn from_7(f: USquare, t: USquare, ko: KomaInf, c: KomaInf, p: u8, ki: u8, v: i16) -> (r: Te)
        ensures
            r == (Te { from: f as u8, to: t as u8, koma: ko.value(), capture: c.value(),
                promote: p, kind: ki, value: v }),
    {
        Te {
            from: f as u8,
            to: t as u8,
            koma: ko.as_u8(),
            capture: c.as_u8(),
            promote: p,
            kind: ki,
            value: v,
        }
    }

    /// Whether the move goes from square 0 to square 0: no move at all.
    pub fn is_null(&self) -> (r: bool)
        ensures
            r == (self.from == 0 && self.to == 0),
    {
        self.from == 0 && self.to == 0
    }
}

impl Default for Te {
    /// The null move: all fields zero.
    fn default() -> (r: Te)
        ensures
            r == te_of(0, 0, KomaInf::EMP, KomaInf::EMP, 0),
    {
        Te {
            from: 0,
            to: 0,
            koma: KomaInf::EMP.as_u8(),
            capture: KomaInf::EMP.as_u8(),
            promote: 0,
            kind: 0,
            value: 0,
        }
    }
}

impl PartialEq for Te {
    /// Two moves are equal when they agree on `from`, `to`, the piece and
    /// the promotion.
    fn eq(&self, other: &Self) -> (r: bool) {
        other.from == self.from && other.to == self.to && other.koma == self.koma
            && other.promote == self.promote
    }
}

impl vstd::std_specs::cmp::PartialEqSpecImpl for Te {
    open spec fn obeys_eq_spec() -> bool {
        true
    }

    open spec fn eq_spec(&self, other: &Te) -> bool {
        self.same_move(*other)
    }
}

} // verus!
