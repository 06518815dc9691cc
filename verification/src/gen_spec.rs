//! What the move generator produces, move by move and in order.

use vstd::prelude::*;
use crate::koma_inf::KomaInf;
use crate::koma_moves::{dir_offset, moves_to, promotable, steps, slides};
use crate::kyokumen::KyokumenView;
use crate::te::{Te, te_of};

verus! {

/// Whether a pin entry lets a piece move along offset `o`: not pinned, or
/// pinned along that line.
pub open spec fn pin_allows(pin: isize, o: int) -> bool {
    pin == 0 || pin == o || pin == -o
}

/// The piece `kind` (a code below 16) of player `side`.
pub open spec fn piece(side: KomaInf, kind: KomaInf) -> KomaInf {
    KomaInf::from_value((side.value() | kind.value()) as u8).unwrap()
}

/// The moves of the piece on `from` to `from + diff`: nothing when the
/// line is the excluded one `r_pin`, when the pin forbids it or when `to`
/// holds a piece of `side`; otherwise a forced promotion on the last
/// ranks, or an optional promotion then the plain move.
#[verifier::opaque]
pub open spec fn add_move_spec(v: KyokumenView, side: KomaInf, from: int, diff: int, pin: int, r_pin: int) -> Seq<Te> {
    if r_pin == diff || r_pin == -diff {
        seq![]
    } else {
        let to = from + diff;
        let dan = to % 16;
        let from_dan = from % 16;
        let k = v.ban[from];
        let c = v.at(to);
        if (pin == 0 || pin == diff || pin == -diff) && c.value() & side.value() == 0 {
            let p1 = te_of(from, to, k, c, 1);
            let p0 = te_of(from, to, k, c, 0);
            if k == KomaInf::SKE && dan <= 2 {
                seq![p1]
            } else if (k == KomaInf::SFU || k == KomaInf::SKY) && dan <= 1 {
                seq![p1]
            } else if k == KomaInf::EKE && dan >= 8 {
                seq![p1]
            } else if (k == KomaInf::EFU || k == KomaInf::EKY) && dan >= 9 {
                seq![p1]
            } else if side == KomaInf::Self_ && (from_dan <= 3 || dan <= 3) && promotable(k) {
                seq![p1, p0]
            } else if side == KomaInf::Enemy && (from_dan >= 7 || dan >= 7) && promotable(k) {
                seq![p1, p0]
            } else {
                seq![p0]
            }
        } else {
            seq![]
        }
    }
}

/// The slide of the piece on `from` along `dir`, from the square
/// `from + i` on: every empty square, then the first occupied one unless it
/// holds a piece of `side`.
pub open spec fn slide_spec(v: KyokumenView, side: KomaInf, from: int, dir: int, i: int) -> Seq<Te>
    decreases (if dir > 0 { 176 - (from + i) } else { from + i }),
{
    let t = from + i;
    if dir == 0 || t < 0 || t >= 176 {
        seq![]
    } else if v.ban[t] == KomaInf::EMP {
        if 0 <= t + dir < 176 {
            add_move_spec(v, side, from, i, 0, 0) + slide_spec(v, side, from, dir, i + dir)
        } else {
            add_move_spec(v, side, from, i, 0, 0)
        }
    } else if v.ban[t].value() & side.value() == 0 {
        add_move_spec(v, side, from, i, 0, 0)
    } else {
        seq![]
    }
}

/// The moves of a sliding piece on `from` along `dir`.
#[verifier::opaque]
pub open spec fn add_straight_spec(v: KyokumenView, side: KomaInf, from: int, dir: int, pin: int, r_pin: int) -> Seq<Te> {
    if dir == r_pin || dir == -r_pin {
        seq![]
    } else if pin == 0 || pin == dir || pin == -dir {
        slide_spec(v, side, from, dir, dir)
    } else {
        seq![]
    }
}

/// The king's move to the neighbour against direction `i`, kept when the
/// square is empty or holds a piece of the other player, is not reached by
/// the other player, and is not on the far side of a sliding check
/// (`kiki` bit `23 - i`).
pub open spec fn king_step_spec(v: KyokumenView, side: KomaInf, kiki: usize, i: int) -> Seq<Te> {
    let king = v.king(side) as int;
    let sq = king - dir_offset(i);
    let koma = v.ban[sq];
    let opp = side.opponent();
    if (koma == KomaInf::EMP || koma.value() & opp.value() != 0)
        && v.control(opp)[sq] == 0
        && kiki & (1usize << ((23 - i) as usize)) == 0 {
        add_move_spec(v, side, king, -dir_offset(i), 0, 0)
    } else {
        seq![]
    }
}

/// The first of the step bits 0 to 7 set in `kiki`, from `i` on.
pub open spec fn first_step_bit(kiki: usize, i: int) -> Option<int>
    decreases 8 - i,
{
    if i >= 8 {
        None
    } else if kiki & (1usize << (i as usize)) != 0 {
        Some(i)
    } else {
        first_step_bit(kiki, i + 1)
    }
}

/// The king's steps in directions `i..8`, skipping `skip`.
pub open spec fn king_steps_from(v: KyokumenView, side: KomaInf, kiki: usize, skip: Option<int>, i: int) -> Seq<Te>
    decreases 8 - i,
{
    if i >= 8 {
        seq![]
    } else if skip == Some(i) {
        king_steps_from(v, side, kiki, skip, i + 1)
    } else {
        king_step_spec(v, side, kiki, i) + king_steps_from(v, side, kiki, skip, i + 1)
    }
}

/// The king's moves: first the capture of an adjacent checking piece (the
/// lowest step bit of `kiki` among 0 to 7), then the other seven steps.
#[verifier::opaque]
pub open spec fn move_king_spec(v: KyokumenView, side: KomaInf, kiki: usize) -> Seq<Te> {
    let id = first_step_bit(kiki, 0);
    let first = match id {
        Some(i) => king_step_spec(v, side, kiki, i),
        None => seq![],
    };
    first + king_steps_from(v, side, kiki, id, 0)
}

/// The moves of the piece on `from`, by kind.
pub open spec fn add_moves_spec(v: KyokumenView, side: KomaInf, from: int, pin: int, r_pin: int) -> Seq<Te> {
    match v.ban[from] {
        KomaInf::SFU =>
            add_move_spec(v, side, from, -1, pin, r_pin),
        KomaInf::EFU =>
            add_move_spec(v, side, from, 1, pin, r_pin),
        KomaInf::SKY =>
            add_straight_spec(v, side, from, -1, pin, r_pin),
        KomaInf::EKY =>
            add_straight_spec(v, side, from, 1, pin, r_pin),
        KomaInf::SKE =>
            add_move_spec(v, side, from, 14, pin, r_pin)
            + add_move_spec(v, side, from, -18, pin, r_pin),
        KomaInf::EKE =>
            add_move_spec(v, side, from, -14, pin, r_pin)
            + add_move_spec(v, side, from, 18, pin, r_pin),
        KomaInf::SGI =>
            add_move_spec(v, side, from, -1, pin, r_pin)
            + add_move_spec(v, side, from, -17, pin, r_pin)
            + add_move_spec(v, side, from, 15, pin, r_pin)
            + add_move_spec(v, side, from, 17, pin, r_pin)
            + add_move_spec(v, side, from, -15, pin, r_pin),
        KomaInf::EGI =>
            add_move_spec(v, side, from, 1, pin, r_pin)
            + add_move_spec(v, side, from, 17, pin, r_pin)
            + add_move_spec(v, side, from, -15, pin, r_pin)
            + add_move_spec(v, side, from, -17, pin, r_pin)
            + add_move_spec(v, side, from, 15, pin, r_pin),
        KomaInf::SKI | KomaInf::STO | KomaInf::SNY | KomaInf::SNK | KomaInf::SNG =>
            add_move_spec(v, side, from, -1, pin, r_pin)
            + add_move_spec(v, side, from, -17, pin, r_pin)
            + add_move_spec(v, side, from, 15, pin, r_pin)
            + add_move_spec(v, side, from, 1, pin, r_pin)
            + add_move_spec(v, side, from, -16, pin, r_pin)
            + add_move_spec(v, side, from, 16, pin, r_pin),
        KomaInf::EKI | KomaInf::ETO | KomaInf::ENY | KomaInf::ENK | KomaInf::ENG =>
            add_move_spec(v, side, from, 1, pin, r_pin)
            + add_move_spec(v, side, from, 17, pin, r_pin)
            + add_move_spec(v, side, from, -15, pin, r_pin)
            + add_move_spec(v, side, from, -1, pin, r_pin)
            + add_move_spec(v, side, from, -16, pin, r_pin)
            + add_move_spec(v, side, from, 16, pin, r_pin),
        KomaInf::SRY | KomaInf::ERY =>
            add_straight_spec(v, side, from, 1, pin, r_pin)
            + add_straight_spec(v, side, from, -1, pin, r_pin)
            + add_straight_spec(v, side, from, -16, pin, r_pin)
            + add_straight_spec(v, side, from, 16, pin, r_pin)
            + add_move_spec(v, side, from, 17, pin, r_pin)
            + add_move_spec(v, side, from, -15, pin, r_pin)
            + add_move_spec(v, side, from, -17, pin, r_pin)
            + add_move_spec(v, side, from, 15, pin, r_pin),
        KomaInf::SHI | KomaInf::EHI =>
            add_straight_spec(v, side, from, 1, pin, r_pin)
            + add_straight_spec(v, side, from, -1, pin, r_pin)
            + add_straight_spec(v, side, from, -16, pin, r_pin)
            + add_straight_spec(v, side, from, 16, pin, r_pin),
        KomaInf::SUM | KomaInf::EUM =>
            add_straight_spec(v, side, from, 17, pin, r_pin)
            + add_straight_spec(v, side, from, -17, pin, r_pin)
            + add_straight_spec(v, side, from, 15, pin, r_pin)
            + add_straight_spec(v, side, from, -15, pin, r_pin)
            + add_move_spec(v, side, from, 1, pin, r_pin)
            + add_move_spec(v, side, from, 16, pin, r_pin)
            + add_move_spec(v, side, from, -16, pin, r_pin)
            + add_move_spec(v, side, from, -1, pin, r_pin),
        KomaInf::SKA | KomaInf::EKA =>
            add_straight_spec(v, side, from, 17, pin, r_pin)
            + add_straight_spec(v, side, from, -17, pin, r_pin)
            + add_straight_spec(v, side, from, 15, pin, r_pin)
            + add_straight_spec(v, side, from, -15, pin, r_pin),
        KomaInf::SOU | KomaInf::EOU => move_king_spec(v, side, 0),
        _ => seq![],
    }
}

/// Whether the piece on `p` counts for `count_move` in direction `dir`:
/// it carries the mark of `side` and its pin allows the line.
pub open spec fn counts_at(v: KyokumenView, side: KomaInf, pin: Seq<isize>, dir: int, p: int) -> bool {
    &&& v.at(p).value() & side.value() != 0
    &&& pin_allows(pin[p], dir_offset(dir))
}

/// The bits `count_move` has collected after the first `n` directions:
/// bit `d` when the neighbour `sq - DIRECT[d]` is a piece of `side` that
/// steps onto `sq`, bit `16 + d` when the first piece found going back
/// from `sq` against direction `d` is a piece of `side` that slides onto
/// `sq`; each only when the piece's pin allows the line.
pub open spec fn count_move_upto(v: KyokumenView, side: KomaInf, sq: int, pin: Seq<isize>, n: int) -> usize
    decreases n,
{
    if n <= 0 {
        0
    } else {
        let d = n - 1;
        let acc = count_move_upto(v, side, sq, pin, d);
        let o = dir_offset(d);
        let q = v.walk(sq, -o);
        if steps(d, v.at(sq - o)) && counts_at(v, side, pin, d, sq - o) {
            acc | (1usize << (d as usize))
        } else if slides(d, v.at(q)) && counts_at(v, side, pin, d, q) {
            acc | (1usize << ((16 + d) as usize))
        } else {
            acc
        }
    }
}

impl KyokumenView {
    /// The position with `k` on `sq`.
    pub open spec fn with_koma(self, sq: int, k: KomaInf) -> KyokumenView {
        KyokumenView { ban: self.ban.update(sq, k), ..self }
    }
}

/// Whether dropping a pawn of `side` on `to` has to be checked for a mate:
/// `to` is the square in front of the other king.
pub open spec fn utifudume_guard(v: KyokumenView, side: KomaInf, to: int) -> bool {
    if side == KomaInf::Self_ {
        v.king_e + 1 == to
    } else {
        v.king_s == to + 1
    }
}

/// Whether the king of `side` has an escape square in some direction
/// `i` below 8: one without a piece of its own player and not reached by
/// the other player.
pub open spec fn king_escapes(v: KyokumenView, side: KomaInf) -> bool {
    let king = v.king(side) as int;
    let opp = side.opponent();
    exists|i: int| 0 <= i < 8 && {
        let sq = #[trigger] (king - dir_offset(i));
        &&& v.ban[sq].value() & side.value() == 0
        &&& v.control(opp)[sq] == 0
    }
}

/// Whether a pawn of `side` dropped on `to` would be a pawn-drop mate, as
/// the generator judges it: the square is in front of the other king, the
/// dropping player reaches it, the only piece of the other player that
/// could take it is that king (stepping onto it: bit 1 for a first
/// player's pawn, bit 6 for a second player's), and the king has no
/// escape.
#[verifier::opaque]
pub open spec fn utifudume_spec(v: KyokumenView, side: KomaInf, to: int, pin: Seq<isize>) -> bool {
    if !utifudume_guard(v, side, to) {
        false
    } else {
        let v1 = v.with_koma(to, piece(side, KomaInf::FU));
        if side == KomaInf::Self_ {
            v1.control_s[to] != 0 && count_move_upto(v1, KomaInf::Enemy, to, pin, 12) == 1usize << 1usize
                && !king_escapes(v1, KomaInf::Enemy)
        } else {
            v1.control_e[to] != 0 && count_move_upto(v1, KomaInf::Self_, to, pin, 12) == 1usize << 6usize
                && !king_escapes(v1, KomaInf::Self_)
        }
    }
}

/// Whether file `suji` (times 16) holds a pawn of `side`.
pub open spec fn nifu(v: KyokumenView, side: KomaInf, suji: int) -> bool {
    exists|d: int| 1 <= d <= 9 && #[trigger] v.ban[suji + d] == piece(side, KomaInf::FU)
}

/// The drops of silver to rook on `to`, kinds `koma..=7`.
pub open spec fn drops_from(v: KyokumenView, side: KomaInf, to: int, koma: int) -> Seq<Te>
    decreases 8 - koma,
{
    if koma > 7 {
        seq![]
    } else {
        let k = KomaInf::from_value((side.value() | koma as u8) as u8).unwrap();
        (if v.hand[(side.value() | koma as u8) as int] > 0 { seq![te_of(0, to, k, KomaInf::EMP, 0)] } else { seq![] })
            + drops_from(v, side, to, koma + 1)
    }
}

/// The rank of `to` as seen by `side`: counted from the far end for the
/// second player.
pub open spec fn rank_for(side: KomaInf, to: int) -> int {
    if side == KomaInf::Enemy { 10 - to % 16 } else { to % 16 }
}

/// The pawn drop on `to` (on a file without a pawn of `side`, not on the
/// last rank, not a pawn-drop mate).
#[verifier::opaque]
pub open spec fn fu_drop_spec(v: KyokumenView, side: KomaInf, to: int, pin: Seq<isize>) -> Seq<Te> {
    let fu = piece(side, KomaInf::FU);
    if v.hand[fu.value() as int] > 0 && rank_for(side, to) > 1 && !nifu(v, side, to - to % 16)
        && !utifudume_spec(v, side, to, pin) {
        seq![te_of(0, to, fu, KomaInf::EMP, 0)]
    } else {
        seq![]
    }
}

/// The drops on `to`: a pawn (see `fu_drop_spec`), a lance (not on the
/// last rank), a knight (not on the last two ranks), then silver to rook.
#[verifier::opaque]
pub open spec fn put_to_spec(v: KyokumenView, side: KomaInf, to: int, pin: Seq<isize>) -> Seq<Te> {
    let dan = rank_for(side, to);
    let ky = piece(side, KomaInf::KY);
    let ke = piece(side, KomaInf::KE);
    let m2 = if v.hand[ky.value() as int] > 0 && dan > 1 { seq![te_of(0, to, ky, KomaInf::EMP, 0)] } else { seq![] };
    let m3 = if v.hand[ke.value() as int] > 0 && dan > 2 { seq![te_of(0, to, ke, KomaInf::EMP, 0)] } else { seq![] };
    fu_drop_spec(v, side, to, pin) + m2 + m3 + drops_from(v, side, to, 4)
}

/// The moves onto `to` of the pieces of `side` other than the king that
/// reach it in direction `dir`: the neighbour `to - DIRECT[dir]` when it
/// steps or slides that way, or else, along the eight lines, the first
/// piece found going back from `to` when it slides that way; each only
/// when its pin allows the line.
pub open spec fn move_to_dir(v: KyokumenView, side: KomaInf, to: int, pin: Seq<isize>, dir: int) -> Seq<Te> {
    let o = dir_offset(dir);
    let p = to - o;
    let k = v.at(p);
    let q = v.walk(to, -o);
    let kq = v.at(q);
    if k != KomaInf::EMP {
        if k.value() & side.value() != 0 && k != piece(side, KomaInf::OU) && moves_to(dir, k)
            && pin_allows(pin[p], o) {
            add_move_spec(v, side, p, o, 0, 0)
        } else {
            seq![]
        }
    } else if dir < 8 && kq.value() & side.value() != 0 && kq != piece(side, KomaInf::OU) && slides(dir, kq)
        && pin_allows(pin[q], o) {
        add_move_spec(v, side, q, to - q, 0, 0)
    } else {
        seq![]
    }
}

/// The moves onto `to` over directions `dir..12` (see `move_to_dir`).
pub open spec fn move_to_from(v: KyokumenView, side: KomaInf, to: int, pin: Seq<isize>, dir: int) -> Seq<Te>
    decreases 12 - dir,
{
    if dir >= 12 || dir < 0 {
        seq![]
    } else {
        move_to_dir(v, side, to, pin, dir) + move_to_from(v, side, to, pin, dir + 1)
    }
}

/// The moves of the pieces of `side` other than the king onto `to`.
pub open spec fn move_to_spec(v: KyokumenView, side: KomaInf, to: int, pin: Seq<isize>) -> Seq<Te> {
    move_to_from(v, side, to, pin, 0)
}

/// The index `id` from `i` on with `kiki == 1 << id`, or 32.
pub open spec fn single_bit_index(kiki: usize, i: int) -> int
    decreases 32 - i,
{
    if i > 31 {
        32
    } else if kiki == 1usize << (i as usize) {
        i
    } else {
        single_bit_index(kiki, i + 1)
    }
}

/// The moves onto the empty squares from `i` on, going `-off` at a time,
/// up to the first occupied square (see `move_to_spec`).
pub open spec fn interpose_moves(v: KyokumenView, side: KomaInf, i: int, off: int, pin: Seq<isize>) -> Seq<Te>
    decreases (if off < 0 { 176 - i } else { i }),
{
    if off == 0 || i < 0 || i >= 176 {
        seq![]
    } else if v.ban[i] != KomaInf::EMP {
        seq![]
    } else {
        move_to_spec(v, side, i, pin) + (if 0 <= i - off < 176 { interpose_moves(v, side, i - off, off, pin) } else { seq![] })
    }
}

/// The drops on the empty squares from `i` on, going `-off` at a time,
/// up to the first occupied square.
pub open spec fn interpose_spec(v: KyokumenView, side: KomaInf, i: int, off: int, pin: Seq<isize>) -> Seq<Te>
    decreases (if off < 0 { 176 - i } else { i }),
{
    if off == 0 || i < 0 || i >= 176 {
        seq![]
    } else if v.ban[i] != KomaInf::EMP {
        seq![]
    } else {
        put_to_spec(v, side, i, pin) + (if 0 <= i - off < 176 { interpose_spec(v, side, i - off, off, pin) } else { seq![] })
    }
}

/// The square of the piece that gives the single check `kiki` (bit `id`)
/// to the king on `king`: the neighbour for a step, the first piece found
/// going back along the line for a slide.
pub open spec fn checking_square(v: KyokumenView, king: int, id: int) -> int {
    if id < 16 { king - dir_offset(id) } else { v.walk(king, -dir_offset(id - 16)) }
}

/// The answers to a check given by `kiki`: against a double check only king
/// moves; else the moves taking the checking piece, the king moves, and,
/// against a sliding check, the moves then the drops onto the squares
/// between.
#[verifier::opaque]
pub open spec fn anti_check_spec(v: KyokumenView, side: KomaInf, pin: Seq<isize>, kiki: usize) -> Seq<Te> {
    if kiki & ((kiki - 1) as usize) != 0 {
        move_king_spec(v, side, kiki)
    } else {
        let king = v.king(side) as int;
        let id = single_bit_index(kiki, 0);
        let check = checking_square(v, king, id);
        let m1 = move_to_spec(v, side, check, pin);
        let m2 = move_king_spec(v, side, kiki);
        if id >= 16 {
            let off = dir_offset(id - 16);
            m1 + m2 + interpose_moves(v, side, king - off, off, pin) + interpose_spec(v, side, king - off, off, pin)
        } else {
            m1 + m2
        }
    }
}

/// The moves of the pieces of `side` on files `s..=9`, ranks `d..=9` of
/// file `s`, file by file.
pub open spec fn board_moves_spec(v: KyokumenView, side: KomaInf, pin: Seq<isize>, s: int, d: int) -> Seq<Te>
    decreases 10 - s, 10 - d,
{
    if s > 9 || s < 1 || d < 1 {
        seq![]
    } else if d > 9 {
        board_moves_spec(v, side, pin, s + 1, 1)
    } else {
        let sq = 16 * s + d;
        (if v.ban[sq].value() & side.value() != 0 { add_moves_spec(v, side, sq, pin[sq] as int, 0) } else { seq![] })
            + board_moves_spec(v, side, pin, s, d + 1)
    }
}

/// Drops of piece `k` on the empty squares of file `s`, ranks `d..=hi`;
/// with `fu`, only where the pawn-drop test says no.
pub open spec fn column_drops(v: KyokumenView, side: KomaInf, pin: Seq<isize>, k: KomaInf, fu: bool, s: int, d: int, hi: int) -> Seq<Te>
    decreases 10 - d,
{
    if d > hi || d > 9 || d < 1 {
        seq![]
    } else {
        let sq = 16 * s + d;
        (if v.ban[sq] == KomaInf::EMP && !(fu && utifudume_spec(v, side, sq, pin)) {
            seq![te_of(0, sq, k, KomaInf::EMP, 0)]
        } else {
            seq![]
        }) + column_drops(v, side, pin, k, fu, s, d + 1, hi)
    }
}

/// Drops of piece `k` on files `s..=9`, ranks `lo..=hi`; with `fu`, files
/// that already hold a pawn of `side` are skipped.
pub open spec fn file_drops(v: KyokumenView, side: KomaInf, pin: Seq<isize>, k: KomaInf, fu: bool, s: int, lo: int, hi: int) -> Seq<Te>
    decreases 10 - s,
{
    if s > 9 || s < 1 {
        seq![]
    } else {
        (if fu && nifu(v, side, 16 * s) { seq![] } else { column_drops(v, side, pin, k, fu, s, lo, hi) })
            + file_drops(v, side, pin, k, fu, s + 1, lo, hi)
    }
}

/// Drops of silver to rook, kinds `koma..=7`, on every empty square.
pub open spec fn hand_drops(v: KyokumenView, side: KomaInf, pin: Seq<isize>, koma: int) -> Seq<Te>
    decreases 8 - koma,
{
    if koma > 7 {
        seq![]
    } else {
        let k = KomaInf::from_value((side.value() | koma as u8) as u8).unwrap();
        (if v.hand[(side.value() | koma as u8) as int] > 0 { file_drops(v, side, pin, k, false, 1, 1, 9) } else { seq![] })
            + hand_drops(v, side, pin, koma + 1)
    }
}

/// The moves when not in check: the pieces on the board, then pawn drops,
/// lance drops, knight drops and the other drops.
pub open spec fn quiet_moves_spec(v: KyokumenView, side: KomaInf, pin: Seq<isize>) -> Seq<Te> {
    let fu = piece(side, KomaInf::FU);
    let ky = piece(side, KomaInf::KY);
    let ke = piece(side, KomaInf::KE);
    let own = side == KomaInf::Self_;
    board_moves_spec(v, side, pin, 1, 1)
        + (if v.hand[fu.value() as int] > 0 { file_drops(v, side, pin, fu, true, 1, if own { 2 } else { 1 }, if own { 9 } else { 8 }) } else { seq![] })
        + (if v.hand[ky.value() as int] > 0 { file_drops(v, side, pin, ky, false, 1, if own { 2 } else { 1 }, if own { 9 } else { 8 }) } else { seq![] })
        + (if v.hand[ke.value() as int] > 0 { file_drops(v, side, pin, ke, false, 1, if own { 3 } else { 1 }, if own { 9 } else { 7 }) } else { seq![] })
        + hand_drops(v, side, pin, 4)
}

/// Everything the generator produces for `side` with pin table `pin`: the
/// answers to check when the king of `side` is reached by the other
/// player, the quiet moves otherwise.
pub open spec fn legal_moves_spec(v: KyokumenView, side: KomaInf, pin: Seq<isize>) -> Seq<Te> {
    let opp = side.opponent();
    let king = v.king(side) as int;
    if v.control(opp)[king] != 0 {
        anti_check_spec(v, side, pin, v.control(opp)[king])
    } else {
        quiet_moves_spec(v, side, pin)
    }
}


/// The pin table with the squares `0x11..=0x99` cleared.
pub open spec fn pin_cleared(pin: Seq<isize>) -> Seq<isize> {
    Seq::new(176, |j: int| if 0x11 <= j <= 0x99 { 0isize } else { pin[j] })
}

/// The pins against the first player's king over directions `0..n`: the
/// first piece from the king along direction `i`, if it is not a wall, has
/// no second player's mark and lies on a slide of the second player
/// towards the king (direction `7 - i`), is pinned along `DIRECT[i]`.
pub open spec fn pins_s_upto(v: KyokumenView, pin: Seq<isize>, n: int) -> Seq<isize>
    decreases n,
{
    if n <= 0 {
        pin
    } else {
        let prev = pins_s_upto(v, pin, n - 1);
        let i = n - 1;
        let p = v.walk(v.king_s as int, dir_offset(i));
        if v.ban[p] != KomaInf::Wall && v.ban[p].value() & KomaInf::Enemy.value() == 0
            && v.control_e[p] & (1usize << ((23 - i) as usize)) != 0 {
            prev.update(p, dir_offset(i) as isize)
        } else {
            prev
        }
    }
}

/// The pins against the second player's king over directions `0..n`: the
/// first piece from the king against direction `i`, if it is not a wall,
/// carries the second player's mark and lies on a slide of the first
/// player along `i`, is pinned along `DIRECT[i]`.
pub open spec fn pins_e_upto(v: KyokumenView, pin: Seq<isize>, n: int) -> Seq<isize>
    decreases n,
{
    if n <= 0 {
        pin
    } else {
        let prev = pins_e_upto(v, pin, n - 1);
        let i = n - 1;
        let p = v.walk(v.king_e as int, -dir_offset(i));
        if v.ban[p] != KomaInf::Wall && v.ban[p].value() & KomaInf::Enemy.value() != 0
            && v.control_s[p] & (1usize << ((16 + i) as usize)) != 0 {
            prev.update(p, dir_offset(i) as isize)
        } else {
            prev
        }
    }
}

/// The pin table `make_pin_inf` writes over `pin`.
pub open spec fn pin_spec(v: KyokumenView, pin: Seq<isize>) -> Seq<isize> {
    let p1 = pin_cleared(pin);
    let p2 = if v.king_s != 0 { pins_s_upto(v, p1, 8) } else { p1 };
    if v.king_e != 0 { pins_e_upto(v, p2, 8) } else { p2 }
}

/// What answering a check given by `kiki` needs to run: `kiki` is not
/// zero; a single check is either a step whose origin is a square of the
/// board, or a slide whose origin, found going back from the king, is a
/// square of the board.
pub open spec fn check_answerable(v: KyokumenView, side: KomaInf, kiki: usize) -> bool {
    let king = v.king(side) as int;
    let id = single_bit_index(kiki, 0);
    &&& kiki != 0
    &&& kiki & ((kiki - 1) as usize) == 0 ==> {
            ||| (id < 12 && crate::kyokumen::on_board(king - dir_offset(id)))
            ||| (16 <= id < 24 && crate::kyokumen::on_board(v.walk(king, -dir_offset(id - 16))))
        }
}

} // verus!
