//! How each piece moves: the twelve directions, the single steps, the
//! sliding lines and which pieces may promote.
//!
//! A square is `16 * file + rank`.  The first player moves towards rank 1,
//! so its "forward" is `-1`.  Directions 0 to 7 are the eight neighbours;
//! 8 to 11 are the knight's jumps.  Direction `d` and direction `7 - d`
//! are opposite for `d < 8`.

use vstd::prelude::*;
use crate::koma_inf::KomaInf;

verus! {

/// The offset of each direction.
pub open spec fn dir_offset(i: int) -> int {
    if i == 0 { 17 }
    else if i == 1 { 1 }
    else if i == 2 { -15 }
    else if i == 3 { 16 }
    else if i == 4 { -16 }
    else if i == 5 { 15 }
    else if i == 6 { -1 }
    else if i == 7 { -17 }
    else if i == 8 { 14 }
    else if i == 9 { -18 }
    else if i == 10 { 18 }
    else { -14 }
}

/// Whether piece `k` may move one square in direction `dir` (and does not
/// slide that way).
pub open spec fn steps(dir: int, k: KomaInf) -> bool {
    match k {
        KomaInf::SFU => dir == 6,
        KomaInf::EFU => dir == 1,
        KomaInf::SKE => dir == 8 || dir == 9,
        KomaInf::EKE => dir == 10 || dir == 11,
        KomaInf::SGI => dir == 0 || dir == 2 || dir == 5 || dir == 6 || dir == 7,
        KomaInf::EGI => dir == 0 || dir == 1 || dir == 2 || dir == 5 || dir == 7,
        KomaInf::SKI | KomaInf::STO | KomaInf::SNY | KomaInf::SNK | KomaInf::SNG =>
            dir == 1 || dir == 3 || dir == 4 || dir == 5 || dir == 6 || dir == 7,
        KomaInf::EKI | KomaInf::ETO | KomaInf::ENY | KomaInf::ENK | KomaInf::ENG =>
            dir == 0 || dir == 1 || dir == 2 || dir == 3 || dir == 4 || dir == 6,
        KomaInf::SOU | KomaInf::EOU => 0 <= dir < 8,
        KomaInf::SUM | KomaInf::EUM => dir == 1 || dir == 3 || dir == 4 || dir == 6,
        KomaInf::SRY | KomaInf::ERY => dir == 0 || dir == 2 || dir == 5 || dir == 7,
        _ => false,
    }
}

/// Whether piece `k` slides any number of empty squares in direction `dir`.
pub open spec fn slides(dir: int, k: KomaInf) -> bool {
    match k {
        KomaInf::SKY => dir == 6,
        KomaInf::EKY => dir == 1,
        KomaInf::SKA | KomaInf::EKA | KomaInf::SUM | KomaInf::EUM =>
            dir == 0 || dir == 2 || dir == 5 || dir == 7,
        KomaInf::SHI | KomaInf::EHI | KomaInf::SRY | KomaInf::ERY =>
            dir == 1 || dir == 3 || dir == 4 || dir == 6,
        _ => false,
    }
}

/// Whether piece `k` may go to the neighbouring square in direction `dir`,
/// by a step or as the first square of a slide.
pub open spec fn moves_to(dir: int, k: KomaInf) -> bool {
    steps(dir, k) || slides(dir, k)
}

/// Whether piece `k` may promote.
pub open spec fn promotable(k: KomaInf) -> bool {
    match k {
        KomaInf::SFU | KomaInf::SKY | KomaInf::SKE | KomaInf::SGI | KomaInf::SKA | KomaInf::SHI |
        KomaInf::EFU | KomaInf::EKY | KomaInf::EKE | KomaInf::EGI | KomaInf::EKA | KomaInf::EHI => true,
        _ => false,
    }
}

/// The tables of how pieces move.
pub struct KomaMoves {}

impl KomaMoves {
    /// The offset of direction `i`.
    pub fn direct(i: usize) -> (r: isize)
        requires
            i < 12,
        ensures
            r == dir_offset(i as int),
    {
        if i == 0 { 17 }
        else if i == 1 { 1 }
        else if i == 2 { -15 }
        else if i == 3 { 16 }
        else if i == 4 { -16 }
        else if i == 5 { 15 }
        else if i == 6 { -1 }
        else if i == 7 { -17 }
        else if i == 8 { 14 }
        else if i == 9 { -18 }
        else if i == 10 { 18 }
        else { -14 }
    }

    /// Whether `k` may go to the neighbouring square in direction `dir`,
    /// by a step or as the first square of a slide.
    pub fn can_move(dir: usize, k: KomaInf) -> (r: bool)
        ensures
            r == moves_to(dir as int, k),
    {
        if KomaMoves::can_jump(dir, k) {
            return true;
        }
        match k {
            KomaInf::SFU => dir == 6,
            KomaInf::EFU => dir == 1,
            KomaInf::SKE => dir == 8 || dir == 9,
            KomaInf::EKE => dir == 10 || dir == 11,
            KomaInf::SGI => dir == 0 || dir == 2 || dir == 5 || dir == 6 || dir == 7,
            KomaInf::EGI => dir == 0 || dir == 1 || dir == 2 || dir == 5 || dir == 7,
            KomaInf::SKI | KomaInf::STO | KomaInf::SNY | KomaInf::SNK | KomaInf::SNG =>
                dir == 1 || dir == 3 || dir == 4 || dir == 5 || dir == 6 || dir == 7,
            KomaInf::EKI | KomaInf::ETO | KomaInf::ENY | KomaInf::ENK | KomaInf::ENG =>
                dir == 0 || dir == 1 || dir == 2 || dir == 3 || dir == 4 || dir == 6,
            KomaInf::SOU | KomaInf::EOU => dir < 8,
            KomaInf::SUM | KomaInf::EUM => dir == 1 || dir == 3 || dir == 4 || dir == 6,
            KomaInf::SRY | KomaInf::ERY => dir == 0 || dir == 2 || dir == 5 || dir == 7,
            _ => false,
        }
    }

    /// Whether `k` slides in direction `dir`.
    pub fn can_jump(dir: usize, k: KomaInf) -> (r: bool)
        ensures
            r == slides(dir as int, k),
    {
        match k {
            KomaInf::SKY => dir == 6,
            KomaInf::EKY => dir == 1,
            KomaInf::SKA | KomaInf::EKA | KomaInf::SUM | KomaInf::EUM =>
                dir == 0 || dir == 2 || dir == 5 || dir == 7,
            KomaInf::SHI | KomaInf::EHI | KomaInf::SRY | KomaInf::ERY =>
                dir == 1 || dir == 3 || dir == 4 || dir == 6,
            _ => false,
        }
    }

    /// Whether `k` may promote.
    pub fn can_promote(k: KomaInf) -> (r: bool)
        ensures
            r == promotable(k),
    {
        match k {
            KomaInf::SFU | KomaInf::SKY | KomaInf::SKE | KomaInf::SGI | KomaInf::SKA | KomaInf::SHI |
            KomaInf::EFU | KomaInf::EKY | KomaInf::EKE | KomaInf::EGI | KomaInf::EKA | KomaInf::EHI => true,
            _ => false,
        }
    }
}

/// A piece never both steps and slides the same way, and slides only along
/// the eight neighbour directions.
pub proof fn lemma_moves_shape(dir: int, k: KomaInf)
    ensures
        !(steps(dir, k) && slides(dir, k)),
        slides(dir, k) ==> 0 <= dir < 8,
        steps(dir, k) ==> 0 <= dir < 12,
        (steps(dir, k) || slides(dir, k)) ==> !k.is_mark() && k != KomaInf::EMP,
{
}

} // verus!
