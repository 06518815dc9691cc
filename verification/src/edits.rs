//! The edits a move makes to an attack map: taking away the bits of one
//! piece, letting slides run on through a square that was emptied, and
//! cutting the slides that a newly filled square stops.

use vstd::prelude::*;
use crate::koma_inf::KomaInf;
use crate::koma_moves::{KomaMoves, dir_offset, slides};
use crate::kyokumen::on_board;
use crate::control::{ray_reaches, bit, framed, lemma_ray_direction};
use crate::slides::{bounded_from, clear_step, clear_slide, set_slide, step_cleared, slide_cleared, slide_set};
use crate::Kiki;

verus! {

/// The bits that piece `k` standing on `sq` would give: each slide bit
/// along its slides, and the step bit of each direction it does not slide
/// (of every direction, when `every_step`).
pub open spec fn piece_bits(ban: Seq<KomaInf>, sq: int, k: KomaInf, x: int, b: int, every_step: bool) -> bool {
    ||| (0 <= b < 12 && (every_step || !slides(b, k)) && x == sq + dir_offset(b))
    ||| (16 <= b < 24 && slides(b - 16, k) && ray_reaches(ban, sq, dir_offset(b - 16), x))
}

/// `c` is `c0` without the bits of `piece_bits`.
pub open spec fn removed_from(c0: Seq<usize>, c: Seq<usize>, ban: Seq<KomaInf>, sq: int, k: KomaInf, every_step: bool) -> bool {
    forall|x: int, b: usize| 0 <= x < 176 && b < 24 ==>
        (#[trigger] bit(c[x], b) <==> bit(c0[x], b) && !piece_bits(ban, sq, k, x, b as int, every_step))
}

/// `c` is `c0` with every slide bit found on `sq` carried on along the
/// slide from `sq`.
pub open spec fn extended_from(c0: Seq<usize>, c: Seq<usize>, ban: Seq<KomaInf>, sq: int) -> bool {
    forall|x: int, b: usize| 0 <= x < 176 && b < 24 ==>
        (#[trigger] bit(c[x], b) <==> bit(c0[x], b)
            || (16 <= b && bit(c0[sq], b) && ray_reaches(ban, sq, dir_offset(b - 16), x)))
}

/// `c` is `c0` with every slide bit found on `sq` taken off the slide
/// beyond `sq`.
pub open spec fn cut_from(c0: Seq<usize>, c: Seq<usize>, ban: Seq<KomaInf>, sq: int) -> bool {
    forall|x: int, b: usize| 0 <= x < 176 && b < 24 ==>
        (#[trigger] bit(c[x], b) <==> bit(c0[x], b)
            && !(16 <= b && bit(c0[sq], b) && ray_reaches(ban, sq, dir_offset(b - 16), x)))
}

/// The map after taking away, over directions `0..n`, the bits of the
/// piece `k` that leaves `sq`: in each direction the step bit, then the
/// slide bits when `k` slides that way.
pub open spec fn lift_upto(c: Seq<usize>, ban: Seq<KomaInf>, sq: int, k: KomaInf, n: int) -> Seq<usize>
    decreases n,
{
    if n <= 0 {
        c
    } else {
        let c1 = step_cleared(lift_upto(c, ban, sq, k, n - 1), sq, n - 1);
        if slides(n - 1, k) { slide_cleared(c1, ban, sq, n - 1) } else { c1 }
    }
}

/// The map after taking away, over directions `0..n`, the bits of the
/// piece `k` taken on `sq`: in each direction the slide bits when `k`
/// slides that way, else the step bit.
pub open spec fn take_upto(c: Seq<usize>, ban: Seq<KomaInf>, sq: int, k: KomaInf, n: int) -> Seq<usize>
    decreases n,
{
    if n <= 0 {
        c
    } else {
        let c1 = take_upto(c, ban, sq, k, n - 1);
        if slides(n - 1, k) { slide_cleared(c1, ban, sq, n - 1) } else { step_cleared(c1, sq, n - 1) }
    }
}

/// The map after carrying on, over directions `0..n`, each slide bit
/// found on `sq` along the slide from `sq`.
pub open spec fn extend_upto(c: Seq<usize>, ban: Seq<KomaInf>, sq: int, n: int) -> Seq<usize>
    decreases n,
{
    if n <= 0 {
        c
    } else {
        let c1 = extend_upto(c, ban, sq, n - 1);
        if c1[sq] & (1usize << ((n - 1 + 16) as usize)) != 0 { slide_set(c1, ban, sq, n - 1) } else { c1 }
    }
}

/// The map after taking off, over directions `0..n`, each slide bit found
/// on `sq` from the slide beyond `sq`.
pub open spec fn cut_upto(c: Seq<usize>, ban: Seq<KomaInf>, sq: int, n: int) -> Seq<usize>
    decreases n,
{
    if n <= 0 {
        c
    } else {
        let c1 = cut_upto(c, ban, sq, n - 1);
        if c1[sq] & (1usize << ((n - 1 + 16) as usize)) != 0 { slide_cleared(c1, ban, sq, n - 1) } else { c1 }
    }
}

/// Takes away the bits of the piece `k` that leaves `sq`: the step bit of
/// every direction, and the slide bits along each of its slides.
pub(crate) fn lift_control(c: &mut [Kiki; 176], ban: &[KomaInf; 176], sq: usize, k: KomaInf)
    requires
        framed(ban@),
        on_board(sq as int),
    ensures
        final(c)@ == lift_upto(old(c)@, ban@, sq as int, k, 12),
        bounded_from(old(c)@, final(c)@),
        removed_from(old(c)@, final(c)@, ban@, sq as int, k, true),
{
    let mut dir: usize = 0;
    while dir < 12
        invariant
            framed(ban@),
            on_board(sq as int),
            dir <= 12,
            c@ == lift_upto(old(c)@, ban@, sq as int, k, dir as int),
            bounded_from(old(c)@, c@),
            forall|x: int, b: usize| 0 <= x < 176 && b < 24 ==>
                (#[trigger] bit(c@[x], b) <==> bit(old(c)@[x], b) && !(piece_bits(ban@, sq as int, k, x, b as int, true)
                    && (if b < 12 { b < dir } else { b - 16 < dir }))),
        decreases 12 - dir,
    {
        clear_step(c, sq, dir);
        if KomaMoves::can_jump(dir, k) {
            clear_slide(c, ban, sq, dir);
        }
        dir += 1;
    }
}

/// Takes away the bits of the piece `k` that is taken on `sq`: the slide
/// bits along each of its slides, and the step bit of every other
/// direction.
pub(crate) fn take_control(c: &mut [Kiki; 176], ban: &[KomaInf; 176], sq: usize, k: KomaInf)
    requires
        framed(ban@),
        on_board(sq as int),
    ensures
        final(c)@ == take_upto(old(c)@, ban@, sq as int, k, 12),
        bounded_from(old(c)@, final(c)@),
        removed_from(old(c)@, final(c)@, ban@, sq as int, k, false),
{
    let mut i: usize = 0;
    while i < 12
        invariant
            framed(ban@),
            on_board(sq as int),
            i <= 12,
            c@ == take_upto(old(c)@, ban@, sq as int, k, i as int),
            bounded_from(old(c)@, c@),
            forall|x: int, b: usize| 0 <= x < 176 && b < 24 ==>
                (#[trigger] bit(c@[x], b) <==> bit(old(c)@[x], b) && !(piece_bits(ban@, sq as int, k, x, b as int, false)
                    && (if b < 12 { b < i } else { b - 16 < i }))),
        decreases 12 - i,
    {
        if KomaMoves::can_jump(i, k) {
            clear_slide(c, ban, sq, i);
        } else {
            clear_step(c, sq, i);
        }
        i += 1;
    }
}

/// Carries every slide bit found on `sq` on along the slide from `sq`, as
/// when `sq` has just been emptied.
pub(crate) fn extend_slides(c: &mut [Kiki; 176], ban: &[KomaInf; 176], sq: usize)
    requires
        framed(ban@),
        on_board(sq as int),
    ensures
        final(c)@ == extend_upto(old(c)@, ban@, sq as int, 8),
        bounded_from(old(c)@, final(c)@),
        extended_from(old(c)@, final(c)@, ban@, sq as int),
{
    let mut i: usize = 0;
    let mut bj: usize = 1 << 16;
    assert(1usize << 16usize == 0x10000usize) by (bit_vector);
    while i < 8
        invariant
            framed(ban@),
            on_board(sq as int),
            i <= 8,
            bj == 1usize << ((i + 16) as usize),
            c@ == extend_upto(old(c)@, ban@, sq as int, i as int),
            bounded_from(old(c)@, c@),
            forall|b: usize| b < 24 ==> (#[trigger] bit(c@[sq as int], b) == bit(old(c)@[sq as int], b)),
            forall|x: int, b: usize| 0 <= x < 176 && b < 24 ==>
                (#[trigger] bit(c@[x], b) <==> bit(old(c)@[x], b)
                    || (16 <= b < i + 16 && bit(old(c)@[sq as int], b) && ray_reaches(ban@, sq as int, dir_offset(b - 16), x))),
        decreases 8 - i,
    {
        assert(bit(c@[sq as int], (i + 16) as usize) == bit(old(c)@[sq as int], (i + 16) as usize));
        if c[sq] & bj != 0 {
            proof {
                assert forall|x: int| #[trigger] ray_reaches(ban@, sq as int, dir_offset(i as int), x) implies x != sq by {
                    lemma_ray_direction(ban@, sq as int, dir_offset(i as int), x);
                }
            }
            set_slide(c, ban, sq, i);
        }
        proof {
            let ii = (i + 16) as usize;
            assert((1usize << ii) << 1usize == 1usize << ((ii + 1) as usize)) by (bit_vector)
                requires ii < 24;
        }
        i += 1;
        bj = bj << 1;
    }
}

/// Takes every slide bit found on `sq` off the slide beyond `sq`, as when
/// `sq` has just been filled.
pub(crate) fn cut_slides(c: &mut [Kiki; 176], ban: &[KomaInf; 176], sq: usize)
    requires
        framed(ban@),
        on_board(sq as int),
    ensures
        final(c)@ == cut_upto(old(c)@, ban@, sq as int, 8),
        bounded_from(old(c)@, final(c)@),
        cut_from(old(c)@, final(c)@, ban@, sq as int),
{
    let mut i: usize = 0;
    let mut bj: usize = 1 << 16;
    assert(1usize << 16usize == 0x10000usize) by (bit_vector);
    while i < 8
        invariant
            framed(ban@),
            on_board(sq as int),
            i <= 8,
            bj == 1usize << ((i + 16) as usize),
            c@ == cut_upto(old(c)@, ban@, sq as int, i as int),
            bounded_from(old(c)@, c@),
            forall|b: usize| b < 24 ==> (#[trigger] bit(c@[sq as int], b) == bit(old(c)@[sq as int], b)),
            forall|x: int, b: usize| 0 <= x < 176 && b < 24 ==>
                (#[trigger] bit(c@[x], b) <==> bit(old(c)@[x], b)
                    && !(16 <= b < i + 16 && bit(old(c)@[sq as int], b) && ray_reaches(ban@, sq as int, dir_offset(b - 16), x))),
        decreases 8 - i,
    {
        assert(bit(c@[sq as int], (i + 16) as usize) == bit(old(c)@[sq as int], (i + 16) as usize));
        if c[sq] & bj != 0 {
            proof {
                assert forall|x: int| #[trigger] ray_reaches(ban@, sq as int, dir_offset(i as int), x) implies x != sq by {
                    lemma_ray_direction(ban@, sq as int, dir_offset(i as int), x);
                }
            }
            clear_slide(c, ban, sq, i);
        }
        proof {
            let ii = (i + 16) as usize;
            assert((1usize << ii) << 1usize == 1usize << ((ii + 1) as usize)) by (bit_vector)
                requires ii < 24;
        }
        i += 1;
        bj = bj << 1;
    }
}

} // verus!
