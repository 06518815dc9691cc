//! Single edits of an attack map: one step bit, or one slide bit along a
//! whole slide.

use vstd::prelude::*;
use crate::koma_inf::KomaInf;
use crate::koma_moves::{KomaMoves, dir_offset};
use crate::kyokumen::on_board;
use crate::control::{ray_reaches, bit, framed, lemma_bit_set, lemma_bit_clear, lemma_ray_direction, lemma_ray_through};
use crate::Kiki;

verus! {

/// `c` with step bit `i` cleared on the square one step from `sq` in
/// direction `i`; nothing changes where that square would lie before the
/// board.
pub open spec fn step_cleared(c: Seq<usize>, sq: int, i: int) -> Seq<usize> {
    let t = sq + dir_offset(i);
    if 0 <= t { c.update(t, c[t] & !(1usize << (i as usize))) } else { c }
}

/// `c` with step bit `i` set on the square one step from `sq` in
/// direction `i`; nothing changes where that square would lie before the
/// board.
pub open spec fn step_set(c: Seq<usize>, sq: int, i: int) -> Seq<usize> {
    let t = sq + dir_offset(i);
    if 0 <= t { c.update(t, c[t] | (1usize << (i as usize))) } else { c }
}

/// `c` with slide bit `16 + i` cleared on every square of the slide from
/// `sq` in direction `i`.
pub open spec fn slide_cleared(c: Seq<usize>, ban: Seq<KomaInf>, sq: int, i: int) -> Seq<usize> {
    Seq::new(c.len(), |x: int| if ray_reaches(ban, sq, dir_offset(i), x) { c[x] & !(1usize << ((i + 16) as usize)) } else { c[x] })
}

/// `c` with slide bit `16 + i` set on every square of the slide from `sq`
/// in direction `i`.
pub open spec fn slide_set(c: Seq<usize>, ban: Seq<KomaInf>, sq: int, i: int) -> Seq<usize> {
    Seq::new(c.len(), |x: int| if ray_reaches(ban, sq, dir_offset(i), x) { c[x] | (1usize << ((i + 16) as usize)) } else { c[x] })
}

/// Whether every entry of `c` that was below bit 24 in `c0` still is.
pub open spec fn bounded_from(c0: Seq<usize>, c: Seq<usize>) -> bool {
    forall|x: int| 0 <= x < 176 ==> (c0[x] < 0x1000000 ==> #[trigger] c[x] < 0x1000000)
}

/// Clears step bit `i` on the square one step from `sq` in direction `i`;
/// nothing is written where that square would lie before the board.
pub(crate) fn clear_step(c: &mut [Kiki; 176], sq: usize, i: usize)
    requires
        on_board(sq as int),
        i < 12,
    ensures
        final(c)@ == step_cleared(old(c)@, sq as int, i as int),
        bounded_from(old(c)@, final(c)@),
        forall|x: int, b: usize| 0 <= x < 176 && b < 24 ==>
            (#[trigger] bit(final(c)@[x], b) <==> bit(old(c)@[x], b) && !(b == i && x == sq + dir_offset(i as int))),
{
    let t = sq as isize + KomaMoves::direct(i);
    if t >= 0 {
        let ghost cb = c@;
        let v = c[t as usize];
        c[t as usize] = v & !(1usize << i);
        proof {
            assert(c@ =~= step_cleared(cb, sq as int, i as int));
            assert forall|x: int, b: usize| 0 <= x < 176 && b < 24 implies
                (#[trigger] bit(c@[x], b) <==> bit(cb[x], b) && !(b == i && x == t)) by {
                lemma_bit_clear(cb[x], i, b);
            }
            assert forall|x: int| 0 <= x < 176 && cb[x] < 0x1000000 implies #[trigger] c@[x] < 0x1000000 by {
                lemma_bit_clear(cb[x], i, 0);
            }
        }
    }
}

/// Clears slide bit `16 + i` on every square of the slide from `sq` in
/// direction `i`, up to and including the first square that is not empty.
pub(crate) fn clear_slide(c: &mut [Kiki; 176], ban: &[KomaInf; 176], sq: usize, i: usize)
    requires
        framed(ban@),
        on_board(sq as int),
        i < 8,
    ensures
        final(c)@ == slide_cleared(old(c)@, ban@, sq as int, i as int),
        bounded_from(old(c)@, final(c)@),
        forall|x: int, b: usize| 0 <= x < 176 && b < 24 ==>
            (#[trigger] bit(final(c)@[x], b) <==> bit(old(c)@[x], b)
                && !(b == i + 16 && ray_reaches(ban@, sq as int, dir_offset(i as int), x))),
{
    let d = KomaMoves::direct(i);
    let bj: usize = 1usize << (i + 16);
    let ghost o = d as int;
    let ghost c0 = c@;
    let mut j: isize = sq as isize;
    loop
        invariant_except_break
            forall|x: int, bb: usize| 0 <= x < 176 && bb < 24 ==>
                (#[trigger] bit(c@[x], bb) <==> bit(c0[x], bb) && !(bb == i + 16
                    && ray_reaches(ban@, sq as int, o, x) && !(if j == sq { ray_reaches(ban@, sq as int, o, x) } else { ray_reaches(ban@, j as int, o, x) }))),
            forall|x: int| 0 <= x < 176 ==> #[trigger] c@[x] == (if ray_reaches(ban@, sq as int, o, x)
                && !(if j == sq { ray_reaches(ban@, sq as int, o, x) } else { ray_reaches(ban@, j as int, o, x) }) { c0[x] & !bj } else { c0[x] }),
        invariant
            framed(ban@),
            on_board(sq as int),
            i < 8,
            d == dir_offset(i as int),
            o == d as int,
            bj == 1usize << ((i + 16) as usize),
            j == sq || (ray_reaches(ban@, sq as int, o, j as int) && ban@[j as int] == KomaInf::EMP),
            0 <= j < 176,
            on_board(j as int),
            c0.len() == 176,
            bounded_from(c0, c@),
        ensures
            forall|x: int, bb: usize| 0 <= x < 176 && bb < 24 ==>
                (#[trigger] bit(c@[x], bb) <==> bit(c0[x], bb) && !(bb == i + 16
                    && ray_reaches(ban@, sq as int, o, x))),
            forall|x: int| 0 <= x < 176 ==> #[trigger] c@[x] == (if ray_reaches(ban@, sq as int, o, x) { c0[x] & !bj } else { c0[x] }),
        decreases (if o > 0 { 176 - j } else { j as int }),
    {
        let n = j + d;
        proof {
            if j != sq {
                lemma_ray_direction(ban@, sq as int, o, j as int);
            }
        }
        let ghost cb = c@;
        let v = c[n as usize];
        c[n as usize] = v & !bj;
        proof {
            assert(cb[n as int] == c0[n as int]);
            assert forall|x: int, bb: usize| 0 <= x < 176 && bb < 24 implies
                (#[trigger] bit(c@[x], bb) <==> bit(cb[x], bb) && !(x == n && bb == i + 16)) by {
                lemma_bit_clear(cb[x], (i + 16) as usize, bb);
            }
            assert forall|x: int| 0 <= x < 176 && c0[x] < 0x1000000 implies #[trigger] c@[x] < 0x1000000 by {
                lemma_bit_clear(cb[x], (i + 16) as usize, 0);
            }
            assert(ray_reaches(ban@, j as int, o, n as int));
            if j != sq {
                lemma_ray_through(ban@, sq as int, o, j as int, n as int);
            }
            assert(ray_reaches(ban@, sq as int, o, n as int));
            assert forall|x: int| #[trigger] ray_reaches(ban@, n as int, o, x) implies x != n by {
                lemma_ray_direction(ban@, n as int, o, x);
            }
        }
        if ban[n as usize] != KomaInf::EMP {
            proof {
                assert forall|x: int, bb: usize| 0 <= x < 176 && bb < 24 implies
                    (#[trigger] bit(c@[x], bb) <==> bit(c0[x], bb) && !(bb == i + 16
                        && ray_reaches(ban@, sq as int, o, x))) by {
                    if bb == i + 16 && ray_reaches(ban@, sq as int, o, x) && x != n {
                        if j != sq {
                            if !ray_reaches(ban@, j as int, o, x) {
                                assert(!bit(cb[x], bb));
                            }
                        }
                    }
                }
            }
            proof {
                assert forall|x: int| 0 <= x < 176 && x != n implies ray_reaches(ban@, sq as int, o, x)
                    == (j != sq && ray_reaches(ban@, sq as int, o, x) && !ray_reaches(ban@, j as int, o, x)) by {
                    if j != sq && ray_reaches(ban@, sq as int, o, x) && ray_reaches(ban@, j as int, o, x) {
                        assert(x == n);
                    }
                    if j == sq && ray_reaches(ban@, sq as int, o, x) {
                        assert(x == n);
                    }
                }
            }
            break;
        }
        proof {
            assert forall|x: int| 0 <= x < 176 && x != n implies (ray_reaches(ban@, sq as int, o, x) && !ray_reaches(ban@, n as int, o, x))
                == (ray_reaches(ban@, sq as int, o, x) && !(if j == sq { ray_reaches(ban@, sq as int, o, x) } else { ray_reaches(ban@, j as int, o, x) })) by {
                if ray_reaches(ban@, n as int, o, x) {
                    lemma_ray_through(ban@, sq as int, o, n as int, x);
                }
            }
            assert(on_board(n as int));
            assert forall|x: int, bb: usize| 0 <= x < 176 && bb < 24 implies
                (#[trigger] bit(c@[x], bb) <==> bit(c0[x], bb) && !(bb == i + 16
                    && ray_reaches(ban@, sq as int, o, x) && !ray_reaches(ban@, n as int, o, x))) by {
                if bb == i + 16 && ray_reaches(ban@, sq as int, o, x) && x != n && !ray_reaches(ban@, n as int, o, x) {
                    if j != sq {
                        assert(!ray_reaches(ban@, j as int, o, x));
                    }
                }
                if ray_reaches(ban@, n as int, o, x) {
                    lemma_ray_through(ban@, sq as int, o, n as int, x);
                }
            }
        }
        j = n;
    }
    assert(c@ =~= slide_cleared(c0, ban@, sq as int, i as int));
}

/// Sets slide bit `16 + i` on every square of the slide from `sq` in
/// direction `i`, up to and including the first square that is not empty.
pub(crate) fn set_slide(c: &mut [Kiki; 176], ban: &[KomaInf; 176], sq: usize, i: usize)
    requires
        framed(ban@),
        on_board(sq as int),
        i < 8,
    ensures
        final(c)@ == slide_set(old(c)@, ban@, sq as int, i as int),
        bounded_from(old(c)@, final(c)@),
        forall|x: int, b: usize| 0 <= x < 176 && b < 24 ==>
            (#[trigger] bit(final(c)@[x], b) <==> bit(old(c)@[x], b)
                || (b == i + 16 && ray_reaches(ban@, sq as int, dir_offset(i as int), x))),
{
    let d = KomaMoves::direct(i);
    let bj: usize = 1usize << (i + 16);
    let ghost o = d as int;
    let ghost c0 = c@;
    let mut j: isize = sq as isize;
    loop
        invariant_except_break
            forall|x: int, bb: usize| 0 <= x < 176 && bb < 24 ==>
                (#[trigger] bit(c@[x], bb) <==> bit(c0[x], bb) || (bb == i + 16
                    && ray_reaches(ban@, sq as int, o, x) && !(if j == sq { ray_reaches(ban@, sq as int, o, x) } else { ray_reaches(ban@, j as int, o, x) }))),
            forall|x: int| 0 <= x < 176 ==> #[trigger] c@[x] == (if ray_reaches(ban@, sq as int, o, x)
                && !(if j == sq { ray_reaches(ban@, sq as int, o, x) } else { ray_reaches(ban@, j as int, o, x) }) { c0[x] | bj } else { c0[x] }),
        invariant
            framed(ban@),
            on_board(sq as int),
            i < 8,
            d == dir_offset(i as int),
            o == d as int,
            bj == 1usize << ((i + 16) as usize),
            j == sq || (ray_reaches(ban@, sq as int, o, j as int) && ban@[j as int] == KomaInf::EMP),
            0 <= j < 176,
            on_board(j as int),
            c0.len() == 176,
            bounded_from(c0, c@),
        ensures
            forall|x: int, bb: usize| 0 <= x < 176 && bb < 24 ==>
                (#[trigger] bit(c@[x], bb) <==> bit(c0[x], bb) || (bb == i + 16
                    && ray_reaches(ban@, sq as int, o, x))),
            forall|x: int| 0 <= x < 176 ==> #[trigger] c@[x] == (if ray_reaches(ban@, sq as int, o, x) { c0[x] | bj } else { c0[x] }),
        decreases (if o > 0 { 176 - j } else { j as int }),
    {
        let n = j + d;
        proof {
            if j != sq {
                lemma_ray_direction(ban@, sq as int, o, j as int);
            }
        }
        let ghost cb = c@;
        let v = c[n as usize];
        c[n as usize] = v | bj;
        proof {
            assert(cb[n as int] == c0[n as int]);
            assert forall|x: int, bb: usize| 0 <= x < 176 && bb < 24 implies
                (#[trigger] bit(c@[x], bb) <==> bit(cb[x], bb) || (x == n && bb == i + 16)) by {
                lemma_bit_set(cb[x], (i + 16) as usize, bb);
            }
            assert forall|x: int| 0 <= x < 176 && c0[x] < 0x1000000 implies #[trigger] c@[x] < 0x1000000 by {
                lemma_bit_set(cb[x], (i + 16) as usize, 0);
            }
            assert(ray_reaches(ban@, j as int, o, n as int));
            if j != sq {
                lemma_ray_through(ban@, sq as int, o, j as int, n as int);
            }
            assert(ray_reaches(ban@, sq as int, o, n as int));
            assert forall|x: int| #[trigger] ray_reaches(ban@, n as int, o, x) implies x != n by {
                lemma_ray_direction(ban@, n as int, o, x);
            }
        }
        if ban[n as usize] != KomaInf::EMP {
            proof {
                assert forall|x: int, bb: usize| 0 <= x < 176 && bb < 24 implies
                    (#[trigger] bit(c@[x], bb) <==> bit(c0[x], bb) || (bb == i + 16
                        && ray_reaches(ban@, sq as int, o, x))) by {
                    if bb == i + 16 && ray_reaches(ban@, sq as int, o, x) && x != n {
                        if j != sq {
                            if !ray_reaches(ban@, j as int, o, x) {
                                assert(bit(cb[x], bb));
                            }
                        }
                    }
                }
            }
            proof {
                assert forall|x: int| 0 <= x < 176 && x != n implies ray_reaches(ban@, sq as int, o, x)
                    == (j != sq && ray_reaches(ban@, sq as int, o, x) && !ray_reaches(ban@, j as int, o, x)) by {
                    if j != sq && ray_reaches(ban@, sq as int, o, x) && ray_reaches(ban@, j as int, o, x) {
                        assert(x == n);
                    }
                    if j == sq && ray_reaches(ban@, sq as int, o, x) {
                        assert(x == n);
                    }
                }
            }
            break;
        }
        proof {
            assert forall|x: int| 0 <= x < 176 && x != n implies (ray_reaches(ban@, sq as int, o, x) && !ray_reaches(ban@, n as int, o, x))
                == (ray_reaches(ban@, sq as int, o, x) && !(if j == sq { ray_reaches(ban@, sq as int, o, x) } else { ray_reaches(ban@, j as int, o, x) })) by {
                if ray_reaches(ban@, n as int, o, x) {
                    lemma_ray_through(ban@, sq as int, o, n as int, x);
                }
            }
            assert(on_board(n as int));
            assert forall|x: int, bb: usize| 0 <= x < 176 && bb < 24 implies
                (#[trigger] bit(c@[x], bb) <==> bit(c0[x], bb) || (bb == i + 16
                    && ray_reaches(ban@, sq as int, o, x) && !ray_reaches(ban@, n as int, o, x))) by {
                if bb == i + 16 && ray_reaches(ban@, sq as int, o, x) && x != n && !ray_reaches(ban@, n as int, o, x) {
                    if j != sq {
                        assert(!ray_reaches(ban@, j as int, o, x));
                    }
                }
                if ray_reaches(ban@, n as int, o, x) {
                    lemma_ray_through(ban@, sq as int, o, n as int, x);
                }
            }
        }
        j = n;
    }
    assert(c@ =~= slide_set(c0, ban@, sq as int, i as int));
}

} // verus!
