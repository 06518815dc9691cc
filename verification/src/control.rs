//! What the attack maps hold: for each square and each bit, whether some
//! piece of a player reaches that square by a step or along a slide.

use vstd::prelude::*;
use crate::koma_inf::KomaInf;
use crate::koma_moves::{KomaMoves, dir_offset, steps, slides, moves_to, lemma_moves_shape};
use crate::kyokumen::on_board;
use crate::Kiki;
use crate::slides::{set_slide, bounded_from, slide_set, step_set};

verus! {

/// Whether `x` lies on the slide from `p` in steps of `o`: every square
/// strictly between is empty; `x` itself may hold anything.
pub open spec fn ray_reaches(ban: Seq<KomaInf>, p: int, o: int, x: int) -> bool
    decreases (if o > 0 { 176 - p } else { p }),
{
    let n = p + o;
    if o == 0 || n < 0 || n >= 176 {
        false
    } else if n == x {
        true
    } else if ban[n] != KomaInf::EMP {
        false
    } else {
        ray_reaches(ban, n, o, x)
    }
}

/// Whether the piece on `p` gives bit `b` of the attack map at `x`: a step
/// in direction `b` (b < 12) or a slide in direction `b - 16` (16 <= b < 24).
pub open spec fn piece_gives(ban: Seq<KomaInf>, p: int, x: int, b: int) -> bool {
    &&& on_board(p)
    &&& if 0 <= b < 12 {
            steps(b, ban[p]) && x == p + dir_offset(b)
        } else {
            16 <= b < 24 && slides(b - 16, ban[p]) && ray_reaches(ban, p, dir_offset(b - 16), x)
        }
}

/// Whether the piece on `p` carries the mark of `side`.
pub open spec fn owns(ban: Seq<KomaInf>, side: KomaInf, p: int) -> bool {
    on_board(p) && ban[p].value() & side.value() != 0
}

/// Whether some piece of `side` gives bit `b` at `x`.
pub open spec fn attacked(ban: Seq<KomaInf>, side: KomaInf, x: int, b: int) -> bool {
    exists|p: int| owns(ban, side, p) && #[trigger] piece_gives(ban, p, x, b)
}

/// Bit `b` of `c`.
pub open spec fn bit(c: usize, b: usize) -> bool {
    c & (1usize << b) != 0
}

/// An attack map agrees with the board: its bits are exactly those given
/// by the pieces of `side`, and nothing above bit 23 is set.
pub open spec fn control_matches(ban: Seq<KomaInf>, side: KomaInf, c: Seq<usize>) -> bool {
    &&& c.len() == 176
    &&& forall|x: int| 0 <= x < 176 ==> #[trigger] c[x] < 0x1000000
    &&& forall|x: int, b: usize| 0 <= x < 176 && b < 24 ==>
            (#[trigger] bit(c[x], b) <==> attacked(ban, side, x, b as int))
}

/// Every index outside the 81 squares of `ban` is a wall.
pub open spec fn framed(ban: Seq<KomaInf>) -> bool {
    &&& ban.len() == 176
    &&& forall|sq: int| 0 <= sq < 176 && !on_board(sq) ==> #[trigger] ban[sq] == KomaInf::Wall
}

/// Setting one bit.
pub proof fn lemma_bit_set(c: usize, b: usize, j: usize)
    by (bit_vector)
    requires
        b < 24,
        j < 24,
    ensures
        ((c | (1usize << b)) & (1usize << j) != 0) == ((c & (1usize << j) != 0) || b == j),
        c < 0x1000000 ==> (c | (1usize << b)) < 0x1000000,
{
}

/// Clearing one bit.
pub proof fn lemma_bit_clear(c: usize, b: usize, j: usize)
    by (bit_vector)
    requires
        b < 24,
        j < 24,
    ensures
        ((c & !(1usize << b)) & (1usize << j) != 0) == ((c & (1usize << j) != 0) && b != j),
        c < 0x1000000 ==> (c & !(1usize << b)) < 0x1000000,
{
}

/// Zero has no bit set; shifting a single bit.
pub proof fn lemma_bit_basics(j: usize)
    by (bit_vector)
    requires
        j < 31,
    ensures
        (0usize & (1usize << j)) == 0,
        (1usize << j) << 1usize == 1usize << ((j + 1) as usize),
        1usize << 16usize == 0x10000usize,
        1usize << 0usize == 1usize,
{
}

/// A slide moves strictly away from its origin.
pub proof fn lemma_ray_direction(ban: Seq<KomaInf>, p: int, o: int, x: int)
    requires
        ray_reaches(ban, p, o, x),
    ensures
        o > 0 ==> x > p,
        o < 0 ==> x < p,
        0 <= x < 176,
    decreases (if o > 0 { 176 - p } else { p }),
{
    let n = p + o;
    if n != x {
        lemma_ray_direction(ban, n, o, x);
    }
}

/// A slide that reaches an empty square `j` goes on from there.
pub proof fn lemma_ray_through(ban: Seq<KomaInf>, p: int, o: int, j: int, x: int)
    requires
        ray_reaches(ban, p, o, j),
        ban[j] == KomaInf::EMP,
        ray_reaches(ban, j, o, x),
    ensures
        ray_reaches(ban, p, o, x),
    decreases (if o > 0 { 176 - p } else { p }),
{
    let n = p + o;
    lemma_ray_direction(ban, p, o, j);
    lemma_ray_direction(ban, j, o, x);
    if n != j {
        lemma_ray_through(ban, n, o, j, x);
    }
}

/// The map after adding, over directions `0..n`, the bits that the piece
/// on `sq` gives: the slide bits along a slide, else the step bit of a
/// step.
pub open spec fn add_upto(c: Seq<usize>, ban: Seq<KomaInf>, sq: int, n: int) -> Seq<usize>
    decreases n,
{
    if n <= 0 {
        c
    } else {
        let c1 = add_upto(c, ban, sq, n - 1);
        if slides(n - 1, ban[sq]) {
            slide_set(c1, ban, sq, n - 1)
        } else if moves_to(n - 1, ban[sq]) {
            step_set(c1, sq, n - 1)
        } else {
            c1
        }
    }
}

/// Adds to `c` the bits that the piece on `sq` gives: a step bit for each
/// direction it steps, a slide bit on each square of each slide.  A step
/// that would land before the board is dropped.
pub fn add_control(c: &mut [Kiki; 176], ban: &[KomaInf; 176], sq: usize)
    requires
        framed(ban@),
        on_board(sq as int),
    ensures
        final(c)@ == add_upto(old(c)@, ban@, sq as int, 12),
        bounded_from(old(c)@, final(c)@),
        forall|x: int, b: usize| 0 <= x < 176 && b < 24 ==>
            (#[trigger] bit(final(c)@[x], b) <==> bit(old(c)@[x], b) || piece_gives(ban@, sq as int, x, b as int)),
{
    let k = ban[sq];
    let mut i: usize = 0;
    let mut b: usize = 1;
    proof {
        lemma_bit_basics(0);
    }
    while i < 12
        invariant
            framed(ban@),
            on_board(sq as int),
            k == ban@[sq as int],
            i <= 12,
            b == 1usize << i,
            c@ == add_upto(old(c)@, ban@, sq as int, i as int),
            bounded_from(old(c)@, c@),
            forall|x: int, bb: usize| 0 <= x < 176 && bb < 24 ==>
                (#[trigger] bit(c@[x], bb) <==> bit(old(c)@[x], bb) || (piece_gives(ban@, sq as int, x, bb as int)
                    && (if bb < 12 { bb < i } else { bb - 16 < i }))),
        decreases 12 - i,
    {
        let d = KomaMoves::direct(i);
        let ghost cb = c@;
        proof {
            lemma_moves_shape(i as int, k);
        }
        if KomaMoves::can_jump(i, k) {
            set_slide(c, ban, sq, i);
        } else if KomaMoves::can_move(i, k) {
            let t = sq as isize + d;
            if t >= 0 {
                let old_v = c[t as usize];
                c[t as usize] = old_v | b;
                proof {
                    assert(c@ =~= step_set(cb, sq as int, i as int));
                    assert forall|x: int, bb: usize| 0 <= x < 176 && bb < 24 implies
                        (#[trigger] bit(c@[x], bb) <==> bit(cb[x], bb) || (x == t && bb == i)) by {
                        lemma_bit_set(cb[x], i, bb);
                    }
                    assert forall|x: int| 0 <= x < 176 && cb[x] < 0x1000000 implies #[trigger] c@[x] < 0x1000000 by {
                        lemma_bit_set(cb[x], i, 0);
                    }
                }
            }
        }
        proof {
            assert forall|x: int, bb: usize| 0 <= x < 176 && bb < 24 implies
                (#[trigger] bit(c@[x], bb) <==> bit(old(c)@[x], bb) || (piece_gives(ban@, sq as int, x, bb as int)
                    && (if bb < 12 { bb < i + 1 } else { bb - 16 < i + 1 }))) by {
                lemma_moves_shape(bb as int, k);
                lemma_moves_shape((bb - 16) as int, k);
            }
            lemma_bit_basics(i);
        }
        i += 1;
        b = b << 1;
    }
}

/// Two numbers below `2^24` with the same low 24 bits are equal.
pub proof fn lemma_same_bits(a: usize, c: usize)
    requires
        a < 0x1000000,
        c < 0x1000000,
        forall|j: usize| j < 24 ==> #[trigger] bit(a, j) == bit(c, j),
    ensures
        a == c,
{
    assert(bit(a, 0usize) == bit(c, 0usize));
    assert(bit(a, 1usize) == bit(c, 1usize));
    assert(bit(a, 2usize) == bit(c, 2usize));
    assert(bit(a, 3usize) == bit(c, 3usize));
    assert(bit(a, 4usize) == bit(c, 4usize));
    assert(bit(a, 5usize) == bit(c, 5usize));
    assert(bit(a, 6usize) == bit(c, 6usize));
    assert(bit(a, 7usize) == bit(c, 7usize));
    assert(bit(a, 8usize) == bit(c, 8usize));
    assert(bit(a, 9usize) == bit(c, 9usize));
    assert(bit(a, 10usize) == bit(c, 10usize));
    assert(bit(a, 11usize) == bit(c, 11usize));
    assert(bit(a, 12usize) == bit(c, 12usize));
    assert(bit(a, 13usize) == bit(c, 13usize));
    assert(bit(a, 14usize) == bit(c, 14usize));
    assert(bit(a, 15usize) == bit(c, 15usize));
    assert(bit(a, 16usize) == bit(c, 16usize));
    assert(bit(a, 17usize) == bit(c, 17usize));
    assert(bit(a, 18usize) == bit(c, 18usize));
    assert(bit(a, 19usize) == bit(c, 19usize));
    assert(bit(a, 20usize) == bit(c, 20usize));
    assert(bit(a, 21usize) == bit(c, 21usize));
    assert(bit(a, 22usize) == bit(c, 22usize));
    assert(bit(a, 23usize) == bit(c, 23usize));
    assert(a == c) by (bit_vector)
        requires
            a < 0x1000000,
            c < 0x1000000,
            (a & (1usize << 0usize) != 0) == (c & (1usize << 0usize) != 0),
            (a & (1usize << 1usize) != 0) == (c & (1usize << 1usize) != 0),
            (a & (1usize << 2usize) != 0) == (c & (1usize << 2usize) != 0),
            (a & (1usize << 3usize) != 0) == (c & (1usize << 3usize) != 0),
            (a & (1usize << 4usize) != 0) == (c & (1usize << 4usize) != 0),
            (a & (1usize << 5usize) != 0) == (c & (1usize << 5usize) != 0),
            (a & (1usize << 6usize) != 0) == (c & (1usize << 6usize) != 0),
            (a & (1usize << 7usize) != 0) == (c & (1usize << 7usize) != 0),
            (a & (1usize << 8usize) != 0) == (c & (1usize << 8usize) != 0),
            (a & (1usize << 9usize) != 0) == (c & (1usize << 9usize) != 0),
            (a & (1usize << 10usize) != 0) == (c & (1usize << 10usize) != 0),
            (a & (1usize << 11usize) != 0) == (c & (1usize << 11usize) != 0),
            (a & (1usize << 12usize) != 0) == (c & (1usize << 12usize) != 0),
            (a & (1usize << 13usize) != 0) == (c & (1usize << 13usize) != 0),
            (a & (1usize << 14usize) != 0) == (c & (1usize << 14usize) != 0),
            (a & (1usize << 15usize) != 0) == (c & (1usize << 15usize) != 0),
            (a & (1usize << 16usize) != 0) == (c & (1usize << 16usize) != 0),
            (a & (1usize << 17usize) != 0) == (c & (1usize << 17usize) != 0),
            (a & (1usize << 18usize) != 0) == (c & (1usize << 18usize) != 0),
            (a & (1usize << 19usize) != 0) == (c & (1usize << 19usize) != 0),
            (a & (1usize << 20usize) != 0) == (c & (1usize << 20usize) != 0),
            (a & (1usize << 21usize) != 0) == (c & (1usize << 21usize) != 0),
            (a & (1usize << 22usize) != 0) == (c & (1usize << 22usize) != 0),
            (a & (1usize << 23usize) != 0) == (c & (1usize << 23usize) != 0),
    ;
}

/// An attack map is determined by the board: two maps that both agree
/// with the same board are equal, so working the maps out again from the
/// board gives back the maps a position already has.
pub proof fn lemma_control_determined(ban: Seq<KomaInf>, side: KomaInf, c1: Seq<usize>, c2: Seq<usize>)
    requires
        control_matches(ban, side, c1),
        control_matches(ban, side, c2),
    ensures
        c1 == c2,
{
    assert forall|x: int| 0 <= x < 176 implies c1[x] == c2[x] by {
        assert forall|j: usize| j < 24 implies #[trigger] bit(c1[x], j) == bit(c2[x], j) by {
            assert(bit(c1[x], j) <==> attacked(ban, side, x, j as int));
            assert(bit(c2[x], j) <==> attacked(ban, side, x, j as int));
        }
        lemma_same_bits(c1[x], c2[x]);
    }
    assert(c1 =~= c2);
}

} // verus!
