//! Facts about slides: how they order the squares of a line, and how a
//! slide changes when one square of the board is emptied or filled.

use vstd::prelude::*;
use crate::koma_inf::KomaInf;
use crate::control::{ray_reaches, lemma_ray_direction, lemma_ray_through};

verus! {

/// A slide that reaches `x` from `q` also reaches the square just before
/// `x`, which is empty (unless that square is `q` itself).
pub proof fn lemma_ray_prefix(ban: Seq<KomaInf>, q: int, o: int, x: int)
    requires
        ray_reaches(ban, q, o, x),
        x - o != q,
    ensures
        ray_reaches(ban, q, o, x - o),
        ban[x - o] == KomaInf::EMP,
    decreases (if o > 0 { 176 - q } else { q }),
{
    let m = q + o;
    lemma_ray_direction(ban, q, o, x);
    if m != x - o {
        lemma_ray_direction(ban, m, o, x);
        lemma_ray_prefix(ban, m, o, x);
    }
}

/// A square a slide passes through on its way to `x` is empty.
pub proof fn lemma_ray_between(ban: Seq<KomaInf>, p: int, o: int, q: int, x: int)
    requires
        ray_reaches(ban, p, o, q),
        ray_reaches(ban, q, o, x),
        ray_reaches(ban, p, o, x),
    ensures
        ban[q] == KomaInf::EMP,
    decreases (if o > 0 { 176 - p } else { p }),
{
    let n = p + o;
    lemma_ray_direction(ban, q, o, x);
    lemma_ray_direction(ban, p, o, q);
    if n != q {
        lemma_ray_direction(ban, n, o, q);
        lemma_ray_between(ban, n, o, q, x);
    }
}

/// Two slides along the same line to the same square: one starts on the
/// other.
pub proof fn lemma_ray_comparable(ban: Seq<KomaInf>, p: int, q: int, o: int, x: int)
    requires
        ray_reaches(ban, p, o, x),
        ray_reaches(ban, q, o, x),
        p != q,
    ensures
        ray_reaches(ban, p, o, q) || ray_reaches(ban, q, o, p),
    decreases (if o > 0 { 176 - p } else { p }),
{
    let n = p + o;
    lemma_ray_direction(ban, p, o, x);
    lemma_ray_direction(ban, q, o, x);
    if n == x {
        lemma_ray_prefix(ban, q, o, x);
    } else if n == q {
    } else {
        lemma_ray_direction(ban, n, o, x);
        lemma_ray_comparable(ban, n, q, o, x);
        if ray_reaches(ban, q, o, n) {
            lemma_ray_prefix(ban, q, o, n);
        }
    }
}

/// Only one occupied square starts a slide along a line to a given square.
pub proof fn lemma_ray_unique(ban: Seq<KomaInf>, p: int, q: int, o: int, x: int)
    requires
        ray_reaches(ban, p, o, x),
        ray_reaches(ban, q, o, x),
        ban[p] != KomaInf::EMP,
        ban[q] != KomaInf::EMP,
    ensures
        p == q,
{
    if p != q {
        lemma_ray_comparable(ban, p, q, o, x);
        if ray_reaches(ban, p, o, q) {
            lemma_ray_between(ban, p, o, q, x);
        } else {
            lemma_ray_between(ban, q, o, p, x);
        }
    }
}

/// Emptying an occupied square `f` lets every slide that reached `f` go on
/// along the slide from `f`.
pub proof fn lemma_ray_emptied(ban: Seq<KomaInf>, f: int, p: int, o: int, x: int)
    requires
        ban.len() == 176,
        0 <= f < 176,
        ban[f] != KomaInf::EMP,
        p != f,
    ensures
        ray_reaches(ban.update(f, KomaInf::EMP), p, o, x)
            == (ray_reaches(ban, p, o, x) || (ray_reaches(ban, p, o, f)
                && ray_reaches(ban.update(f, KomaInf::EMP), f, o, x))),
    decreases (if o > 0 { 176 - p } else { p }),
{
    let b1 = ban.update(f, KomaInf::EMP);
    let n = p + o;
    if o == 0 || n < 0 || n >= 176 || n == x {
    } else if n == f {
    } else {
        lemma_ray_emptied(ban, f, n, o, x);
    }
}

/// Filling an empty square `t` stops every slide that went through it.
pub proof fn lemma_ray_filled(ban: Seq<KomaInf>, t: int, k: KomaInf, p: int, o: int, x: int)
    requires
        ban.len() == 176,
        0 <= t < 176,
        ban[t] == KomaInf::EMP,
        k != KomaInf::EMP,
        p != t,
    ensures
        ray_reaches(ban.update(t, k), p, o, x)
            == (ray_reaches(ban, p, o, x) && !(ray_reaches(ban, p, o, t) && ray_reaches(ban, t, o, x))),
    decreases (if o > 0 { 176 - p } else { p }),
{
    let b2 = ban.update(t, k);
    let n = p + o;
    if ray_reaches(ban, t, o, x) {
        lemma_ray_direction(ban, t, o, x);
    }
    if o == 0 || n < 0 || n >= 176 {
    } else if n == x {
        if ray_reaches(ban, p, o, t) && n != t {
            lemma_ray_direction(ban, n, o, t);
        }
    } else if n == t {
    } else {
        lemma_ray_filled(ban, t, k, n, o, x);
    }
}

/// Slides see only which squares are empty.
pub proof fn lemma_ray_same_shape(b1: Seq<KomaInf>, b2: Seq<KomaInf>, p: int, o: int, x: int)
    requires
        b1.len() == 176,
        b2.len() == 176,
        forall|y: int| 0 <= y < 176 ==> (#[trigger] b1[y] == KomaInf::EMP) == (b2[y] == KomaInf::EMP),
    ensures
        ray_reaches(b1, p, o, x) == ray_reaches(b2, p, o, x),
    decreases (if o > 0 { 176 - p } else { p }),
{
    let n = p + o;
    if o == 0 || n < 0 || n >= 176 || n == x {
    } else {
        lemma_ray_same_shape(b1, b2, n, o, x);
    }
}

/// A slide over one board reaches its target over another board when the
/// second is empty wherever the first is, but perhaps on `z`; where it is
/// not, the slide reaches `z` over the second board and goes on from `z`
/// over the first.
pub proof fn lemma_ray_transfer(b1: Seq<KomaInf>, b2: Seq<KomaInf>, p: int, o: int, x: int, z: int)
    requires
        ray_reaches(b1, p, o, x),
        forall|y: int| 0 <= y < 176 && y != z && #[trigger] b1[y] == KomaInf::EMP ==> b2[y] == KomaInf::EMP,
    ensures
        ray_reaches(b2, p, o, x) || (ray_reaches(b2, p, o, z) && ray_reaches(b1, z, o, x)),
    decreases (if o > 0 { 176 - p } else { p }),
{
    let n = p + o;
    lemma_ray_direction(b1, p, o, x);
    if n != x && n != z {
        lemma_ray_direction(b1, n, o, x);
        lemma_ray_transfer(b1, b2, n, o, x, z);
    }
}

/// Two squares a slide from `s` reaches lie one behind the other.
pub proof fn lemma_ray_same_start(b: Seq<KomaInf>, s: int, o: int, x: int, y: int)
    requires
        ray_reaches(b, s, o, x),
        ray_reaches(b, s, o, y),
        x != y,
    ensures
        ray_reaches(b, x, o, y) || ray_reaches(b, y, o, x),
    decreases (if o > 0 { 176 - s } else { s }),
{
    let n = s + o;
    lemma_ray_direction(b, s, o, x);
    lemma_ray_direction(b, s, o, y);
    if n != x && n != y {
        lemma_ray_direction(b, n, o, x);
        lemma_ray_same_start(b, n, o, x, y);
    }
}

/// A slide from `p` to `x` read backwards goes from `x` to `p`.
pub proof fn lemma_ray_reverse(b: Seq<KomaInf>, p: int, o: int, x: int)
    requires
        ray_reaches(b, p, o, x),
        0 <= p < 176,
    ensures
        ray_reaches(b, x, -o, p),
    decreases (if o > 0 { x - p } else { p - x }),
{
    lemma_ray_direction(b, p, o, x);
    if x - o != p {
        lemma_ray_prefix(b, p, o, x);
        lemma_ray_direction(b, p, o, x - o);
        lemma_ray_reverse(b, p, o, x - o);
    }
}

} // verus!
