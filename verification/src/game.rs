//! Playing: reading a move typed by the player, checking it against the
//! generated moves, and a thinker that picks one of them at random.

use vstd::prelude::*;
use crate::koma_inf::{KomaInf, lemma_mark_kind};
use crate::kyokumen::Kyokumen;
use crate::legal::{generation_ready, pins_used};
use crate::gen_spec::legal_moves_spec;
use crate::te::{Te, te_of};
use crate::generated::{sound_move, king_in_place, lemma_generated_moves_sound};
use crate::answers::answers_check;
use crate::control::control_matches;
use crate::{TeNum, USquare};

verus! {

/// Whether `te` is not among the first `te_num` moves of `te_buf` (moves
/// compare by squares, piece and promotion).
pub fn is_illegal(te: Te, te_num: TeNum, te_buf: &mut [Te; 600]) -> (r: bool)
    requires
        te_num <= 600 || exists|i: int| 0 <= i < 600 && old(te_buf)@[i].same_move(te),
    ensures
        r == !(exists|i: int| 0 <= i < te_num && #[trigger] old(te_buf)@[i].same_move(te)),
        final(te_buf)@ == old(te_buf)@,
{
    let mut i: usize = 0;
    while i < te_num
        invariant
            te_num <= 600 || exists|i: int| 0 <= i < 600 && te_buf@[i].same_move(te),
            te_buf@ == old(te_buf)@,
            i <= te_num,
            forall|j: int| 0 <= j < i ==> !(#[trigger] te_buf@[j].same_move(te)),
        decreases te_num - i,
    {
        if i >= 600 {
            assert(false);
            return true;
        }
        if te == te_buf[i] {
            assert(te.same_move(te_buf@[i as int]));
            assert(old(te_buf)@[i as int].same_move(te));
            return false;
        }
        i += 1;
    }
    true
}

/// The digit a character stands for, if it is one of `0` to `9`.
pub open spec fn digit_of(c: char) -> Option<u32> {
    if '0' <= c <= '9' { Some((c as u32 - '0' as u32) as u32) } else { None }
}

/// The digit a character stands for, if it is one of `0` to `9`.
pub fn to_digit(c: char) -> (r: Option<u32>)
    ensures
        r == digit_of(c),
{
    if '0' <= c && c <= '9' {
        Some(c as u32 - '0' as u32)
    } else {
        None
    }
}

/// How many characters of a typed move are read: at most five.
pub open spec fn read_len(chars: Seq<char>) -> int {
    if chars.len() < 5 { chars.len() as int } else { 5 }
}

/// The digit at `i` if it is read, else 0.
pub open spec fn digit_at(chars: Seq<char>, i: int) -> int {
    if i < read_len(chars) { digit_of(chars[i]).unwrap() as int } else { 0 }
}

/// The square the move leaves, as typed: two decimal digits.
pub open spec fn typed_from(chars: Seq<char>) -> int {
    digit_at(chars, 0) * 10 + digit_at(chars, 1)
}

/// The square the move reaches, as typed: two decimal digits.
pub open spec fn typed_to(chars: Seq<char>) -> int {
    digit_at(chars, 2) * 10 + digit_at(chars, 3)
}

/// The move a player typed, read in position `k`: `from` and `to` are two
/// decimal digits each; a `from` below 8 is a drop of the first player's
/// piece of that kind (and `from` becomes 0), otherwise the piece is what
/// stands on `from`; the captured value is what stands on `to`.  A fifth
/// character `*` marks a promotion.  `None` when fewer than two characters
/// were typed.
pub open spec fn typed_move(k: crate::kyokumen::KyokumenView, chars: Seq<char>) -> Option<Te> {
    let n = read_len(chars);
    if n < 2 {
        None
    } else {
        let from = typed_from(chars);
        let to = typed_to(chars);
        let p: u8 = if n >= 5 && chars[4] == '*' { 1 } else { 0 };
        if from < 8 {
            Some(te_of(0, to, KomaInf::from_value((16 + from) as u8).unwrap(), k.ban[to], p))
        } else {
            Some(te_of(from, to, k.ban[from], k.ban[to], p))
        }
    }
}

/// Reads a typed move (see `typed_move`).  The first four characters
/// read must be decimal digits.
pub fn te_from_input(k: &Kyokumen, chars: &Vec<char>) -> (r: Option<Te>)
    requires
        forall|i: int| 0 <= i < read_len(chars@) && i < 4 ==> #[trigger] digit_of(chars@[i]) is Some,
    ensures
        r == typed_move(k@, chars@),
{
    let mut from: u8 = 0;
    let mut to: u8 = 0;
    let mut promote: [char; 2] = ['\0'; 2];
    let mut ss: usize = 0;
    while ss < chars.len() && ss < 5
        invariant
            forall|i: int| 0 <= i < read_len(chars@) && i < 4 ==> #[trigger] digit_of(chars@[i]) is Some,
            ss <= 5,
            ss <= chars.len(),
            from == (if ss >= 1 { digit_of(chars@[0]).unwrap() * 10 } else { 0 }) + (if ss >= 2 { digit_of(chars@[1]).unwrap() } else { 0 }),
            to == (if ss >= 3 { digit_of(chars@[2]).unwrap() * 10 } else { 0 }) + (if ss >= 4 { digit_of(chars@[3]).unwrap() } else { 0 }),
            promote@[0] == (if ss >= 5 { chars@[4] } else { '\0' }),
        decreases 5 - ss,
    {
        let ch = chars[ss];
        if ss < 4 {
            let d = match to_digit(ch) {
                Some(d) => d,
                None => 0,
            };
            if ss == 0 {
                from = from + (d * 10) as u8;
            } else if ss == 1 {
                from = from + d as u8;
            } else if ss == 2 {
                to = to + (d * 10) as u8;
            } else {
                to = to + d as u8;
            }
        } else {
            promote[0] = ch;
        }
        ss += 1;
    }
    if ss < 2 {
        return None;
    }
    let p: u8 = if ss >= 5 && promote[0] == '*' { 1 } else { 0 };
    let capture = k.ban[to as USquare];
    if from < 8 {
        proof {
            lemma_mark_kind(from);
            KomaInf::lemma_from_value((16 + from) as u8);
        }
        let koma = match KomaInf::from_u8(KomaInf::Self_.as_u8() | from) {
            Some(x) => x,
            None => KomaInf::EMP,
        };
        Some(Te::from_5(0, to as USquare, koma, capture, p))
    } else {
        let koma = k.ban[from as USquare];
        Some(Te::from_5(from as USquare, to as USquare, koma, capture, p))
    }
}

/// A random number from the thread's generator.
///
/// Calls `rand::random::<usize>()`: any `usize` may come back, so nothing
/// is stated of the result.
#[verifier::external_body]
fn random_usize() -> usize {
    rand::random::<usize>()
}

/// The move at index `random % te_num` of `te_buf`.
pub fn pick(te_buf: &[Te; 600], te_num: TeNum, random: usize) -> (r: Te)
    requires
        0 < te_num <= 600,
    ensures
        r == te_buf@[(random % te_num) as int],
{
    te_buf[random % te_num]
}

/// A thinker that plays one of the generated moves, chosen at random.
pub struct Sikou {}

impl Default for Sikou {
    /// The thinker.
    fn default() -> (r: Sikou)
        ensures
            r == (Sikou {}),
    {
        Sikou {}
    }
}

impl Sikou {
    /// Generates the moves of `s_or_e` in `k` (with the pins worked out)
    /// and picks one of them at random; `k` is left as it was, and the move
    /// picked can be played there (see `sound_move`), against a check
    /// answers it (see `answers_check`), and leaves the king of `s_or_e`
    /// reached by no piece of the other player (see `king_safe_after`).
    pub fn think(&self, s_or_e: KomaInf, k: &mut Kyokumen) -> (r: Te)
        requires
            generation_ready(old(k)@, s_or_e),
            0 < legal_moves_spec(old(k)@, s_or_e, pins_used(old(k)@, None)).len() <= 600,
        ensures
            exists|i: int| 0 <= i < legal_moves_spec(old(k)@, s_or_e, pins_used(old(k)@, None)).len()
                && r == #[trigger] legal_moves_spec(old(k)@, s_or_e, pins_used(old(k)@, None))[i],
            final(k)@ == old(k)@,
            king_in_place(old(k)@, s_or_e)
                ==> sound_move(old(k)@, s_or_e, pins_used(old(k)@, None), r),
            king_in_place(old(k)@, s_or_e)
                && control_matches(old(k)@.ban, s_or_e.opponent(), old(k)@.control(s_or_e.opponent()))
                ==> answers_check(old(k)@, s_or_e, r),
            crate::generated::king_stands(old(k)@, s_or_e) && old(k)@.consistent()
                ==> crate::legality::king_safe_after(old(k)@, s_or_e, r),
    {
        proof {
            if crate::generated::king_stands(old(k)@, s_or_e) && old(k)@.consistent() {
                crate::legality::lemma_generated_moves_safe(old(k)@, s_or_e);
            }
            if king_in_place(old(k)@, s_or_e) {
                lemma_generated_moves_sound(old(k)@, s_or_e, pins_used(old(k)@, None));
            }
            if king_in_place(old(k)@, s_or_e)
                && control_matches(old(k)@.ban, s_or_e.opponent(), old(k)@.control(s_or_e.opponent())) {
                crate::answers::lemma_generated_moves_answer(old(k)@, s_or_e, pins_used(old(k)@, None));
            }
        }
        let ghost ms = legal_moves_spec(k@, s_or_e, pins_used(k@, None));
        let mut te_buf: [Te; 600] = [Te::default(); 600];
        let mut pin: Option<[isize; 176]> = None;
        let te_num = k.make_legal_moves(s_or_e, &mut te_buf, &mut pin);
        let random = random_usize();
        let r = pick(&te_buf, te_num, random);
        assert(r == ms[(random % te_num) as int]);
        r
    }
}

} // verus!
