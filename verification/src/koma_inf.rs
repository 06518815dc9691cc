//! Pieces, marks and the bit layout of their codes.
//!
//! A code is a byte: bits 0..=2 hold the kind, bit 3 the promotion, bit 4
//! the first player's mark and bit 5 the second player's mark.  The wall
//! outside the board carries both marks.

use vstd::prelude::*;
use crate::logic::Logic;

verus! {

/// What a square of the board holds, or one of the marks used to build
/// such a value.
#[derive(Clone, Copy, Debug, PartialEq, Eq, Structural)]
    pub enum KomaInf {
        /// An empty square.
        EMP,
        /// Pawn (kind only).
        FU,
        /// Lance (kind only).
        KY,
        /// Knight (kind only).
        KE,
        /// Silver (kind only).
        GI,
        /// Gold (kind only).
        KI,
        /// Bishop (kind only).
        KA,
        /// Rook (kind only).
        HI,
        /// King (kind only); also the promotion bit.
        OU,
        /// Promoted pawn (kind only).
        TO,
        /// Promoted lance (kind only).
        NY,
        /// Promoted knight (kind only).
        NK,
        /// Promoted silver (kind only).
        NG,
        /// Promoted bishop (kind only).
        UM,
        /// Promoted rook (kind only).
        RY,
        /// The mark of the player to move first.
        Self_,
        /// The mark of the second player.
        Enemy,
        /// Outside the board: both marks at once.
        Wall,
        /// First player's FU.
        SFU,
        /// First player's TO.
        STO,
        /// First player's KY.
        SKY,
        /// First player's NY.
        SNY,
        /// First player's KE.
        SKE,
        /// First player's NK.
        SNK,
        /// First player's GI.
        SGI,
        /// First player's NG.
        SNG,
        /// First player's KI.
        SKI,
        /// First player's KA.
        SKA,
        /// First player's UM.
        SUM,
        /// First player's HI.
        SHI,
        /// First player's RY.
        SRY,
        /// First player's OU.
        SOU,
        /// Second player's FU.
        EFU,
        /// Second player's TO.
        ETO,
        /// Second player's KY.
        EKY,
        /// Second player's NY.
        ENY,
        /// Second player's KE.
        EKE,
        /// Second player's NK.
        ENK,
        /// Second player's GI.
        EGI,
        /// Second player's NG.
        ENG,
        /// Second player's KI.
        EKI,
        /// Second player's KA.
        EKA,
        /// Second player's UM.
        EUM,
        /// Second player's HI.
        EHI,
        /// Second player's RY.
        ERY,
        /// Second player's OU.
        EOU,
    }

impl KomaInf {
    /// The code of a value.
    pub open spec fn value(self) -> u8 {
        match self {
            KomaInf::EMP => 0u8,
            KomaInf::FU => 1u8,
            KomaInf::KY => 2u8,
            KomaInf::KE => 3u8,
            KomaInf::GI => 4u8,
            KomaInf::KI => 5u8,
            KomaInf::KA => 6u8,
            KomaInf::HI => 7u8,
            KomaInf::OU => 8u8,
            KomaInf::TO => 9u8,
            KomaInf::NY => 10u8,
            KomaInf::NK => 11u8,
            KomaInf::NG => 12u8,
            KomaInf::UM => 14u8,
            KomaInf::RY => 15u8,
            KomaInf::Self_ => 16u8,
            KomaInf::Enemy => 32u8,
            KomaInf::Wall => 48u8,
            KomaInf::SFU => 17u8,
            KomaInf::STO => 25u8,
            KomaInf::SKY => 18u8,
            KomaInf::SNY => 26u8,
            KomaInf::SKE => 19u8,
            KomaInf::SNK => 27u8,
            KomaInf::SGI => 20u8,
            KomaInf::SNG => 28u8,
            KomaInf::SKI => 21u8,
            KomaInf::SKA => 22u8,
            KomaInf::SUM => 30u8,
            KomaInf::SHI => 23u8,
            KomaInf::SRY => 31u8,
            KomaInf::SOU => 24u8,
            KomaInf::EFU => 33u8,
            KomaInf::ETO => 41u8,
            KomaInf::EKY => 34u8,
            KomaInf::ENY => 42u8,
            KomaInf::EKE => 35u8,
            KomaInf::ENK => 43u8,
            KomaInf::EGI => 36u8,
            KomaInf::ENG => 44u8,
            KomaInf::EKI => 37u8,
            KomaInf::EKA => 38u8,
            KomaInf::EUM => 46u8,
            KomaInf::EHI => 39u8,
            KomaInf::ERY => 47u8,
            KomaInf::EOU => 40u8,
        }
    }

    /// The value with a given code, if there is one.
    pub open spec fn from_value(n: u8) -> Option<KomaInf> {
        match n {
            0u8 => Some(KomaInf::EMP),
            1u8 => Some(KomaInf::FU),
            2u8 => Some(KomaInf::KY),
            3u8 => Some(KomaInf::KE),
            4u8 => Some(KomaInf::GI),
            5u8 => Some(KomaInf::KI),
            6u8 => Some(KomaInf::KA),
            7u8 => Some(KomaInf::HI),
            8u8 => Some(KomaInf::OU),
            9u8 => Some(KomaInf::TO),
            10u8 => Some(KomaInf::NY),
            11u8 => Some(KomaInf::NK),
            12u8 => Some(KomaInf::NG),
            14u8 => Some(KomaInf::UM),
            15u8 => Some(KomaInf::RY),
            16u8 => Some(KomaInf::Self_),
            17u8 => Some(KomaInf::SFU),
            18u8 => Some(KomaInf::SKY),
            19u8 => Some(KomaInf::SKE),
            20u8 => Some(KomaInf::SGI),
            21u8 => Some(KomaInf::SKI),
            22u8 => Some(KomaInf::SKA),
            23u8 => Some(KomaInf::SHI),
            24u8 => Some(KomaInf::SOU),
            25u8 => Some(KomaInf::STO),
            26u8 => Some(KomaInf::SNY),
            27u8 => Some(KomaInf::SNK),
            28u8 => Some(KomaInf::SNG),
            30u8 => Some(KomaInf::SUM),
            31u8 => Some(KomaInf::SRY),
            32u8 => Some(KomaInf::Enemy),
            33u8 => Some(KomaInf::EFU),
            34u8 => Some(KomaInf::EKY),
            35u8 => Some(KomaInf::EKE),
            36u8 => Some(KomaInf::EGI),
            37u8 => Some(KomaInf::EKI),
            38u8 => Some(KomaInf::EKA),
            39u8 => Some(KomaInf::EHI),
            40u8 => Some(KomaInf::EOU),
            41u8 => Some(KomaInf::ETO),
            42u8 => Some(KomaInf::ENY),
            43u8 => Some(KomaInf::ENK),
            44u8 => Some(KomaInf::ENG),
            46u8 => Some(KomaInf::EUM),
            47u8 => Some(KomaInf::ERY),
            48u8 => Some(KomaInf::Wall),
            _ => None,
        }
    }

    /// The code of `self`.
    pub fn as_u8(self) -> (r: u8)
        ensures
            r == self.value(),
    {
        match self {
            KomaInf::EMP => 0u8,
            KomaInf::FU => 1u8,
            KomaInf::KY => 2u8,
            KomaInf::KE => 3u8,
            KomaInf::GI => 4u8,
            KomaInf::KI => 5u8,
            KomaInf::KA => 6u8,
            KomaInf::HI => 7u8,
            KomaInf::OU => 8u8,
            KomaInf::TO => 9u8,
            KomaInf::NY => 10u8,
            KomaInf::NK => 11u8,
            KomaInf::NG => 12u8,
            KomaInf::UM => 14u8,
            KomaInf::RY => 15u8,
            KomaInf::Self_ => 16u8,
            KomaInf::Enemy => 32u8,
            KomaInf::Wall => 48u8,
            KomaInf::SFU => 17u8,
            KomaInf::STO => 25u8,
            KomaInf::SKY => 18u8,
            KomaInf::SNY => 26u8,
            KomaInf::SKE => 19u8,
            KomaInf::SNK => 27u8,
            KomaInf::SGI => 20u8,
            KomaInf::SNG => 28u8,
            KomaInf::SKI => 21u8,
            KomaInf::SKA => 22u8,
            KomaInf::SUM => 30u8,
            KomaInf::SHI => 23u8,
            KomaInf::SRY => 31u8,
            KomaInf::SOU => 24u8,
            KomaInf::EFU => 33u8,
            KomaInf::ETO => 41u8,
            KomaInf::EKY => 34u8,
            KomaInf::ENY => 42u8,
            KomaInf::EKE => 35u8,
            KomaInf::ENK => 43u8,
            KomaInf::EGI => 36u8,
            KomaInf::ENG => 44u8,
            KomaInf::EKI => 37u8,
            KomaInf::EKA => 38u8,
            KomaInf::EUM => 46u8,
            KomaInf::EHI => 39u8,
            KomaInf::ERY => 47u8,
            KomaInf::EOU => 40u8,
        }
    }

    /// The code of `self`, widened.
    pub fn as_usize(self) -> (r: usize)
        ensures
            r == self.value() as usize,
    {
        self.as_u8() as usize
    }

    /// The value with code `n`, if `n` is a code.
    pub fn from_u8(n: u8) -> (r: Option<KomaInf>)
        ensures
            r == KomaInf::from_value(n),
    {
        match n {
            0u8 => Some(KomaInf::EMP),
            1u8 => Some(KomaInf::FU),
            2u8 => Some(KomaInf::KY),
            3u8 => Some(KomaInf::KE),
            4u8 => Some(KomaInf::GI),
            5u8 => Some(KomaInf::KI),
            6u8 => Some(KomaInf::KA),
            7u8 => Some(KomaInf::HI),
            8u8 => Some(KomaInf::OU),
            9u8 => Some(KomaInf::TO),
            10u8 => Some(KomaInf::NY),
            11u8 => Some(KomaInf::NK),
            12u8 => Some(KomaInf::NG),
            14u8 => Some(KomaInf::UM),
            15u8 => Some(KomaInf::RY),
            16u8 => Some(KomaInf::Self_),
            17u8 => Some(KomaInf::SFU),
            18u8 => Some(KomaInf::SKY),
            19u8 => Some(KomaInf::SKE),
            20u8 => Some(KomaInf::SGI),
            21u8 => Some(KomaInf::SKI),
            22u8 => Some(KomaInf::SKA),
            23u8 => Some(KomaInf::SHI),
            24u8 => Some(KomaInf::SOU),
            25u8 => Some(KomaInf::STO),
            26u8 => Some(KomaInf::SNY),
            27u8 => Some(KomaInf::SNK),
            28u8 => Some(KomaInf::SNG),
            30u8 => Some(KomaInf::SUM),
            31u8 => Some(KomaInf::SRY),
            32u8 => Some(KomaInf::Enemy),
            33u8 => Some(KomaInf::EFU),
            34u8 => Some(KomaInf::EKY),
            35u8 => Some(KomaInf::EKE),
            36u8 => Some(KomaInf::EGI),
            37u8 => Some(KomaInf::EKI),
            38u8 => Some(KomaInf::EKA),
            39u8 => Some(KomaInf::EHI),
            40u8 => Some(KomaInf::EOU),
            41u8 => Some(KomaInf::ETO),
            42u8 => Some(KomaInf::ENY),
            43u8 => Some(KomaInf::ENK),
            44u8 => Some(KomaInf::ENG),
            46u8 => Some(KomaInf::EUM),
            47u8 => Some(KomaInf::ERY),
            48u8 => Some(KomaInf::Wall),
            _ => None,
        }
    }

    /// The value with code `n`, if `n` is a code.
    pub fn from_usize(n: usize) -> (r: Option<KomaInf>)
        ensures
            r == (if n < 256 { KomaInf::from_value(n as u8) } else { None }),
    {
        if n < 256 {
            KomaInf::from_u8(n as u8)
        } else {
            None
        }
    }

    /// The value with code `n`, if `n` is a code.
    pub fn from_isize(n: isize) -> (r: Option<KomaInf>)
        ensures
            r == (if 0 <= n < 256 { KomaInf::from_value(n as u8) } else { None }),
    {
        if 0 <= n && n < 256 {
            KomaInf::from_u8(n as u8)
        } else {
            None
        }
    }

    /// `self | rhs` on codes, where that is again a code.
    pub fn bitor(self, rhs: KomaInf) -> (r: KomaInf)
        requires
            KomaInf::from_value(self.value() | rhs.value()) is Some,
        ensures
            r.value() == self.value() | rhs.value(),
    {
        let n = self.as_u8() | rhs.as_u8();
        proof {
            KomaInf::lemma_from_value(n);
        }
        match KomaInf::from_u8(n) {
            Some(k) => k,
            None => KomaInf::EMP,
        }
    }

    /// `self & rhs` on codes, which is always again a code.
    pub fn bitand(self, rhs: KomaInf) -> (r: KomaInf)
        ensures
            r.value() == self.value() & rhs.value(),
    {
        let n = self.as_u8() & rhs.as_u8();
        proof {
            KomaInf::lemma_codes(self.value());
            KomaInf::lemma_codes(rhs.value());
            lemma_and_codes(self.value(), rhs.value());
            KomaInf::lemma_codes(n);
            KomaInf::lemma_from_value(n);
        }
        match KomaInf::from_u8(n) {
            Some(k) => k,
            None => KomaInf::EMP,
        }
    }

    /// Whether `self & rhs` on codes is not empty.
    pub fn meets(self, rhs: KomaInf) -> (r: bool)
        ensures
            r == (self.value() & rhs.value() != 0),
    {
        self.as_u8() & rhs.as_u8() != 0
    }

    /// The two marks of the players.
    pub open spec fn is_side(self) -> bool {
        self == KomaInf::Self_ || self == KomaInf::Enemy
    }

    /// The three marks: the players' and the wall.
    pub open spec fn is_mark(self) -> bool {
        self == KomaInf::Self_ || self == KomaInf::Enemy || self == KomaInf::Wall
    }

    /// A piece of player `side` standing on the board (a mark is not one).
    pub open spec fn is_piece_of(self, side: KomaInf) -> bool {
        &&& !self.is_mark()
        &&& self.value() & side.value() != 0
    }

    /// The other player.
    pub open spec fn opponent(self) -> KomaInf {
        if self == KomaInf::Self_ { KomaInf::Enemy } else { KomaInf::Self_ }
    }

    /// The codes are the bytes up to 48 but 13, 29 and 45.
    pub proof fn lemma_codes(n: u8)
        ensures
            (KomaInf::from_value(n) is Some) == (n <= 48 && n != 13 && n != 29 && n != 45),
    {
    }

    /// Codes name values one to one.
    pub proof fn lemma_from_value(n: u8)
        ensures
            KomaInf::from_value(n) matches Some(k) ==> k.value() == n,
    {
    }

    /// Codes name values one to one.
    pub proof fn lemma_value_from(k: KomaInf)
        ensures
            KomaInf::from_value(k.value()) == Some(k),
            k.value() < 64,
    {
    }
}

impl Logic for KomaInf {
    open spec fn is_stood(&self) -> bool {
        *self != KomaInf::EMP
    }

    /// Whether a value is anything but the empty square.
    fn stood(&self) -> (r: bool) {
        *self != KomaInf::EMP
    }
}

/// The bits two codes share form a code.
pub proof fn lemma_and_codes(a: u8, b: u8)
    by (bit_vector)
    requires
        a <= 48 && a != 13 && a != 29 && a != 45,
        b <= 48 && b != 13 && b != 29 && b != 45,
    ensures
        a & b <= 48 && a & b != 13 && a & b != 29 && a & b != 45,
{
}

/// Bit 4 of a byte, as arithmetic.
pub proof fn lemma_bit4(c: u8)
    by (bit_vector)
    ensures
        (c & 16u8 != 0) == (c % 32 >= 16),
        (16u8 & c != 0) == (c % 32 >= 16),
{
}

/// Bit 5 of a byte, as arithmetic.
pub proof fn lemma_bit5(c: u8)
    by (bit_vector)
    ensures
        (c & 32u8 != 0) == (c % 64 >= 32),
        (32u8 & c != 0) == (c % 64 >= 32),
{
}

/// Putting a mark on a kind.
pub proof fn lemma_mark_kind(c: u8)
    by (bit_vector)
    requires
        c < 16,
    ensures
        16u8 | c == 16 + c,
        32u8 | c == 32 + c,
        c | 16u8 == 16 + c,
        c | 32u8 == 32 + c,
{
}

/// Setting the promotion bit.
pub proof fn lemma_promote_bit(c: u8)
    by (bit_vector)
    requires
        c < 64,
    ensures
        c | 8u8 == (if c % 16 >= 8 { c } else { (c + 8) as u8 }),
{
}

/// Clearing the promotion bit and both marks leaves the kind.
pub proof fn lemma_kind_bits(c: u8)
    by (bit_vector)
    requires
        c < 64,
    ensures
        c & !8u8 & !16u8 & !32u8 == c % 8,
{
}

} // verus!
