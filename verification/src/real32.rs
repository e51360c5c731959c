//! Single-precision numbers, carried by their bit patterns.

use vstd::prelude::*;

verus! {

/// Smallest font size of a reflowable document: the bits of 9.
pub const EPUB_EM_MIN: u32 = 0x4110_0000;

/// Greatest font size of a reflowable document: the bits of 12.
pub const EPUB_EM_MAX: u32 = 0x4140_0000;

/// A single-precision IEEE 754 number, held as its bit pattern.
#[derive(Clone, Copy, Debug)]
pub struct Real32 {
    pub bits: u32,
}

impl Real32 {
    /// The pattern without its sign.
    pub open spec fn magnitude(self) -> int {
        self.bits as int % 0x8000_0000
    }

    /// The pattern stands for no number.
    pub open spec fn is_nan(self) -> bool {
        self.magnitude() > 0x7f80_0000
    }

    /// Patterns in the order of their numbers; the two zeros are equal.
    pub open spec fn rank(self) -> int {
        if self.bits >= 0x8000_0000 {
            -self.magnitude()
        } else {
            self.magnitude()
        }
    }

    /// The numbers are equal, as `==` has it: nothing equals what is no number.
    pub open spec fn equals(self, other: Real32) -> bool {
        !self.is_nan() && !other.is_nan() && self.rank() == other.rank()
    }

    /// `self` is less than `other`, as `<` has it.
    pub open spec fn less(self, other: Real32) -> bool {
        !self.is_nan() && !other.is_nan() && self.rank() < other.rank()
    }

    fn nan(self) -> (b: bool)
        ensures
            b == self.is_nan(),
    {
        self.bits % 0x8000_0000 > 0x7f80_0000
    }

    fn rank_of(self) -> (r: i64)
        ensures
            r == self.rank(),
    {
        if self.bits >= 0x8000_0000 {
            -((self.bits % 0x8000_0000) as i64)
        } else {
            self.bits as i64
        }
    }

    /// [`Real32::equals`], computed.
    pub fn same(self, other: Real32) -> (b: bool)
        ensures
            b == self.equals(other),
    {
        !self.nan() && !other.nan() && self.rank_of() == other.rank_of()
    }

    /// [`Real32::less`], computed.
    pub fn below(self, other: Real32) -> (b: bool)
        ensures
            b == self.less(other),
    {
        !self.nan() && !other.nan() && self.rank_of() < other.rank_of()
    }
}

/// The nearest font size that a reflowable document can have; what is no
/// number stays as it is.
pub open spec fn epub_em(em: Real32) -> Real32 {
    if em.less(Real32 { bits: EPUB_EM_MIN }) {
        Real32 { bits: EPUB_EM_MIN }
    } else if (Real32 { bits: EPUB_EM_MAX }).less(em) {
        Real32 { bits: EPUB_EM_MAX }
    } else {
        em
    }
}

/// [`epub_em`], computed.
pub fn clamp_epub_em(em: Real32) -> (clamped: Real32)
    ensures
        clamped == epub_em(em),
{
    let least = Real32 { bits: EPUB_EM_MIN };
    let greatest = Real32 { bits: EPUB_EM_MAX };
    if em.below(least) {
        least
    } else if greatest.below(em) {
        greatest
    } else {
        em
    }
}

/// What one more adds to the pattern of a number from 8 up to 16: such numbers
/// lie 2^-20 apart, and their patterns are consecutive. A sum that leaves that
/// range lies beyond the bounds of a font size.
pub const EPUB_EM_STEP: i64 = 0x10_0000;

/// A font size that a reflowable document can have; what is no number passes
/// for one.
pub open spec fn is_font_size(em: Real32) -> bool {
    em.is_nan() || EPUB_EM_MIN <= em.bits <= EPUB_EM_MAX
}

/// The font size larger by `delta`, as far as a document can have it.
pub open spec fn stepped_em(em: Real32, delta: i8) -> Real32 {
    let sum = em.bits + delta * EPUB_EM_STEP;
    if em.is_nan() {
        em
    } else if sum < EPUB_EM_MIN {
        Real32 { bits: EPUB_EM_MIN }
    } else if sum > EPUB_EM_MAX {
        Real32 { bits: EPUB_EM_MAX }
    } else {
        Real32 { bits: sum as u32 }
    }
}

/// [`stepped_em`], computed.
pub fn adjust_epub_em(em: Real32, delta: i8) -> (stepped: Real32)
    requires
        is_font_size(em),
    ensures
        stepped == stepped_em(em, delta),
{
    if em.nan() {
        return em;
    }
    let sum: i64 = em.bits as i64 + delta as i64 * EPUB_EM_STEP;
    if sum < EPUB_EM_MIN as i64 {
        Real32 { bits: EPUB_EM_MIN }
    } else if sum > EPUB_EM_MAX as i64 {
        Real32 { bits: EPUB_EM_MAX }
    } else {
        Real32 { bits: sum as u32 }
    }
}

/// A font size that has been clamped or stepped is one that a document can
/// have; clamping such a one changes nothing.
pub proof fn law_font_sizes(em: Real32, delta: i8)
    ensures
        is_font_size(epub_em(em)),
        is_font_size(stepped_em(em, delta)),
        is_font_size(em) ==> epub_em(em) == em,
{
}

/// A step up and a step down lead back, unless the first met a bound.
pub proof fn law_steps_lead_back(em: Real32, delta: i8)
    requires
        is_font_size(em),
        !em.is_nan(),
        EPUB_EM_MIN <= em.bits + delta * EPUB_EM_STEP <= EPUB_EM_MAX,
        delta > i8::MIN,
    ensures
        stepped_em(stepped_em(em, delta), (-delta) as i8) == em,
{
}

/// Numbers are ordered: none is less than itself, of two different ones one is
/// less, and a number less than a lesser one is less too. What is no number is
/// neither less nor equal, not even to itself.
pub proof fn law_order(a: Real32, b: Real32, c: Real32)
    ensures
        !a.less(a),
        a.less(b) && b.less(c) ==> a.less(c),
        a.equals(a) <==> !a.is_nan(),
        a.equals(b) ==> b.equals(a) && !a.less(b),
        a.equals(b) && b.less(c) ==> a.less(c),
        a.less(b) && b.equals(c) ==> a.less(c),
        !a.is_nan() && !b.is_nan() ==> a.less(b) || a.equals(b) || b.less(a),
        a.is_nan() ==> !a.less(b) && !b.less(a) && !a.equals(b),
        a.is_nan() <==> 0x7f80_0000 < a.bits < 0x8000_0000 || 0xff80_0000 < a.bits,
        a.bits < b.bits <= 0x7f80_0000 ==> a.less(b),
        0x8000_0000 <= a.bits < b.bits <= 0xff80_0000 ==> b.less(a),
        0x8000_0000 < a.bits <= 0xff80_0000 && b.bits <= 0x7f80_0000 ==> a.less(b),
        a.bits == 0 && b.bits == 0x8000_0000 ==> a.equals(b),
        a.bits <= 0x7f80_0000 && b.bits <= 0x7f80_0000 ==> (a.equals(b) <==> a.bits == b.bits),
{
}

/// A font size within its bounds is kept; one outside is held at the nearer
/// bound. The bounds are 9 and 12.
pub proof fn law_font_size_is_held(em: Real32)
    ensures
        0x4110_0000 <= em.bits <= 0x4140_0000 ==> epub_em(em) == em,
        em.bits < 0x4110_0000 || 0x8000_0000 <= em.bits <= 0xff80_0000 ==> epub_em(em).bits
            == 0x4110_0000,
        0x4140_0000 < em.bits <= 0x7f80_0000 ==> epub_em(em).bits == 0x4140_0000,
        em.is_nan() ==> epub_em(em) == em,
        is_font_size(em) <==> em.is_nan() || 0x4110_0000 <= em.bits <= 0x4140_0000,
{
}

/// A step changes the font size by as many units as it says, unless a bound is
/// met; in the range of font sizes one unit is 2^20 in the bits. A greater step
/// never leads to a smaller size.
pub proof fn law_font_size_moves_by_step(em: Real32, delta: i8, more: i8)
    requires
        0x4110_0000 <= em.bits <= 0x4140_0000,
    ensures
        stepped_em(em, 0) == em,
        0x4110_0000 <= em.bits + delta * 0x10_0000 <= 0x4140_0000 ==> stepped_em(em, delta).bits
            - em.bits == delta * 0x10_0000,
        em.bits + delta * 0x10_0000 < 0x4110_0000 ==> stepped_em(em, delta).bits == 0x4110_0000,
        em.bits + delta * 0x10_0000 > 0x4140_0000 ==> stepped_em(em, delta).bits == 0x4140_0000,
        delta <= more ==> stepped_em(em, delta).bits <= stepped_em(em, more).bits,
{
}

} // verus!
