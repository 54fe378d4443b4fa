use vstd::prelude::*;

verus! {

/// The glyph drawn in front of a temperature that is not below zero.
pub const PLUS_GLYPH: u32 = 10;

/// The glyph drawn in front of a temperature below zero.
pub const MINUS_GLYPH: u32 = 11;

/// The digits of a rounded temperature magnitude as drawn: hundreds, tens
/// and units, without the leading zeros; the units digit is always drawn.
/// A magnitude of a thousand or more keeps its whole quotient by a hundred
/// in the first place.
pub open spec fn shown_digits(magnitude: u32) -> Seq<u32> {
    let hundreds = magnitude / 100;
    let tens = (magnitude % 100) / 10;
    let units = magnitude % 10;
    if hundreds != 0 {
        seq![hundreds, tens, units]
    } else if tens != 0 {
        seq![tens, units]
    } else {
        seq![units]
    }
}

/// The glyphs of a temperature read-out: the sign, then the shown digits.
pub open spec fn temperature_glyphs_of(negative: bool, magnitude: u32) -> Seq<u32> {
    seq![if negative { MINUS_GLYPH } else { PLUS_GLYPH }] + shown_digits(magnitude)
}

/// The number that a sequence of decimal places spells, most significant
/// place first.
pub open spec fn place_value(s: Seq<u32>) -> nat
    decreases s.len(),
{
    if s.len() == 0 {
        0
    } else {
        place_value(s.drop_last()) * 10 + s.last() as nat
    }
}

/// The digits that a temperature read-out draws spell the rounded
/// magnitude: only leading zeros are left out.
pub proof fn lemma_shown_digits_spell(magnitude: u32)
    ensures
        place_value(shown_digits(magnitude)) == magnitude,
        shown_digits(magnitude).len() >= 1,
{
    let h: u32 = magnitude / 100;
    let r: u32 = magnitude % 100;
    let t: u32 = r / 10;
    let u: u32 = magnitude % 10;
    assert(magnitude == h * 100 + r);
    assert(r == t * 10 + r % 10);
    assert(r % 10 == u) by {
        assert(magnitude == h * 100 + t * 10 + r % 10);
        assert(magnitude == (h * 10 + t) * 10 + r % 10) by (nonlinear_arith)
            requires
                magnitude == h * 100 + t * 10 + r % 10,
        ;
    }
    let s = shown_digits(magnitude);
    let e = Seq::<u32>::empty();
    assert(place_value(e) == 0);
    if h != 0 {
        assert(s =~= seq![h, t, u]);
        assert(s.drop_last() =~= seq![h, t]);
        assert(s.drop_last().drop_last() =~= seq![h]);
        assert(s.drop_last().drop_last().drop_last() =~= e);
        assert(place_value(seq![h]) == h);
        assert(place_value(seq![h, t]) == h * 10 + t);
        assert(place_value(s) == (h * 10 + t) * 10 + u);
    } else if t != 0 {
        assert(s =~= seq![t, u]);
        assert(s.drop_last() =~= seq![t]);
        assert(s.drop_last().drop_last() =~= e);
        assert(place_value(seq![t]) == t);
        assert(place_value(s) == t * 10 + u);
    } else {
        assert(s =~= seq![u]);
        assert(s.drop_last() =~= e);
        assert(place_value(s) == u);
    }
}

/// What a temperature read-out shows, for every sign and magnitude: first
/// the minus glyph exactly when the temperature is below zero, else the
/// plus glyph; then one to three places that spell the magnitude, the last
/// two of them single digits and the first not zero unless it stands alone.
pub open spec fn reads_as(glyphs: Seq<u32>, negative: bool, magnitude: u32) -> bool {
    &&& 2 <= glyphs.len() <= 4
    &&& glyphs[0] == (if negative { 11u32 } else { 10u32 })
    &&& place_value(glyphs.drop_first()) == magnitude
    &&& glyphs.len() > 2 ==> glyphs[1] != 0
    &&& forall|i: int| 2 <= i < glyphs.len() ==> #[trigger] glyphs[i] < 10
    &&& glyphs[glyphs.len() - 1] == magnitude % 10
}

/// The read-out shows the sign of the temperature and spells its magnitude
/// without leading zeros.
pub proof fn lemma_temperature_reads_as(negative: bool, magnitude: u32)
    ensures
        reads_as(temperature_glyphs_of(negative, magnitude), negative, magnitude),
{
    let g = temperature_glyphs_of(negative, magnitude);
    lemma_shown_digits_spell(magnitude);
    assert(g.drop_first() =~= shown_digits(magnitude));
    assert(MINUS_GLYPH == 11 && PLUS_GLYPH == 10);
}

/// The glyph ids that a temperature read-out draws, left to right: the sign
/// glyph (`MINUS_GLYPH` when `negative`, else `PLUS_GLYPH`), then the
/// hundreds, tens and units of `magnitude` with leading zeros left out.
pub fn temperature_glyphs(negative: bool, magnitude: u32) -> (glyphs: Vec<u32>)
    ensures
        glyphs@ == temperature_glyphs_of(negative, magnitude),
        reads_as(glyphs@, negative, magnitude),
{
    proof {
        lemma_temperature_reads_as(negative, magnitude);
    }
    let hundreds = magnitude / 100;
    let tens = (magnitude % 100) / 10;
    let units = magnitude % 10;
    let mut glyphs: Vec<u32> = Vec::new();
    if negative {
        glyphs.push(MINUS_GLYPH);
    } else {
        glyphs.push(PLUS_GLYPH);
    }
    // A digit is drawn once a non-zero digit has been drawn before it or it
    // is non-zero itself; the units digit is drawn in any case.
    let mut started = false;
    if hundreds != 0 {
        glyphs.push(hundreds);
        started = true;
    }
    if tens != 0 || started {
        glyphs.push(tens);
    }
    glyphs.push(units);
    assert(glyphs@ =~= temperature_glyphs_of(negative, magnitude));
    glyphs
}

} // verus!
