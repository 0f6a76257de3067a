//! Putting one colour over another, with straight alpha.
use vstd::prelude::*;

verus! {

/// One pixel: blue, green, red and alpha, each of 255. The colour is not
/// multiplied by the alpha.
#[derive(Clone, Copy, Debug, PartialEq, Eq, Structural)]
pub struct Pixel {
    pub blue: u8,
    pub green: u8,
    pub red: u8,
    pub alpha: u8,
}

/// A pixel nothing has been drawn on.
pub open spec fn clear() -> Pixel {
    Pixel { blue: 0, green: 0, red: 0, alpha: 0 }
}

/// How much of two alphas, one over the other, in 255ths of 255.
pub open spec fn weight(over: int, under: int) -> int {
    255 * over + under * (255 - over)
}

/// A quotient to the nearest whole; half way goes up.
pub open spec fn nearest(top: int, bottom: int) -> int {
    (2 * top + bottom) / (2 * bottom)
}

/// One channel of a colour over another's, each weighed by how much of it
/// shows.
pub open spec fn mixed(over: int, over_alpha: int, under: int, under_alpha: int) -> int {
    nearest(
        255 * over * over_alpha + under * under_alpha * (255 - over_alpha),
        weight(over_alpha, under_alpha),
    )
}

/// One colour, as red, green, blue and alpha, over a pixel.
pub open spec fn blended(under: Pixel, rgba: [u8; 4]) -> Pixel {
    let a = rgba[3] as int;
    let d = under.alpha as int;
    if a == 255 {
        Pixel { blue: rgba[2], green: rgba[1], red: rgba[0], alpha: 255 }
    } else if weight(a, d) == 0 {
        clear()
    } else {
        Pixel {
            blue: mixed(rgba[2] as int, a, under.blue as int, d) as u8,
            green: mixed(rgba[1] as int, a, under.green as int, d) as u8,
            red: mixed(rgba[0] as int, a, under.red as int, d) as u8,
            alpha: nearest(weight(a, d), 255) as u8,
        }
    }
}

/// A channel of two colours mixed is a channel.
proof fn lemma_mixed_is_a_byte(over: int, a: int, under: int, d: int)
    requires
        0 <= over <= 255,
        0 <= under <= 255,
        0 <= a <= 255,
        0 <= d <= 255,
        weight(a, d) > 0,
    ensures
        0 <= 255 * over * a + under * d * (255 - a) <= 255 * weight(a, d),
        0 <= mixed(over, a, under, d) <= 255,
        weight(a, d) <= 65025,
{
    let top = 255 * over * a + under * d * (255 - a);
    let bottom = weight(a, d);
    assert(0 <= 255 * over * a <= 255 * (255 * a)) by (nonlinear_arith)
        requires
            0 <= over <= 255,
            0 <= a,
    ;
    assert(0 <= under * d * (255 - a) <= 255 * (d * (255 - a))) by (nonlinear_arith)
        requires
            0 <= under <= 255,
            0 <= d,
            0 <= a <= 255,
    ;
    assert(d * (255 - a) <= 255 * (255 - a)) by (nonlinear_arith)
        requires
            0 <= d <= 255,
            0 <= a <= 255,
    ;
    assert(0 <= (2 * top + bottom) / (2 * bottom) <= 255) by (nonlinear_arith)
        requires
            0 <= top <= 255 * bottom,
            bottom > 0,
    ;
}

fn mix(over: u8, a: u8, under: u8, d: u8) -> (r: u8)
    requires
        weight(a as int, d as int) > 0,
    ensures
        r == mixed(over as int, a as int, under as int, d as int),
{
    proof {
        lemma_mixed_is_a_byte(over as int, a as int, under as int, d as int);
        assert(0 <= over as int * a as int <= 65025) by (nonlinear_arith)
            requires
                0 <= over as int <= 255,
                0 <= a as int <= 255,
        ;
        assert(0 <= under as int * d as int <= 65025) by (nonlinear_arith)
            requires
                0 <= under as int <= 255,
                0 <= d as int <= 255,
        ;
        assert(0 <= d as int * (255 - a as int) <= 65025) by (nonlinear_arith)
            requires
                0 <= d as int <= 255,
                0 <= a as int <= 255,
        ;
        assert(255 * over as int * a as int == 255 * (over as int * a as int))
            by (nonlinear_arith);
        assert(0 <= (under as int * d as int) * (255 - a as int) <= 65025 * 255)
            by (nonlinear_arith)
            requires
                0 <= under as int * d as int <= 65025,
                0 <= a as int <= 255,
        ;
    }
    let top: u32 = 255 * (over as u32 * a as u32) + (under as u32 * d as u32) * (255 - a as u32);
    let bottom: u32 = 255 * a as u32 + d as u32 * (255 - a as u32);
    let r: u32 = (2 * top + bottom) / (2 * bottom);
    r as u8
}

/// Puts one colour over one pixel.
///
/// An opaque colour is a write, which keeps it exact.
pub fn over(under: Pixel, rgba: [u8; 4]) -> (r: Pixel)
    ensures
        r == blended(under, rgba),
        rgba[3] == 255 ==> r.red == rgba[0] && r.green == rgba[1] && r.blue == rgba[2] && r.alpha
            == 255,
{
    let a: u8 = rgba[3];
    let d: u8 = under.alpha;
    if a == 255 {
        return Pixel { blue: rgba[2], green: rgba[1], red: rgba[0], alpha: 255 };
    }
    proof {
        assert(0 <= d as int * (255 - a as int) <= 65025) by (nonlinear_arith)
            requires
                0 <= d as int <= 255,
                0 <= a as int <= 255,
        ;
    }
    let shows: u32 = 255 * a as u32 + d as u32 * (255 - a as u32);
    if shows == 0 {
        return Pixel { blue: 0, green: 0, red: 0, alpha: 0 };
    }
    proof {
        lemma_mixed_is_a_byte(0, a as int, 0, d as int);
        assert(weight(a as int, d as int) == shows);
        assert((2 * shows + 255) / 510 <= 255);
    }
    Pixel {
        blue: mix(rgba[2], a, under.blue, d),
        green: mix(rgba[1], a, under.green, d),
        red: mix(rgba[0], a, under.red, d),
        alpha: ((2 * shows + 255) / 510) as u8,
    }
}

/// A colour over nothing is that colour, with its own alpha.
pub proof fn law_a_colour_over_nothing_is_itself(rgba: [u8; 4])
    requires
        rgba[3] > 0,
    ensures
        blended(clear(), rgba) == (Pixel {
            blue: rgba[2],
            green: rgba[1],
            red: rgba[0],
            alpha: rgba[3],
        }),
{
    let a = rgba[3] as int;
    if a != 255 {
        assert forall|over: int| 0 <= over <= 255 implies #[trigger] mixed(over, a, 0, 0)
            == over by {
            let top = 255 * over * a + 0 * 0 * (255 - a);
            let bottom = weight(a, 0);
            assert(top == over * bottom) by (nonlinear_arith)
                requires
                    top == 255 * over * a + 0 * 0 * (255 - a),
                    bottom == 255 * a + 0 * (255 - a),
            ;
            assert((2 * top + bottom) / (2 * bottom) == over) by (nonlinear_arith)
                requires
                    top == over * bottom,
                    bottom > 0,
            ;
        }
        assert(weight(a, 0) == 255 * a) by (nonlinear_arith)
            requires
                weight(a, 0) == 255 * a + 0 * (255 - a),
        ;
    }
}

/// What is opaque stays opaque under anything.
pub proof fn law_an_opaque_mark_stays_opaque(under: Pixel, rgba: [u8; 4])
    requires
        under.alpha == 255,
    ensures
        blended(under, rgba).alpha == 255,
{
    let a = rgba[3] as int;
    assert(weight(a, 255) == 65025) by (nonlinear_arith)
        requires
            weight(a, 255) == 255 * a + 255 * (255 - a),
    ;
}

/// Nothing over a mark leaves the mark as it was.
pub proof fn law_nothing_over_a_mark_is_the_mark(under: Pixel, rgba: [u8; 4])
    requires
        rgba[3] == 0,
        under.alpha > 0,
    ensures
        blended(under, rgba) == under,
{
    let d = under.alpha as int;
    assert(weight(0, d) == 255 * d) by (nonlinear_arith)
        requires
            weight(0, d) == 255 * 0 + d * (255 - 0),
    ;
    assert forall|over: int, channel: int| 0 <= channel <= 255 implies #[trigger] mixed(
        over,
        0,
        channel,
        d,
    ) == channel by {
        let top = 255 * over * 0 + channel * d * (255 - 0);
        let bottom = weight(0, d);
        assert(top == channel * bottom) by (nonlinear_arith)
            requires
                top == 255 * over * 0 + channel * d * (255 - 0),
                bottom == 255 * d,
        ;
        assert((2 * top + bottom) / (2 * bottom) == channel) by (nonlinear_arith)
            requires
                top == channel * bottom,
                bottom > 0,
        ;
    }
}

/// A mark under another colour never gets fainter.
pub proof fn law_marks_do_not_fade(under: Pixel, rgba: [u8; 4])
    ensures
        blended(under, rgba).alpha >= under.alpha,
        blended(under, rgba).alpha >= rgba[3],
{
    let a = rgba[3] as int;
    let d = under.alpha as int;
    if a != 255 {
        assert(weight(a, d) >= 255 * a && weight(a, d) >= 255 * d && weight(a, d) <= 65025)
            by (nonlinear_arith)
            requires
                weight(a, d) == 255 * a + d * (255 - a),
                0 <= a <= 255,
                0 <= d <= 255,
        ;
    }
}

/// Two colours one over the other show as much of each as its alpha says: the
/// alpha is what the upper one has and as much of the lower one's as it lets
/// through, and each channel is the two weighed by that, all to the nearest
/// whole.
pub proof fn law_a_colour_lets_through_what_its_alpha_says(under: Pixel, rgba: [u8; 4])
    requires
        rgba[3] < 255,
        rgba[3] > 0 || under.alpha > 0,
    ensures
        ({
            let r = blended(under, rgba);
            let a = rgba[3] as int;
            let d = under.alpha as int;
            let shows = 255 * a + d * (255 - a);
            let red = 255 * (rgba[0] * a) + (under.red * d) * (255 - a);
            let green = 255 * (rgba[1] * a) + (under.green * d) * (255 - a);
            let blue = 255 * (rgba[2] * a) + (under.blue * d) * (255 - a);
            &&& -255 <= 2 * (255 * r.alpha - shows) <= 255
            &&& -shows <= 2 * (r.red * shows - red) <= shows
            &&& -shows <= 2 * (r.green * shows - green) <= shows
            &&& -shows <= 2 * (r.blue * shows - blue) <= shows
        }),
{
    let a = rgba[3] as int;
    let d = under.alpha as int;
    let shows = 255 * a + d * (255 - a);
    assert(shows > 0 && shows <= 65025) by (nonlinear_arith)
        requires
            shows == 255 * a + d * (255 - a),
            0 <= a < 255,
            0 <= d <= 255,
            a > 0 || d > 0,
    ;
    lemma_channel(rgba[0] as int, a, under.red as int, d);
    lemma_channel(rgba[1] as int, a, under.green as int, d);
    lemma_channel(rgba[2] as int, a, under.blue as int, d);
    let r = blended(under, rgba);
    assert(weight(a, d) == shows);
    assert(0 <= (2 * shows + 255) / 510 <= 255);
    assert(r.alpha == (2 * shows + 255) / 510);
    assert(r.red == mixed(rgba[0] as int, a, under.red as int, d));
    assert(r.green == mixed(rgba[1] as int, a, under.green as int, d));
    assert(r.blue == mixed(rgba[2] as int, a, under.blue as int, d));
}

proof fn lemma_channel(over: int, a: int, under: int, d: int)
    requires
        0 <= over <= 255,
        0 <= under <= 255,
        0 <= a <= 255,
        0 <= d <= 255,
        weight(a, d) > 0,
    ensures
        ({
            let shows = 255 * a + d * (255 - a);
            let top = 255 * (over * a) + (under * d) * (255 - a);
            &&& 0 <= mixed(over, a, under, d) <= 255
            &&& -shows <= 2 * (mixed(over, a, under, d) * shows - top) <= shows
        }),
{
    lemma_mixed_is_a_byte(over, a, under, d);
    let shows = weight(a, d);
    let top = 255 * over * a + under * d * (255 - a);
    assert(255 * over * a == 255 * (over * a)) by (nonlinear_arith);
    let r = mixed(over, a, under, d);
    assert(-shows <= 2 * (r * shows - top) <= shows) by (nonlinear_arith)
        requires
            r == (2 * top + shows) / (2 * shows),
            shows > 0,
    ;
}

/// Nothing laid over nothing is nothing, whatever colours they name.
pub proof fn law_nothing_over_nothing_is_nothing(under: Pixel, rgba: [u8; 4])
    requires
        rgba[3] == 0,
        under.alpha == 0,
    ensures
        ({
            let r = blended(under, rgba);
            r.red == 0 && r.green == 0 && r.blue == 0 && r.alpha == 0
        }),
{
}

} // verus!
