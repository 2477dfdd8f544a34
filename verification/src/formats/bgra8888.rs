//! BGRA format storing each component in an 8-bit integer.

use vstd::arithmetic::div_mod::{lemma_div_is_ordered, lemma_div_multiples_vanish};
use vstd::arithmetic::mul::lemma_mul_upper_bound;
use vstd::prelude::*;

use crate::format::Format;

verus! {

/// The alpha component that blending a source pixel with alpha `az`
/// over a destination pixel with alpha `ad` produces.
///
/// Components range over zero to 255; the formulae are the source-over
/// formulae scaled by 255, with flooring division as the canonical
/// rounding rule.
pub open spec fn source_over_alpha(ad: int, az: int) -> int {
    az + (ad * (255 - az)) / 255
}

/// The color component that blending a source pixel with alpha `az` and
/// color component `cs` over a destination pixel with alpha `ad` and
/// color component `cd` produces, when `source_over_alpha(ad, az)` is
/// not zero.
///
/// The final reduction modulo 256 reflects that the component is
/// stored in eight bits; the quotient can exceed 255 when the fixed
/// point alpha sum underestimates the true result alpha.
pub open spec fn source_over_channel(ad: int, az: int, cd: int, cs: int) -> int {
    ((az * cs + (ad * cd * (255 - az)) / 255) / source_over_alpha(ad, az)) % 256
}

/// The pixel that blending `s` over `d` produces, with components in
/// the order blue, green, red, alpha.
///
/// When the result alpha is zero the result is the canonical fully
/// transparent pixel.
pub open spec fn source_over_pixel(d: Seq<u8>, s: Seq<u8>) -> Seq<u8> {
    let ad = d[3] as int;
    let az = s[3] as int;
    if source_over_alpha(ad, az) == 0 {
        seq![0u8, 0u8, 0u8, 0u8]
    } else {
        seq![
            source_over_channel(ad, az, d[0] as int, s[0] as int) as u8,
            source_over_channel(ad, az, d[1] as int, s[1] as int) as u8,
            source_over_channel(ad, az, d[2] as int, s[2] as int) as u8,
            source_over_alpha(ad, az) as u8,
        ]
    }
}

/// BGRA format storing each component in an 8-bit integer.
///
/// The components are stored in the following order,
/// starting at low addresses and ending at high addresses:
/// blue, green, red, alpha.
#[derive(Clone, Copy, Debug)]
pub struct Bgra8888;

/// Truncating a `u32` to eight bits keeps its value modulo 256.
proof fn lemma_truncate_u8(x: u32)
    ensures
        (x as u8) == (x % 256) as u8,
{
    assert(x as u8 == (x % 256) as u8) by (bit_vector);
}

/// The result alpha never exceeds 255.
proof fn lemma_alpha_bounded(ad: int, az: int)
    requires
        0 <= ad <= 255,
        0 <= az <= 255,
    ensures
        0 <= source_over_alpha(ad, az) <= 255,
{
    lemma_mul_upper_bound(ad, 255, 255 - az, 255 - az);
    lemma_div_is_ordered(ad * (255 - az), 255 * (255 - az), 255);
    lemma_div_multiples_vanish(255 - az, 255);
    assert(ad * (255 - az) >= 0) by (nonlinear_arith)
        requires
            ad >= 0,
            255 - az >= 0,
    ;
}

/// Opacity override: blending a fully opaque source over any
/// destination yields the source exactly.
pub proof fn lemma_opaque_source_exact(d: Seq<u8>, s: Seq<u8>)
    requires
        d.len() == 4,
        s.len() == 4,
        s[3] == 255,
    ensures
        source_over_pixel(d, s) =~= s,
{
    let ad = d[3] as int;
    assert(source_over_alpha(ad, 255) == 255) by {
        assert(ad * 0 == 0) by (nonlinear_arith);
    }
    assert forall|k: int| 0 <= k < 3 implies source_over_channel(
        ad,
        255,
        d[k] as int,
        s[k] as int,
    ) == s[k] as int by {
        let cs = s[k] as int;
        let cd = d[k] as int;
        assert(ad * cd * 0 == 0) by (nonlinear_arith);
        assert(255 * cs + 0int / 255 == 255 * cs);
        lemma_div_multiples_vanish(cs, 255);
        assert((255 * cs) / 255 == cs);
        assert(cs % 256 == cs);
    }
}

/// Invisibility invariance: blending a source with alpha zero leaves
/// the destination unchanged, except that a fully transparent
/// destination becomes the canonical transparent pixel.
pub proof fn lemma_invisible_source_exact(d: Seq<u8>, s: Seq<u8>)
    requires
        d.len() == 4,
        s.len() == 4,
        s[3] == 0,
    ensures
        d[3] == 0 ==> source_over_pixel(d, s) =~= seq![0u8, 0u8, 0u8, 0u8],
        d[3] != 0 ==> source_over_pixel(d, s) =~= d,
{
    let ad = d[3] as int;
    assert(source_over_alpha(ad, 0) == ad) by {
        lemma_div_multiples_vanish(ad, 255);
        assert(ad * 255 == 255 * ad) by (nonlinear_arith);
    }
    if ad != 0 {
        assert forall|k: int| 0 <= k < 3 implies source_over_channel(
            ad,
            0,
            d[k] as int,
            s[k] as int,
        ) == d[k] as int by {
            let cd = d[k] as int;
            let cs = s[k] as int;
            assert(ad * cd * 255 == 255 * (ad * cd)) by (nonlinear_arith);
            lemma_div_multiples_vanish(ad * cd, 255);
            assert((ad * cd * 255) / 255 == ad * cd);
            assert(0 * cs == 0);
            lemma_div_multiples_vanish(cd, ad);
            assert((ad * cd) / ad == cd);
            assert(cd % 256 == cd);
        }
    }
}

impl Format for Bgra8888 {
    type Pixel = [u8; 4];

    open spec fn spec_is_visible(&self, pixel: [u8; 4]) -> bool {
        pixel@[3] > 0
    }

    open spec fn spec_is_opaque(&self, pixel: [u8; 4]) -> bool {
        pixel@[3] == 255
    }

    open spec fn blends_to(&self, dest: [u8; 4], source: [u8; 4], result: [u8; 4]) -> bool {
        result@ == source_over_pixel(dest@, source@)
    }

    proof fn lemma_blend_opaque_source(&self, dest: [u8; 4], source: [u8; 4], result: [u8; 4]) {
        lemma_opaque_source_exact(dest@, source@);
        assert(result@ =~= source@);
        assert(result =~= source);
    }

    proof fn lemma_blend_invisible_source(&self, dest: [u8; 4], source: [u8; 4], result: [u8; 4]) {
        lemma_invisible_source_exact(dest@, source@);
        if dest@[3] == 0 {
            assert(!self.spec_is_visible(result));
            assert(!self.spec_is_visible(dest));
        } else {
            assert(result@ =~= dest@);
            assert(result =~= dest);
        }
    }

    proof fn lemma_blend_functional(
        &self,
        dest: [u8; 4],
        source: [u8; 4],
        r1: [u8; 4],
        r2: [u8; 4],
    ) {
        assert(r1@ =~= r2@);
        assert(r1 =~= r2);
    }

    fn is_visible(&self, pixel: [u8; 4]) -> (r: bool) {
        pixel[3] > 0
    }

    fn is_opaque(&self, pixel: [u8; 4]) -> (r: bool) {
        pixel[3] == 255
    }

    fn blend_source_over(&self, dest: &mut [[u8; 4]], source: [u8; 4]) {
        let bs = source[0] as u32;
        let gs = source[1] as u32;
        let rs = source[2] as u32;
        let az = source[3] as u32;

        let mut i: usize = 0;
        while i < dest.len()
            invariant
                0 <= i <= dest@.len(),
                dest@.len() == old(dest)@.len(),
                bs == source@[0] as int,
                gs == source@[1] as int,
                rs == source@[2] as int,
                az == source@[3] as int,
                forall|j: int|
                    0 <= j < i ==> self.blends_to(old(dest)@[j], source, #[trigger] dest@[j]),
                forall|j: int| i <= j < dest@.len() ==> #[trigger] dest@[j] == old(dest)@[j],
            decreases dest@.len() - i,
        {
            let p: [u8; 4] = dest[i];

            let bd = p[0] as u32;
            let gd = p[1] as u32;
            let rd = p[2] as u32;
            let ad = p[3] as u32;

            proof {
                lemma_alpha_bounded(ad as int, az as int);
                lemma_mul_upper_bound(ad as int, 255, 255 - az, 255);
            }
            let ar = az + ad * (255 - az) / 255;

            if ar == 0 {
                dest[i] = [0u8, 0u8, 0u8, 0u8];
                proof {
                    assert(dest@[i as int]@ =~= source_over_pixel(p@, source@));
                }
            } else {
                proof {
                    lemma_mul_upper_bound(az as int, 255, bs as int, 255);
                    lemma_mul_upper_bound(az as int, 255, gs as int, 255);
                    lemma_mul_upper_bound(az as int, 255, rs as int, 255);
                    lemma_mul_upper_bound(ad as int, 255, bd as int, 255);
                    lemma_mul_upper_bound(ad as int, 255, gd as int, 255);
                    lemma_mul_upper_bound(ad as int, 255, rd as int, 255);
                    lemma_mul_upper_bound((ad * bd) as int, 65025, (255 - az) as int, 255);
                    lemma_mul_upper_bound((ad * gd) as int, 65025, (255 - az) as int, 255);
                    lemma_mul_upper_bound((ad * rd) as int, 65025, (255 - az) as int, 255);
                    lemma_div_is_ordered((ad * bd * (255 - az)) as int, 16581375int, 255);
                    lemma_div_is_ordered((ad * gd * (255 - az)) as int, 16581375int, 255);
                    lemma_div_is_ordered((ad * rd * (255 - az)) as int, 16581375int, 255);
                }
                let br = (az * bs + ad * bd * (255 - az) / 255) / ar;
                let gr = (az * gs + ad * gd * (255 - az) / 255) / ar;
                let rr = (az * rs + ad * rd * (255 - az) / 255) / ar;

                let out: [u8; 4] = [
                    #[verifier::truncate] (br as u8),
                    #[verifier::truncate] (gr as u8),
                    #[verifier::truncate] (rr as u8),
                    ar as u8,
                ];
                dest[i] = out;
                proof {
                    lemma_truncate_u8(br);
                    lemma_truncate_u8(gr);
                    lemma_truncate_u8(rr);
                    assert(dest@[i as int]@ =~= source_over_pixel(p@, source@));
                }
            }

            i = i + 1;
        }
    }
}

} // verus!
