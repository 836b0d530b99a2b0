//! The choices about surfaces that do not come down to a single comparison:
//! how rough a metal may be, whether a ray at a dielectric is reflected or
//! refracted, and which surface a sphere of the random scene gets.
use vstd::prelude::*;
use crate::scalar::Scalar;
use crate::scalar::ONE_BITS;

verus! {

/// The bits of 0.8, the binary64 number nearest to four fifths.
pub const DIFFUSE_SHARE_BITS: u64 = 0x3fe9_9999_9999_999a;

/// The bits of 0.95, the binary64 number nearest to nineteen twentieths.
pub const OPAQUE_SHARE_BITS: u64 = 0x3fee_6666_6666_6666;

/// The three surface models.
#[derive(Clone, Copy, Debug, PartialEq, Eq, Structural)]
pub enum Kind {
    Lambertian,
    Metal,
    Dielectric,
}

/// What a dielectric does with a ray.
#[derive(Clone, Copy, Debug, PartialEq, Eq, Structural)]
pub enum Lobe {
    Reflect,
    Refract,
}

/// The fuzz that a metal is built with: the fuzz asked for where that is
/// below one, and one in every other case, a NaN included.
pub open spec fn clamped(fuzz: Scalar) -> Scalar {
    if fuzz.spec_lt(Scalar { bits: ONE_BITS }) {
        fuzz
    } else {
        Scalar { bits: ONE_BITS }
    }
}

/// Bounds the fuzz of a metal by one. The result is always a number, and
/// never above one.
pub fn clamp_fuzz(fuzz: Scalar) -> (r: Scalar)
    ensures
        r == clamped(fuzz),
        !r.spec_is_nan(),
        !r.spec_gt(Scalar { bits: ONE_BITS }),
{
    let one = Scalar::one();
    if fuzz.lt(one) {
        fuzz
    } else {
        one
    }
}

/// The choice of a dielectric. `discriminant` is that of Snell's law,
/// `1 - (ni/nt)^2 * (1 - cos^2)`: where it is not positive no refracted ray
/// exists and the ray is reflected. Otherwise the ray is reflected with the
/// probability `reflectance`: where the uniform `draw` falls below it.
pub open spec fn lobe_of(discriminant: Scalar, reflectance: Scalar, draw: Scalar) -> Lobe {
    if !discriminant.spec_gt(Scalar { bits: 0 }) {
        Lobe::Reflect
    } else if draw.spec_lt(reflectance) {
        Lobe::Reflect
    } else {
        Lobe::Refract
    }
}

/// Chooses between reflection and refraction at a dielectric.
pub fn choose_lobe(discriminant: Scalar, reflectance: Scalar, draw: Scalar) -> (lobe: Lobe)
    ensures
        lobe == lobe_of(discriminant, reflectance, draw),
{
    if !discriminant.gt(Scalar::zero()) {
        Lobe::Reflect
    } else if draw.lt(reflectance) {
        Lobe::Reflect
    } else {
        Lobe::Refract
    }
}

/// Glass that reflects nothing lets every ray through that can be
/// refracted: with a positive discriminant and a reflectance of zero, no
/// draw from `[0, 1)` falls below the reflectance.
pub proof fn lemma_zero_reflectance_refracts(
    discriminant: Scalar,
    reflectance: Scalar,
    draw: Scalar,
)
    requires
        discriminant.spec_gt(Scalar { bits: 0 }),
        reflectance.value() == 0,
        draw.value() >= 0,
    ensures
        lobe_of(discriminant, reflectance, draw) == Lobe::Refract,
{
}

/// The surface of a small sphere of the random scene, by a uniform draw
/// from `[0, 1)`: diffuse below 0.8, metal from there up to 0.95, glass
/// above.
pub open spec fn kind_of(choice: Scalar) -> Kind {
    if choice.spec_lt(Scalar { bits: DIFFUSE_SHARE_BITS }) {
        Kind::Lambertian
    } else if choice.spec_lt(Scalar { bits: OPAQUE_SHARE_BITS }) {
        Kind::Metal
    } else {
        Kind::Dielectric
    }
}

/// Picks the surface of a small sphere of the random scene.
pub fn choose_kind(choice: Scalar) -> (kind: Kind)
    ensures
        kind == kind_of(choice),
{
    if choice.lt(Scalar::from_bits(DIFFUSE_SHARE_BITS)) {
        Kind::Lambertian
    } else if choice.lt(Scalar::from_bits(OPAQUE_SHARE_BITS)) {
        Kind::Metal
    } else {
        Kind::Dielectric
    }
}

} // verus!
