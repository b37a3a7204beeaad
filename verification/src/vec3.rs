//! Three-component single-precision vector, stored as IEEE-754 bit patterns.

use vstd::prelude::*;
use vstd::bytes::spec_u32_to_le_bytes;
use vstd::bytes::u32_to_le_bytes;

use crate::StlError;
use crate::StlErrorV;
use crate::float_bits::add_bits;
use crate::float_bits::sub_bits;
use crate::float_bits::mul_bits;
use crate::float_bits::div_bits;
use crate::float_bits::neg_bits;
use crate::float_bits::sqrt_bits;
use crate::float_bits::float_bits_of;
use crate::float_bits::float_add;
use crate::float_bits::float_sub;
use crate::float_bits::float_mul;
use crate::float_bits::float_div;
use crate::float_bits::float_neg;
use crate::float_bits::float_sqrt;
use crate::float_bits::parse_float_bits;

verus! {

/// A 3D vector; each component is the bit pattern of a single-precision
/// float, so two vectors are equal exactly when their bit patterns are.
#[derive(Debug, Clone, Copy, PartialEq, Eq, Structural)]
pub struct Vec3 {
    pub x: u32,
    pub y: u32,
    pub z: u32,
}

/// Componentwise sum.
pub open spec fn add_v(a: Vec3, b: Vec3) -> Vec3 {
    Vec3 { x: add_bits(a.x, b.x), y: add_bits(a.y, b.y), z: add_bits(a.z, b.z) }
}

/// Componentwise difference.
pub open spec fn sub_v(a: Vec3, b: Vec3) -> Vec3 {
    Vec3 { x: sub_bits(a.x, b.x), y: sub_bits(a.y, b.y), z: sub_bits(a.z, b.z) }
}

/// Every component scaled by one float.
pub open spec fn scale_v(a: Vec3, s: u32) -> Vec3 {
    Vec3 { x: mul_bits(a.x, s), y: mul_bits(a.y, s), z: mul_bits(a.z, s) }
}

/// Componentwise product.
pub open spec fn mul_v(a: Vec3, b: Vec3) -> Vec3 {
    Vec3 { x: mul_bits(a.x, b.x), y: mul_bits(a.y, b.y), z: mul_bits(a.z, b.z) }
}

/// Every component divided by one float.
pub open spec fn div_v(a: Vec3, s: u32) -> Vec3 {
    Vec3 { x: div_bits(a.x, s), y: div_bits(a.y, s), z: div_bits(a.z, s) }
}

/// Componentwise negation.
pub open spec fn neg_v(a: Vec3) -> Vec3 {
    Vec3 { x: neg_bits(a.x), y: neg_bits(a.y), z: neg_bits(a.z) }
}

/// Dot product, summed left to right.
pub open spec fn dot_v(a: Vec3, b: Vec3) -> u32 {
    add_bits(add_bits(mul_bits(a.x, b.x), mul_bits(a.y, b.y)), mul_bits(a.z, b.z))
}

/// Euclidean length: square root of the dot product with itself.
pub open spec fn d3_v(a: Vec3) -> u32 {
    sqrt_bits(dot_v(a, a))
}

/// The right-hand-rule cross product; each component is one product minus
/// another, exactly as the standard formula reads.
pub open spec fn cross_v(a: Vec3, b: Vec3) -> Vec3 {
    Vec3 {
        x: sub_bits(mul_bits(a.y, b.z), mul_bits(a.z, b.y)),
        y: sub_bits(mul_bits(a.z, b.x), mul_bits(a.x, b.z)),
        z: sub_bits(mul_bits(a.x, b.y), mul_bits(a.y, b.x)),
    }
}

/// The vector divided by its own length.
pub open spec fn normalize_v(a: Vec3) -> Vec3 {
    div_v(a, d3_v(a))
}

/// The 12-byte little-endian serialization: x, then y, then z.
pub open spec fn le_bytes_v(a: Vec3) -> Seq<u8> {
    spec_u32_to_le_bytes(a.x) + spec_u32_to_le_bytes(a.y) + spec_u32_to_le_bytes(a.z)
}

/// Parse a sequence of whitespace-separated float tokens; the first token
/// that is no float is the error.
pub open spec fn parse_floats(toks: Seq<Seq<u8>>) -> Result<Seq<u32>, Seq<u8>>
    decreases toks.len(),
{
    if toks.len() == 0 {
        Ok(Seq::empty())
    } else {
        match float_bits_of(toks[0]) {
            None => Err(toks[0]),
            Some(b) => match parse_floats(toks.drop_first()) {
                Err(t) => Err(t),
                Ok(rest) => Ok(seq![b] + rest),
            },
        }
    }
}

/// Turn a token list into a vector: every token must be a float, and there
/// must be exactly three of them.
pub open spec fn parse_triple(toks: Seq<Seq<u8>>) -> Result<Vec3, StlErrorV> {
    match parse_floats(toks) {
        Err(t) => Err(StlErrorV::BadFloat(t)),
        Ok(bs) => if bs.len() == 3 {
            Ok(Vec3 { x: bs[0], y: bs[1], z: bs[2] })
        } else {
            Err(StlErrorV::WrongCount)
        },
    }
}

impl Vec3 {
    /// Componentwise sum.
    pub fn add(self, rhs: Vec3) -> (r: Vec3)
        ensures
            r == add_v(self, rhs),
    {
        Vec3 {
            x: float_add(self.x, rhs.x),
            y: float_add(self.y, rhs.y),
            z: float_add(self.z, rhs.z),
        }
    }

    /// Componentwise difference.
    pub fn sub(self, rhs: Vec3) -> (r: Vec3)
        ensures
            r == sub_v(self, rhs),
    {
        Vec3 {
            x: float_sub(self.x, rhs.x),
            y: float_sub(self.y, rhs.y),
            z: float_sub(self.z, rhs.z),
        }
    }

    /// Every component scaled by `rhs`.
    pub fn scale(self, rhs: u32) -> (r: Vec3)
        ensures
            r == scale_v(self, rhs),
    {
        Vec3 {
            x: float_mul(self.x, rhs),
            y: float_mul(self.y, rhs),
            z: float_mul(self.z, rhs),
        }
    }

    /// Componentwise product.
    pub fn mul(self, rhs: Vec3) -> (r: Vec3)
        ensures
            r == mul_v(self, rhs),
    {
        Vec3 {
            x: float_mul(self.x, rhs.x),
            y: float_mul(self.y, rhs.y),
            z: float_mul(self.z, rhs.z),
        }
    }

    /// Every component divided by `rhs`.
    pub fn div(self, rhs: u32) -> (r: Vec3)
        ensures
            r == div_v(self, rhs),
    {
        Vec3 {
            x: float_div(self.x, rhs),
            y: float_div(self.y, rhs),
            z: float_div(self.z, rhs),
        }
    }

    /// Componentwise negation.
    pub fn neg(self) -> (r: Vec3)
        ensures
            r == neg_v(self),
    {
        Vec3 { x: float_neg(self.x), y: float_neg(self.y), z: float_neg(self.z) }
    }

    /// Euclidean length.
    pub fn d3(self) -> (r: u32)
        ensures
            r == d3_v(self),
    {
        float_sqrt(self.dot(self))
    }

    /// Dot product.
    pub fn dot(self, rhs: Vec3) -> (r: u32)
        ensures
            r == dot_v(self, rhs),
    {
        float_add(
            float_add(float_mul(self.x, rhs.x), float_mul(self.y, rhs.y)),
            float_mul(self.z, rhs.z),
        )
    }

    /// The vector divided by its own length. Near-zero vectors divide by a
    /// vanishing length and give non-finite components; callers avoid them.
    pub fn normalize(self) -> (r: Vec3)
        ensures
            r == normalize_v(self),
    {
        let d = self.d3();
        self.div(d)
    }

    /// The right-hand-rule cross product.
    pub fn cross(self, rhs: Vec3) -> (r: Vec3)
        ensures
            r == cross_v(self, rhs),
    {
        Vec3 {
            x: float_sub(float_mul(self.y, rhs.z), float_mul(self.z, rhs.y)),
            y: float_sub(float_mul(self.z, rhs.x), float_mul(self.x, rhs.z)),
            z: float_sub(float_mul(self.x, rhs.y), float_mul(self.y, rhs.x)),
        }
    }

    /// Append the 12-byte little-endian serialization of the vector.
    pub fn write_le_bytes(&self, out: &mut Vec<u8>)
        ensures
            final(out)@ == old(out)@ + le_bytes_v(*self),
    {
        push_u32_le(out, self.x);
        push_u32_le(out, self.y);
        push_u32_le(out, self.z);
        proof {
            assert(out@ =~= old(out)@ + le_bytes_v(*self));
        }
    }

    /// Build a vector from exactly three floats; any other count is refused.
    pub fn try_from(value: Vec<u32>) -> (r: Result<Vec3, StlError>)
        ensures
            value@.len() == 3 ==> r == Ok::<Vec3, StlError>(
                Vec3 { x: value@[0], y: value@[1], z: value@[2] },
            ),
            value@.len() != 3 ==> r == Err::<Vec3, StlError>(StlError::WrongCount),
    {
        if value.len() != 3 {
            return Err(StlError::WrongCount);
        }
        Ok(Vec3 { x: value[0], y: value[1], z: value[2] })
    }

    /// Parse a whitespace-separated coordinate triple such as `1.0 2.0 3.0`.
    pub fn from_str(s: &[u8]) -> (r: Result<Vec3, StlError>)
        ensures
            (match r {
                Ok(v) => Ok(v),
                Err(e) => Err(crate::err_view(e)),
            }) == parse_triple(crate::stl_parser::tokens(s@)),
    {
        proof {
            let t = crate::stl_parser::tokens(s@);
            if t.len() > 0 {
                assert(t.skip(0) =~= t);
            } else {
                assert(Seq::<Seq<u8>>::empty() =~= t);
            }
            assert(crate::stl_parser::tokens_from(s@, 0) == t);
        }
        crate::stl_parser::parse_line_triple(s, 0)
    }
}

/// Append the 4-byte little-endian serialization of one word.
pub(crate) fn push_u32_le(out: &mut Vec<u8>, x: u32)
    ensures
        final(out)@ == old(out)@ + spec_u32_to_le_bytes(x),
{
    let b = u32_to_le_bytes(x);
    out.push(b[0]);
    out.push(b[1]);
    out.push(b[2]);
    out.push(b[3]);
    proof {
        assert(out@ =~= old(out)@ + b@);
    }
}

impl From<(u32, u32, u32)> for Vec3 {
    /// Pack a coordinate triple, first to last.
    fn from(value: (u32, u32, u32)) -> (r: Vec3) {
        Vec3 { x: value.0, y: value.1, z: value.2 }
    }
}

impl vstd::std_specs::convert::FromSpecImpl<(u32, u32, u32)> for Vec3 {
    open spec fn obeys_from_spec() -> bool {
        true
    }

    open spec fn from_spec(value: (u32, u32, u32)) -> Vec3 {
        Vec3 { x: value.0, y: value.1, z: value.2 }
    }
}

impl From<[u32; 3]> for Vec3 {
    /// Pack a coordinate array, first to last.
    fn from(value: [u32; 3]) -> (r: Vec3) {
        Vec3 { x: value[0], y: value[1], z: value[2] }
    }
}

impl vstd::std_specs::convert::FromSpecImpl<[u32; 3]> for Vec3 {
    open spec fn obeys_from_spec() -> bool {
        true
    }

    open spec fn from_spec(value: [u32; 3]) -> Vec3 {
        Vec3 { x: value[0], y: value[1], z: value[2] }
    }
}

} // verus!
