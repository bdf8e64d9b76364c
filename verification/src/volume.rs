//! The signed volume that a surface encloses, computed exactly.
//!
//! Every finite binary32 value is a whole multiple of `2^-149`. With that
//! unit each coordinate is an integer, and six times the signed volume is
//! the sum, over the triangles, of the triple product of the three corners:
//! an integer as well, whose sign is the direction in which the surface is
//! wound. It is positive where the triangles face outward.

use vstd::prelude::*;
use vstd::arithmetic::power2::{lemma2_to64, lemma_pow2_adds, pow2};
use crate::ieee::{canonical32, is_finite32, SIGN_32};
use crate::mesh::{Mesh, MeshView};
use crate::weld::{lemma_welded, welded};
use crate::wide::{add_shifted, at_least, limbs_value};

verus! {

/// The number that a finite binary32 value stands for, in units of
/// `2^-149`: the fraction alone where the exponent field is zero, the
/// fraction with its leading one, doubled `exponent - 1` times, elsewhere;
/// negative where the sign bit is set.
pub open spec fn scaled32(bits: u32) -> int {
    let magnitude = bits as int % 0x8000_0000;
    let exponent = magnitude / 0x80_0000;
    let fraction = magnitude % 0x80_0000;
    let size = if exponent == 0 {
        fraction
    } else {
        (0x80_0000 + fraction) * pow2((exponent - 1) as nat)
    };
    if bits >= 0x8000_0000 {
        -size
    } else {
        size
    }
}

/// Where vertex `v` lies, in units of `2^-149` along each axis.
pub open spec fn point(m: MeshView, v: int) -> (int, int, int) {
    (scaled32(m.vertices[3 * v]), scaled32(m.vertices[3 * v + 1]), scaled32(m.vertices[3 * v + 2]))
}

/// The triple product `p . (q x r)`: six times the signed volume of the
/// tetrahedron between the origin and the triangle `p, q, r`.
pub open spec fn triple_product(p: (int, int, int), q: (int, int, int), r: (int, int, int)) -> int {
    p.0 * (q.1 * r.2 - q.2 * r.1) + p.1 * (q.2 * r.0 - q.0 * r.2) + p.2 * (q.0 * r.1 - q.1 * r.0)
}

/// The triple product of the corners of triangle `t`.
pub open spec fn face_volume(m: MeshView, t: int) -> int {
    triple_product(
        point(m, m.indices[3 * t] as int),
        point(m, m.indices[3 * t + 1] as int),
        point(m, m.indices[3 * t + 2] as int),
    )
}

/// The sum of the triple products of the first `n` triangles.
pub open spec fn six_volume_of(m: MeshView, n: nat) -> int
    decreases n,
{
    if n == 0 {
        0
    } else {
        six_volume_of(m, (n - 1) as nat) + face_volume(m, n - 1)
    }
}

/// Six times the signed volume that the triangles of `m` enclose, in units
/// of `2^-447`.
pub open spec fn six_volume(m: MeshView) -> int {
    six_volume_of(m, m.triangle_count() as nat)
}

/// Both zeros stand for the same number.
proof fn lemma_scaled_canonical(bits: u32)
    ensures
        scaled32(canonical32(bits)) == scaled32(bits),
{
}

proof fn lemma_welded_volume_of(m: MeshView, n: nat)
    requires
        m.well_formed(),
        n <= m.triangle_count(),
    ensures
        six_volume_of(welded(m), n) == six_volume_of(m, n),
    decreases n,
{
    if n > 0 {
        lemma_welded_volume_of(m, (n - 1) as nat);
        lemma_welded(m);
        let w = welded(m);
        assert forall|k: int| 3 * (n - 1) <= k < 3 * n implies point(w, w.indices[k] as int)
            == point(m, m.indices[k] as int) by {
            let old_name = m.indices[k] as int;
            let new_name = w.indices[k] as int;
            assert(w.position(new_name) == m.position(old_name));
            assert(0 <= new_name < w.vertex_count());
            assert(canonical32(w.vertices[3 * new_name]) == w.vertices[3 * new_name]);
            assert(canonical32(w.vertices[3 * new_name + 1]) == w.vertices[3 * new_name + 1]);
            assert(canonical32(w.vertices[3 * new_name + 2]) == w.vertices[3 * new_name + 2]);
            lemma_scaled_canonical(m.vertices[3 * old_name]);
            lemma_scaled_canonical(m.vertices[3 * old_name + 1]);
            lemma_scaled_canonical(m.vertices[3 * old_name + 2]);
        }
        assert(face_volume(w, n - 1) == face_volume(m, n - 1));
    }
}

/// Welding keeps the volume: the triangles have their corners where they
/// were.
pub proof fn lemma_welded_volume(m: MeshView)
    requires
        m.well_formed(),
    ensures
        six_volume(welded(m)) == six_volume(m),
{
    lemma_welded(m);
    lemma_welded_volume_of(m, m.triangle_count() as nat);
}

/// A size with a sign.
spec fn signed(negative: bool, size: int) -> int {
    if negative {
        -size
    } else {
        size
    }
}

/// A finite binary32 value taken apart.
#[derive(Clone, Copy)]
struct Part {
    negative: bool,
    mantissa: u32,
    shift: u32,
}

impl Part {
    spec fn size(self) -> int {
        self.mantissa as int * pow2(self.shift as nat)
    }

    spec fn value(self) -> int {
        signed(self.negative, self.size())
    }

    spec fn small(self) -> bool {
        self.mantissa < 0x100_0000 && self.shift <= 253
    }
}

fn decode(bits: u32) -> (part: Part)
    requires
        is_finite32(bits),
    ensures
        part.small(),
        part.value() == scaled32(bits),
{
    let negative = bits >= SIGN_32;
    let magnitude = if negative {
        bits - SIGN_32
    } else {
        bits
    };
    let exponent = magnitude / 0x80_0000;
    let fraction = magnitude % 0x80_0000;
    if exponent == 0 {
        proof {
            lemma2_to64();
            assert(fraction as int * pow2(0) == fraction) by (nonlinear_arith)
                requires
                    pow2(0) == 1,
            ;
        }
        Part { negative, mantissa: fraction, shift: 0 }
    } else {
        Part { negative, mantissa: 0x80_0000 + fraction, shift: exponent - 1 }
    }
}

proof fn lemma_signed_product(a: bool, x: int, b: bool, y: int)
    ensures
        signed(a, x) * signed(b, y) == signed(a != b, x * y),
{
    assert((-x) * y == -(x * y)) by (nonlinear_arith);
    assert(x * (-y) == -(x * y)) by (nonlinear_arith);
    assert((-x) * (-y) == x * y) by (nonlinear_arith);
}

proof fn lemma_sizes(a: Part, b: Part, c: Part)
    ensures
        a.size() * b.size() * c.size() == (a.mantissa as int * b.mantissa as int * c.mantissa as int)
            * pow2((a.shift + b.shift + c.shift) as nat),
{
    lemma_pow2_adds(a.shift as nat, b.shift as nat);
    lemma_pow2_adds((a.shift + b.shift) as nat, c.shift as nat);
    let (x, y, z) = (a.mantissa as int, b.mantissa as int, c.mantissa as int);
    let (u, v, w) = (pow2(a.shift as nat) as int, pow2(b.shift as nat) as int, pow2(c.shift as nat) as int);
    assert((x * u) * (y * v) * (z * w) == (x * y * z) * ((u * v) * w)) by (nonlinear_arith);
}

/// Adds the product of three coordinates to the difference of the two sums,
/// or takes it away.
fn add_term(plus: &mut Vec<u32>, minus: &mut Vec<u32>, a: Part, b: Part, c: Part, taken_away: bool)
    requires
        a.small(),
        b.small(),
        c.small(),
    ensures
        limbs_value(final(plus)@) - limbs_value(final(minus)@) == limbs_value(old(plus)@)
            - limbs_value(old(minus)@) + signed(taken_away, a.value() * b.value() * c.value()),
{
    assert(a.mantissa * b.mantissa * c.mantissa < 0x1_0000_0000_0000_0000_0000
        && a.mantissa * b.mantissa < 0x1_0000_0000_0000) by (nonlinear_arith)
        requires
            a.mantissa < 0x100_0000,
            b.mantissa < 0x100_0000,
            c.mantissa < 0x100_0000,
    ;
    let amount: u128 = a.mantissa as u128 * b.mantissa as u128 * c.mantissa as u128;
    let shift: u32 = a.shift + b.shift + c.shift;
    let negative = ((a.negative != b.negative) != c.negative) != taken_away;
    proof {
        lemma_sizes(a, b, c);
        lemma_signed_product(a.negative, a.size(), b.negative, b.size());
        lemma_signed_product(a.negative != b.negative, a.size() * b.size(), c.negative, c.size());
        assert(signed(taken_away, a.value() * b.value() * c.value()) == signed(
            negative,
            amount * pow2(shift as nat),
        ));
    }
    let low = (amount % 0x1_0000_0000_0000_0000) as u64;
    let high = (amount / 0x1_0000_0000_0000_0000) as u64;
    proof {
        lemma_pow2_adds(64, shift as nat);
        lemma2_to64();
        let (l, h, p) = (low as int, high as int, pow2(shift as nat) as int);
        assert((l + 0x1_0000_0000_0000_0000 * h) * p == l * p + h * (0x1_0000_0000_0000_0000 * p))
            by (nonlinear_arith);
    }
    if negative {
        add_shifted(minus, low, shift);
        add_shifted(minus, high, shift + 64);
    } else {
        add_shifted(plus, low, shift);
        add_shifted(plus, high, shift + 64);
    }
}

/// The three coordinates of vertex `v`, taken apart.
fn read_point(vertices: &Vec<u32>, v: usize, Ghost(m): Ghost<MeshView>) -> (r: (Part, Part, Part))
    requires
        m.well_formed(),
        m.vertices == vertices@,
        v < m.vertex_count(),
    ensures
        r.0.small() && r.1.small() && r.2.small(),
        (r.0.value(), r.1.value(), r.2.value()) == point(m, v as int),
{
    assert(3 * m.vertex_count() == vertices.len());
    (decode(vertices[3 * v]), decode(vertices[3 * v + 1]), decode(vertices[3 * v + 2]))
}

/// Decides whether the signed volume that the triangles of `mesh` enclose is
/// zero or more, as it is where a closed, consistently wound surface faces
/// outward. The sum is taken in whole numbers of any size, so the answer is
/// exact for every finite coordinate.
pub fn volume_is_not_negative(mesh: &Mesh) -> (r: bool)
    ensures
        r == (six_volume(mesh@) >= 0),
{
    let (vertices, indices) = mesh.buffers();
    let ghost m = mesh@;
    let count = indices.len() / 3;
    let mut plus: Vec<u32> = Vec::new();
    let mut minus: Vec<u32> = Vec::new();
    let mut t: usize = 0;
    while t < count
        invariant
            m.well_formed(),
            m.vertices == vertices@,
            m.indices == indices@,
            count == m.triangle_count(),
            3 * count == indices.len(),
            t <= count,
            limbs_value(plus@) - limbs_value(minus@) == six_volume_of(m, t as nat),
        decreases count - t,
    {
        let i = indices[3 * t] as usize;
        let j = indices[3 * t + 1] as usize;
        let k = indices[3 * t + 2] as usize;
        assert(m.indices[3 * t] as int == i && m.indices[3 * t + 1] as int == j && m.indices[3 * t
            + 2] as int == k);
        let p = read_point(vertices, i, Ghost(m));
        let q = read_point(vertices, j, Ghost(m));
        let r = read_point(vertices, k, Ghost(m));
        add_term(&mut plus, &mut minus, p.0, q.1, r.2, false);
        add_term(&mut plus, &mut minus, p.0, q.2, r.1, true);
        add_term(&mut plus, &mut minus, p.1, q.2, r.0, false);
        add_term(&mut plus, &mut minus, p.1, q.0, r.2, true);
        add_term(&mut plus, &mut minus, p.2, q.0, r.1, false);
        add_term(&mut plus, &mut minus, p.2, q.1, r.0, true);
        proof {
            let (a, b, c) = point(m, i as int);
            let (d, e, f) = point(m, j as int);
            let (g, h, l) = point(m, k as int);
            assert(a * e * l - a * f * h == a * (e * l - f * h)) by (nonlinear_arith);
            assert(b * f * g - b * d * l == b * (f * g - d * l)) by (nonlinear_arith);
            assert(c * d * h - c * e * g == c * (d * h - e * g)) by (nonlinear_arith);
            assert(face_volume(m, t as int) == triple_product((a, b, c), (d, e, f), (g, h, l)));
        }
        t += 1;
    }
    at_least(&plus, &minus)
}

} // verus!
