//! The view transform: an exact, invertible mapping between screen pixels,
//! clip space and world/tile coordinates.
//!
//! All arithmetic is over rational numbers held as integer numerator and
//! denominator pairs, so the forward and inverse transforms are exact and
//! picking agrees with whatever a renderer derives from the same transform.
//! The composed matrix -- the camera translation, after an orthographic
//! projection of the viewport's pixel extents that recenters the origin at
//! the screen center, after the tile-size scale -- is affine and diagonal
//! in x and y, so it is carried as the four coefficients
//! `clip.x = sx * x + tx`, `clip.y = sy * y + ty`.
//! Screen space starts at the top, so the y axis is flipped when a pixel is
//! taken to clip space, and flipped back on the way out.

use crate::components::Coordinate;
use vstd::arithmetic::div_mod::{
    lemma_div_by_multiple,
    lemma_fundamental_div_mod,
    lemma_mod_multiples_vanish,
};
use vstd::prelude::*;

verus! {

/// A rational number: `num / den` with a positive denominator.
///
/// Values are not reduced; contracts compare them by cross multiplication.
#[derive(Clone, Copy, Debug, PartialEq, Eq, Structural)]
pub struct Rat {
    pub num: i128,
    pub den: i128,
}

/// Well-formedness of a rational: the denominator is positive.
pub open spec fn rat_wf(r: Rat) -> bool {
    0 < r.den
}

impl Rat {
    /// A rational from a numerator and a positive denominator.
    pub fn new(num: i128, den: i128) -> (r: Rat)
        requires
            0 < den,
        ensures
            r.num == num,
            r.den == den,
            rat_wf(r),
    {
        Rat { num, den }
    }

    /// A whole number as a rational.
    pub fn of_int(n: i128) -> (r: Rat)
        ensures
            r.num == n,
            r.den == 1,
            rat_wf(r),
    {
        Rat { num: n, den: 1 }
    }
}

/// The numerator/denominator pair of a rational, for specifications.
pub open spec fn rpair(r: Rat) -> (int, int) {
    (r.num as int, r.den as int)
}

/// Sum of two rational pairs.
pub open spec fn rat_add(a: (int, int), b: (int, int)) -> (int, int) {
    (a.0 * b.1 + b.0 * a.1, a.1 * b.1)
}

/// Difference of two rational pairs.
pub open spec fn rat_sub(a: (int, int), b: (int, int)) -> (int, int) {
    (a.0 * b.1 - b.0 * a.1, a.1 * b.1)
}

/// Product of two rational pairs.
pub open spec fn rat_mul(a: (int, int), b: (int, int)) -> (int, int) {
    (a.0 * b.0, a.1 * b.1)
}

/// Quotient of two rational pairs.
pub open spec fn rat_div(a: (int, int), b: (int, int)) -> (int, int) {
    (a.0 * b.1, a.1 * b.0)
}

/// Equality of two rational pairs by cross multiplication.
pub open spec fn rat_eq(a: (int, int), b: (int, int)) -> bool {
    a.0 * b.1 == b.0 * a.1
}

/// Rounding to the nearest integer, halves away from zero.
pub open spec fn round_half_away(num: int, den: int) -> int
    recommends
        0 < den,
{
    let a = if num >= 0 {
        num
    } else {
        -num
    };
    let q = a / den;
    let rem = a % den;
    let m = if rem >= den - rem {
        q + 1
    } else {
        q
    };
    if num >= 0 {
        m
    } else {
        -m
    }
}

/// `|a| <= ba` and `|b| <= bb` bound the product by `ba * bb`.
proof fn lemma_mul_bound(a: int, b: int, ba: int, bb: int)
    requires
        0 <= ba,
        0 <= bb,
        -ba <= a <= ba,
        -bb <= b <= bb,
    ensures
        -(ba * bb) <= a * b <= ba * bb,
{
    assert(-(ba * bb) <= a * b <= ba * bb) by (nonlinear_arith)
        requires
            0 <= ba,
            0 <= bb,
            -ba <= a <= ba,
            -bb <= b <= bb,
    ;
}

/// A product of two positive integers is positive.
proof fn lemma_mul_pos(a: int, b: int)
    requires
        0 < a,
        0 < b,
    ensures
        0 < a * b,
{
    assert(0 < a * b) by (nonlinear_arith)
        requires
            0 < a,
            0 < b,
    ;
}

/// An exact integer rounds to itself.
pub proof fn lemma_round_exact(n: int, den: int)
    requires
        0 < den,
    ensures
        round_half_away(n * den, den) == n,
{
    if n >= 0 {
        assert(n * den >= 0) by (nonlinear_arith)
            requires
                n >= 0,
                den > 0,
        ;
        lemma_div_by_multiple(n, den);
        lemma_mod_multiples_vanish(n, 0, den);
        assert(den * n == n * den) by (nonlinear_arith);
        assert((n * den) % den == 0);
        assert((n * den) / den == n);
    } else {
        assert(n * den < 0) by (nonlinear_arith)
            requires
                n < 0,
                den > 0,
        ;
        let a = -(n * den);
        assert(-(n * den) == (-n) * den) by (nonlinear_arith);
        lemma_div_by_multiple(-n, den);
        lemma_mod_multiples_vanish(-n, 0, den);
        assert(den * (-n) == (-n) * den) by (nonlinear_arith);
        assert(a % den == 0);
        assert(a / den == -n);
    }
}

/// Rounds a rational to the nearest integer, halves away from zero.
pub fn round_rat(num: i128, den: i128) -> (r: i128)
    requires
        0 < den,
        i128::MIN < num,
    ensures
        r == round_half_away(num as int, den as int),
{
    let neg: bool = num < 0;
    let a: u128 = if neg {
        (-num) as u128
    } else {
        num as u128
    };
    let d: u128 = den as u128;
    let q: u128 = a / d;
    let rem: u128 = a % d;
    let m: u128 = if rem >= d - rem {
        proof {
            assert(rem >= 1) by {
                if rem == 0 {
                    assert(d - rem == d);
                }
            }
            lemma_fundamental_div_mod(a as int, d as int);
            assert(d as int * (a as int / d as int) == (a as int / d as int) * d as int)
                by (nonlinear_arith);
            assert(q * d + rem == a);
            assert(q * d >= q) by (nonlinear_arith)
                requires
                    d >= 1,
                    q >= 0,
            ;
        }
        q + 1
    } else {
        q
    };
    if neg {
        -(m as i128)
    } else {
        m as i128
    }
}

/// Viewport, camera and tile configuration that the transform is built from.
///
/// Width and height are in pixels; the camera offset translates clip space;
/// the tile size scales world coordinates. The bounds in [`ViewState::wf`]
/// keep every intermediate product of the exact arithmetic inside `i128`.
#[derive(Clone, Copy, Debug)]
pub struct ViewState {
    pub width: i32,
    pub height: i32,
    pub camera_x: Rat,
    pub camera_y: Rat,
    pub tile_size: Rat,
}

impl ViewState {
    /// Machine bounds on the configuration: dimensions and rational parts
    /// stay within `2^20` so products cannot overflow.
    pub open spec fn wf(&self) -> bool {
        &&& 0 <= self.width <= 0x10_0000
        &&& 0 <= self.height <= 0x10_0000
        &&& rat_wf(self.camera_x) && rat_wf(self.camera_y) && rat_wf(self.tile_size)
        &&& -0x10_0000 <= self.camera_x.num <= 0x10_0000 && self.camera_x.den <= 0x10_0000
        &&& -0x10_0000 <= self.camera_y.num <= 0x10_0000 && self.camera_y.den <= 0x10_0000
        &&& 0 <= self.tile_size.num <= 0x10_0000 && self.tile_size.den <= 0x10_0000
    }

    /// A degenerate view: zero-area viewport or zero tile size. The forward
    /// matrix collapses and has no inverse.
    pub open spec fn spec_singular(&self) -> bool {
        self.width == 0 || self.height == 0 || self.tile_size.num == 0
    }

    /// A view state from its parts.
    pub fn new(width: i32, height: i32, camera_x: Rat, camera_y: Rat, tile_size: Rat) -> (r:
        ViewState)
        requires
            0 <= width <= 0x10_0000,
            0 <= height <= 0x10_0000,
            rat_wf(camera_x) && rat_wf(camera_y) && rat_wf(tile_size),
            -0x10_0000 <= camera_x.num <= 0x10_0000 && camera_x.den <= 0x10_0000,
            -0x10_0000 <= camera_y.num <= 0x10_0000 && camera_y.den <= 0x10_0000,
            0 <= tile_size.num <= 0x10_0000 && tile_size.den <= 0x10_0000,
        ensures
            r.wf(),
            r.width == width,
            r.height == height,
            r.camera_x == camera_x,
            r.camera_y == camera_y,
            r.tile_size == tile_size,
    {
        ViewState { width, height, camera_x, camera_y, tile_size }
    }

    /// A viewport with the camera at the origin and tile size one.
    pub fn with_viewport(width: i32, height: i32) -> (r: ViewState)
        requires
            0 <= width <= 0x10_0000,
            0 <= height <= 0x10_0000,
        ensures
            r.wf(),
            r.width == width,
            r.height == height,
            rpair(r.camera_x) == (0int, 1int),
            rpair(r.camera_y) == (0int, 1int),
            rpair(r.tile_size) == (1int, 1int),
    {
        ViewState {
            width,
            height,
            camera_x: Rat { num: 0, den: 1 },
            camera_y: Rat { num: 0, den: 1 },
            tile_size: Rat { num: 1, den: 1 },
        }
    }
}

/// The x scale of the composed matrix: `2 * tile_size / width`.
pub open spec fn scale_x(v: ViewState) -> (int, int) {
    rat_div(rat_mul((2int, 1int), rpair(v.tile_size)), (v.width as int, 1int))
}

/// The y scale of the composed matrix: `2 * tile_size / height`.
pub open spec fn scale_y(v: ViewState) -> (int, int) {
    rat_div(rat_mul((2int, 1int), rpair(v.tile_size)), (v.height as int, 1int))
}

/// The x translation of the composed matrix: the camera offset alone. The
/// projection recenters the pixel extents, so with the camera at the origin
/// the composed matrix sends world (0, 0) to clip (0, 0) -- the screen
/// center.
pub open spec fn trans_x(v: ViewState) -> (int, int) {
    rpair(v.camera_x)
}

/// The y translation of the composed matrix: the camera offset alone.
pub open spec fn trans_y(v: ViewState) -> (int, int) {
    rpair(v.camera_y)
}

/// Forward transform: world x to clip x.
pub open spec fn clip_of_world_x(v: ViewState, wx: (int, int)) -> (int, int) {
    rat_add(rat_mul(scale_x(v), wx), trans_x(v))
}

/// Forward transform: world y to clip y.
pub open spec fn clip_of_world_y(v: ViewState, wy: (int, int)) -> (int, int) {
    rat_add(rat_mul(scale_y(v), wy), trans_y(v))
}

/// A pixel x position normalized to device space in `[-1, 1]`.
pub open spec fn ndc_of_pixel_x(v: ViewState, px: (int, int)) -> (int, int) {
    rat_sub(rat_div(rat_mul((2int, 1int), px), (v.width as int, 1int)), (1int, 1int))
}

/// A pixel y position normalized to device space in `[-1, 1]`, with the y
/// axis flipped: screen space starts at the top, clip space at the bottom.
pub open spec fn ndc_of_pixel_y(v: ViewState, py: (int, int)) -> (int, int) {
    rat_sub((1int, 1int), rat_div(rat_mul((2int, 1int), py), (v.height as int, 1int)))
}

/// Inverse transform: clip x back to world x.
pub open spec fn world_of_ndc_x(v: ViewState, n: (int, int)) -> (int, int) {
    rat_div(rat_sub(n, trans_x(v)), scale_x(v))
}

/// Inverse transform: clip y back to world y.
pub open spec fn world_of_ndc_y(v: ViewState, n: (int, int)) -> (int, int) {
    rat_div(rat_sub(n, trans_y(v)), scale_y(v))
}

/// The whole inverse pipeline for x: pixel to device space to world space.
pub open spec fn spec_to_world_x(v: ViewState, px: (int, int)) -> (int, int) {
    world_of_ndc_x(v, ndc_of_pixel_x(v, px))
}

/// The whole inverse pipeline for y, including the flip.
pub open spec fn spec_to_world_y(v: ViewState, py: (int, int)) -> (int, int) {
    world_of_ndc_y(v, ndc_of_pixel_y(v, py))
}

/// Clip x back to the pixel column it is displayed at.
pub open spec fn pixel_of_clip_x(v: ViewState, c: (int, int)) -> (int, int) {
    rat_mul(rat_div(rat_add(c, (1int, 1int)), (2int, 1int)), (v.width as int, 1int))
}

/// Clip y back to the pixel row it is displayed at, flipping the y axis.
pub open spec fn pixel_of_clip_y(v: ViewState, c: (int, int)) -> (int, int) {
    rat_mul(rat_div(rat_sub((1int, 1int), c), (2int, 1int)), (v.height as int, 1int))
}

/// The whole forward pipeline for x: a world coordinate to its pixel column.
pub open spec fn spec_world_to_screen_x(v: ViewState, wx: int) -> (int, int) {
    pixel_of_clip_x(v, clip_of_world_x(v, (wx, 1int)))
}

/// The whole forward pipeline for y, including the flip.
pub open spec fn spec_world_to_screen_y(v: ViewState, wy: int) -> (int, int) {
    pixel_of_clip_y(v, clip_of_world_y(v, (wy, 1int)))
}

/// Error for inverting a degenerate view transform.
#[derive(Clone, Copy, Debug, PartialEq, Eq, Structural)]
pub struct Singular;

/// The composed projection/view matrix, in its affine-diagonal form:
/// `clip.x = sx * x + tx` and `clip.y = sy * y + ty`. This is the exact
/// shape the camera translation, origin-recentering orthographic
/// projection and tile-size scale compose to, so the four coefficients
/// carry the whole matrix; a renderer scales them out into whatever layout
/// it needs.
#[derive(Clone, Copy, Debug)]
pub struct Transform {
    pub sx: Rat,
    pub sy: Rat,
    pub tx: Rat,
    pub ty: Rat,
}

impl ViewState {
    /// Builds the composed matrix: the camera translation, after the
    /// orthographic projection of the viewport (which recenters the origin
    /// at the screen center), after the tile-size scale.
    pub fn build(&self) -> (t: Transform)
        requires
            self.wf(),
            0 < self.width,
            0 < self.height,
        ensures
            rpair(t.sx) == scale_x(*self),
            rpair(t.sy) == scale_y(*self),
            rpair(t.tx) == trans_x(*self),
            rpair(t.ty) == trans_y(*self),
            rat_wf(t.sx) && rat_wf(t.sy) && rat_wf(t.tx) && rat_wf(t.ty),
    {
        let w: i128 = self.width as i128;
        let h: i128 = self.height as i128;
        proof {
            lemma_mul_bound(self.tile_size.den as int, w as int, 0x10_0000, 0x10_0000);
            lemma_mul_bound(self.tile_size.den as int, h as int, 0x10_0000, 0x10_0000);
            lemma_mul_pos(self.tile_size.den as int, w as int);
            lemma_mul_pos(self.tile_size.den as int, h as int);
        }
        Transform {
            sx: Rat { num: 2 * self.tile_size.num, den: self.tile_size.den * w },
            sy: Rat { num: 2 * self.tile_size.num, den: self.tile_size.den * h },
            tx: Rat { num: self.camera_x.num, den: self.camera_x.den },
            ty: Rat { num: self.camera_y.num, den: self.camera_y.den },
        }
    }
}

/// Inverts the view transform at a pointer position: the pixel is normalized
/// to device space (y flipped), then taken through the inverse of the
/// composed matrix to world space. Fails with [`Singular`] exactly when the
/// matrix is degenerate: a zero viewport dimension or a zero tile size.
pub fn to_world(px: Rat, py: Rat, v: &ViewState) -> (r: Result<(Rat, Rat), Singular>)
    requires
        v.wf(),
        rat_wf(px) && rat_wf(py),
        -0x100_0000_0000 <= px.num <= 0x100_0000_0000 && px.den <= 0x10_0000,
        -0x100_0000_0000 <= py.num <= 0x100_0000_0000 && py.den <= 0x10_0000,
    ensures
        v.spec_singular() ==> (r matches Err(e) && e == Singular),
        !v.spec_singular() ==> (r matches Ok(p) && {
            &&& rpair(p.0) == spec_to_world_x(*v, rpair(px))
            &&& rpair(p.1) == spec_to_world_y(*v, rpair(py))
            &&& rat_wf(p.0) && rat_wf(p.1)
            &&& i128::MIN < p.0.num && i128::MIN < p.1.num
        }),
{
    if v.width == 0 || v.height == 0 || v.tile_size.num == 0 {
        return Err(Singular);
    }
    let w: i128 = v.width as i128;
    let h: i128 = v.height as i128;
    let cnx: i128 = v.camera_x.num;
    let cdx: i128 = v.camera_x.den;
    let cny: i128 = v.camera_y.num;
    let cdy: i128 = v.camera_y.den;
    let tn: i128 = v.tile_size.num;
    let td: i128 = v.tile_size.den;

    proof {
        lemma_mul_bound(px.den as int, w as int, 0x10_0000, 0x10_0000);
        lemma_mul_bound(py.den as int, h as int, 0x10_0000, 0x10_0000);
        lemma_mul_pos(px.den as int, w as int);
        lemma_mul_pos(py.den as int, h as int);
    }
    // Normalize to device coordinates: (2 * p - w * pd) / (w * pd), y flipped.
    let ndcx_num: i128 = 2 * px.num - px.den * w;
    let ndcx_den: i128 = px.den * w;
    let ndcy_num: i128 = py.den * h - 2 * py.num;
    let ndcy_den: i128 = py.den * h;

    proof {
        lemma_mul_bound(ndcx_num as int, cdx as int, 0x300_0000_0000, 0x10_0000);
        lemma_mul_bound(cnx as int, ndcx_den as int, 0x20_0000, 0x100_0000_0000);
        lemma_mul_bound(ndcy_num as int, cdy as int, 0x300_0000_0000, 0x10_0000);
        lemma_mul_bound(cny as int, ndcy_den as int, 0x20_0000, 0x100_0000_0000);
        lemma_mul_bound(ndcx_den as int, cdx as int, 0x100_0000_0000, 0x10_0000);
        lemma_mul_bound(ndcy_den as int, cdy as int, 0x100_0000_0000, 0x10_0000);
        lemma_mul_pos(ndcx_den as int, cdx as int);
        lemma_mul_pos(ndcy_den as int, cdy as int);
    }
    // Subtract the translation column of the matrix.
    let subx_num: i128 = ndcx_num * cdx - cnx * ndcx_den;
    let subx_den: i128 = ndcx_den * cdx;
    let suby_num: i128 = ndcy_num * cdy - cny * ndcy_den;
    let suby_den: i128 = ndcy_den * cdy;

    proof {
        lemma_mul_bound(td as int, w as int, 0x10_0000, 0x10_0000);
        lemma_mul_bound(td as int, h as int, 0x10_0000, 0x10_0000);
        lemma_mul_bound(
            subx_num as int,
            td as int * w as int,
            0x5000_0000_0000_0000,
            0x100_0000_0000,
        );
        lemma_mul_bound(
            suby_num as int,
            td as int * h as int,
            0x5000_0000_0000_0000,
            0x100_0000_0000,
        );
        lemma_mul_bound(subx_den as int, 2 * tn as int, 0x10_0000_0000_0000_0000, 0x20_0000);
        lemma_mul_bound(suby_den as int, 2 * tn as int, 0x10_0000_0000_0000_0000, 0x20_0000);
        lemma_mul_pos(subx_den as int, 2 * tn as int);
        lemma_mul_pos(suby_den as int, 2 * tn as int);
    }
    // Divide by the scale of the matrix.
    let wx = Rat { num: subx_num * (td * w), den: subx_den * (2 * tn) };
    let wy = Rat { num: suby_num * (td * h), den: suby_den * (2 * tn) };
    Ok((wx, wy))
}

/// Forward transform of an integer grid coordinate to the exact (rational)
/// pixel position it is displayed at, y flipped back to top-origin screen
/// space. The exact inverse of [`to_world`] on every in-range input.
pub fn world_to_screen(c: Coordinate, v: &ViewState) -> (r: (Rat, Rat))
    requires
        v.wf(),
        0 < v.width,
        0 < v.height,
    ensures
        rpair(r.0) == spec_world_to_screen_x(*v, c.x as int),
        rpair(r.1) == spec_world_to_screen_y(*v, c.y as int),
        rat_wf(r.0) && rat_wf(r.1),
{
    let w: i128 = v.width as i128;
    let h: i128 = v.height as i128;
    let cnx: i128 = v.camera_x.num;
    let cdx: i128 = v.camera_x.den;
    let cny: i128 = v.camera_y.num;
    let cdy: i128 = v.camera_y.den;
    let tn: i128 = v.tile_size.num;
    let td: i128 = v.tile_size.den;
    let cx: i128 = c.x as i128;
    let cy: i128 = c.y as i128;

    proof {
        lemma_mul_bound(2 * tn as int, cx as int, 0x20_0000, 0x8000_0000);
        lemma_mul_bound(2 * tn as int * cx as int, cdx as int, 0x10_0000_0000_0000, 0x10_0000);
        lemma_mul_bound(td as int, w as int, 0x10_0000, 0x10_0000);
        lemma_mul_pos(td as int, w as int);
        lemma_mul_bound(cnx as int, td as int * w as int, 0x20_0000, 0x100_0000_0000);
        lemma_mul_bound(td as int * w as int, cdx as int, 0x100_0000_0000, 0x10_0000);
        lemma_mul_pos(td as int * w as int, cdx as int);
        lemma_mul_bound(2 * tn as int, cy as int, 0x20_0000, 0x8000_0000);
        lemma_mul_bound(2 * tn as int * cy as int, cdy as int, 0x10_0000_0000_0000, 0x10_0000);
        lemma_mul_bound(td as int, h as int, 0x10_0000, 0x10_0000);
        lemma_mul_pos(td as int, h as int);
        lemma_mul_bound(cny as int, td as int * h as int, 0x20_0000, 0x100_0000_0000);
        lemma_mul_bound(td as int * h as int, cdy as int, 0x100_0000_0000, 0x10_0000);
        lemma_mul_pos(td as int * h as int, cdy as int);
    }
    // Forward through the matrix: clip = scale * coordinate + translation.
    let clipx_num: i128 = (2 * tn) * cx * cdx + cnx * (td * w);
    let clipx_den: i128 = (td * w) * cdx;
    let clipy_num: i128 = (2 * tn) * cy * cdy + cny * (td * h);
    let clipy_den: i128 = (td * h) * cdy;

    proof {
        lemma_mul_bound(
            clipx_num as int + clipx_den as int,
            w as int,
            0x2000_0000_0000_0000_0000,
            0x10_0000,
        );
        lemma_mul_bound(
            clipy_den as int - clipy_num as int,
            h as int,
            0x2000_0000_0000_0000_0000,
            0x10_0000,
        );
        lemma_mul_pos(clipx_den as int, 2);
        lemma_mul_pos(clipy_den as int, 2);
    }
    // Back to pixels: x = (clip + 1) * w / 2, y = (1 - clip) * h / 2.
    let px = Rat { num: (clipx_num + clipx_den) * w, den: clipx_den * 2 };
    let py = Rat { num: (clipy_den - clipy_num) * h, den: clipy_den * 2 };
    (px, py)
}

/// Rounds a world point to the integer grid coordinate of its tile, halves
/// away from zero.
pub fn to_grid(wx: Rat, wy: Rat) -> (r: Coordinate)
    requires
        rat_wf(wx) && rat_wf(wy),
        i128::MIN < wx.num && i128::MIN < wy.num,
        -0x8000_0000 <= round_half_away(wx.num as int, wx.den as int) < 0x8000_0000,
        -0x8000_0000 <= round_half_away(wy.num as int, wy.den as int) < 0x8000_0000,
    ensures
        r.x as int == round_half_away(wx.num as int, wx.den as int),
        r.y as int == round_half_away(wy.num as int, wy.den as int),
{
    let x: i128 = round_rat(wx.num, wx.den);
    let y: i128 = round_rat(wy.num, wy.den);
    Coordinate { x: x as i32, y: y as i32 }
}

/// Equality of rational pairs is transitive through a pair with a nonzero
/// denominator.
pub proof fn lemma_rat_eq_trans(a: (int, int), b: (int, int), c: (int, int))
    requires
        rat_eq(a, b),
        rat_eq(b, c),
        b.1 != 0,
    ensures
        rat_eq(a, c),
{
    assert(a.0 * c.1 == c.0 * a.1) by (nonlinear_arith)
        requires
            a.0 * b.1 == b.0 * a.1,
            b.0 * c.1 == c.0 * b.1,
            b.1 != 0,
    ;
}

/// The inverse transform really inverts the forward one: taking any device
/// point to world space and forward again through the composed matrix gives
/// back the same clip-space value.
#[verifier::rlimit(60)]
pub proof fn lemma_forward_inverts(v: ViewState, n: (int, int))
    requires
        v.wf(),
        0 < v.width,
        0 < v.height,
        0 < v.tile_size.num,
        n.1 != 0,
    ensures
        rat_eq(clip_of_world_x(v, world_of_ndc_x(v, n)), n),
        rat_eq(clip_of_world_y(v, world_of_ndc_y(v, n)), n),
        world_of_ndc_x(v, n).1 != 0,
        world_of_ndc_y(v, n).1 != 0,
{
    let w = v.width as int;
    let h = v.height as int;
    let cnx = v.camera_x.num as int;
    let cdx = v.camera_x.den as int;
    let cny = v.camera_y.num as int;
    let cdy = v.camera_y.den as int;
    let tn = v.tile_size.num as int;
    let td = v.tile_size.den as int;

    let k = 2 * tn;
    let ex = cnx;
    let ax = td * w;
    let wx = world_of_ndc_x(v, n);
    let t1 = (n.0 * cdx) * ax;
    let t2 = (ex * n.1) * ax;
    assert(wx.0 == t1 - t2) by (nonlinear_arith)
        requires
            wx.0 == (n.0 * cdx - ex * n.1) * ax,
            t1 == (n.0 * cdx) * ax,
            t2 == (ex * n.1) * ax,
    ;
    assert(wx.1 == (n.1 * cdx) * k);
    let cxp = clip_of_world_x(v, wx);
    assert(cxp.0 == k * wx.0 * cdx + ex * (ax * wx.1));
    assert(cxp.1 == (ax * wx.1) * cdx);
    assert(k * wx.0 * cdx == (k * cdx) * t1 - (k * cdx) * t2) by (nonlinear_arith)
        requires
            wx.0 == t1 - t2,
    ;
    assert((k * cdx) * t2 == ex * (ax * wx.1)) by (nonlinear_arith)
        requires
            t2 == (ex * n.1) * ax,
            wx.1 == (n.1 * cdx) * k,
    ;
    assert(cxp.0 == (k * cdx) * t1);
    assert(cxp.1 == ((k * cdx) * ax) * (n.1 * cdx)) by (nonlinear_arith)
        requires
            cxp.1 == (ax * wx.1) * cdx,
            wx.1 == (n.1 * cdx) * k,
    ;
    assert(cxp.0 * n.1 == n.0 * cxp.1) by (nonlinear_arith)
        requires
            cxp.0 == (k * cdx) * t1,
            t1 == (n.0 * cdx) * ax,
            cxp.1 == ((k * cdx) * ax) * (n.1 * cdx),
    ;
    assert(wx.1 != 0) by (nonlinear_arith)
        requires
            wx.1 == (n.1 * cdx) * k,
            cdx > 0,
            k > 0,
            n.1 != 0,
    ;

    let ey = cny;
    let ay = td * h;
    let wy = world_of_ndc_y(v, n);
    let u1 = (n.0 * cdy) * ay;
    let u2 = (ey * n.1) * ay;
    assert(wy.0 == u1 - u2) by (nonlinear_arith)
        requires
            wy.0 == (n.0 * cdy - ey * n.1) * ay,
            u1 == (n.0 * cdy) * ay,
            u2 == (ey * n.1) * ay,
    ;
    assert(wy.1 == (n.1 * cdy) * k);
    let cyp = clip_of_world_y(v, wy);
    assert(cyp.0 == k * wy.0 * cdy + ey * (ay * wy.1));
    assert(cyp.1 == (ay * wy.1) * cdy);
    assert(k * wy.0 * cdy == (k * cdy) * u1 - (k * cdy) * u2) by (nonlinear_arith)
        requires
            wy.0 == u1 - u2,
    ;
    assert((k * cdy) * u2 == ey * (ay * wy.1)) by (nonlinear_arith)
        requires
            u2 == (ey * n.1) * ay,
            wy.1 == (n.1 * cdy) * k,
    ;
    assert(cyp.0 == (k * cdy) * u1);
    assert(cyp.1 == ((k * cdy) * ay) * (n.1 * cdy)) by (nonlinear_arith)
        requires
            cyp.1 == (ay * wy.1) * cdy,
            wy.1 == (n.1 * cdy) * k,
    ;
    assert(cyp.0 * n.1 == n.0 * cyp.1) by (nonlinear_arith)
        requires
            cyp.0 == (k * cdy) * u1,
            u1 == (n.0 * cdy) * ay,
            cyp.1 == ((k * cdy) * ay) * (n.1 * cdy),
    ;
    assert(wy.1 != 0) by (nonlinear_arith)
        requires
            wy.1 == (n.1 * cdy) * k,
            cdy > 0,
            k > 0,
            n.1 != 0,
    ;
}

/// Round trip: any integer grid coordinate, taken forward to the exact
/// pixel it is displayed at and back through the inverse transform, rounds
/// to exactly the coordinate it came from.
#[verifier::rlimit(60)]
pub proof fn lemma_round_trip(v: ViewState, cx: int, cy: int)
    requires
        v.wf(),
        0 < v.width,
        0 < v.height,
        0 < v.tile_size.num,
    ensures
        ({
            let wx = spec_to_world_x(v, spec_world_to_screen_x(v, cx));
            0 < wx.1 && wx.0 == cx * wx.1 && round_half_away(wx.0, wx.1) == cx
        }),
        ({
            let wy = spec_to_world_y(v, spec_world_to_screen_y(v, cy));
            0 < wy.1 && wy.0 == cy * wy.1 && round_half_away(wy.0, wy.1) == cy
        }),
{
    let w = v.width as int;
    let h = v.height as int;
    let cdx = v.camera_x.den as int;
    let cdy = v.camera_y.den as int;
    let tn = v.tile_size.num as int;
    let td = v.tile_size.den as int;
    let k = 2 * tn;
    let ex = v.camera_x.num as int;
    let ey = v.camera_y.num as int;
    let ax = td * w;
    let ay = td * h;
    lemma_mul_pos(td, w);
    lemma_mul_pos(td, h);

    let c = clip_of_world_x(v, (cx, 1));
    assert(c.0 == (k * cx) * cdx + ex * ax);
    assert(c.1 == ax * cdx);
    let p = spec_world_to_screen_x(v, cx);
    assert(p.0 == (c.0 + c.1) * w);
    assert(p.1 == c.1 * 2);
    let nn = ndc_of_pixel_x(v, p);
    assert(nn.0 == 2 * p.0 - p.1 * w);
    assert(nn.1 == p.1 * w);
    assert(nn.0 == (2 * w) * c.0) by (nonlinear_arith)
        requires
            nn.0 == 2 * p.0 - p.1 * w,
            p.0 == (c.0 + c.1) * w,
            p.1 == c.1 * 2,
    ;
    assert(nn.1 == (2 * w) * c.1) by (nonlinear_arith)
        requires
            nn.1 == p.1 * w,
            p.1 == c.1 * 2,
    ;
    let wx = world_of_ndc_x(v, nn);
    assert(wx.0 == (nn.0 * cdx - ex * nn.1) * ax);
    assert(wx.1 == (nn.1 * cdx) * k);
    assert(c.0 * cdx - ex * c.1 == (k * cx) * (cdx * cdx)) by (nonlinear_arith)
        requires
            c.0 == (k * cx) * cdx + ex * ax,
            c.1 == ax * cdx,
    ;
    assert(nn.0 * cdx - ex * nn.1 == (2 * w) * ((k * cx) * (cdx * cdx))) by (nonlinear_arith)
        requires
            nn.0 == (2 * w) * c.0,
            nn.1 == (2 * w) * c.1,
            c.0 * cdx - ex * c.1 == (k * cx) * (cdx * cdx),
    ;
    assert(wx.0 == ((2 * w) * ((k * cx) * (cdx * cdx))) * ax);
    assert(wx.1 == ((2 * w) * (ax * (cdx * cdx))) * k) by (nonlinear_arith)
        requires
            wx.1 == (nn.1 * cdx) * k,
            nn.1 == (2 * w) * c.1,
            c.1 == ax * cdx,
    ;
    assert(wx.0 == cx * wx.1) by (nonlinear_arith)
        requires
            wx.0 == ((2 * w) * ((k * cx) * (cdx * cdx))) * ax,
            wx.1 == ((2 * w) * (ax * (cdx * cdx))) * k,
    ;
    assert(0 < wx.1) by (nonlinear_arith)
        requires
            wx.1 == ((2 * w) * (ax * (cdx * cdx))) * k,
            0 < w,
            0 < ax,
            0 < cdx,
            0 < k,
    ;
    lemma_round_exact(cx, wx.1);

    let cy2 = clip_of_world_y(v, (cy, 1));
    assert(cy2.0 == (k * cy) * cdy + ey * ay);
    assert(cy2.1 == ay * cdy);
    let py = spec_world_to_screen_y(v, cy);
    assert(py.0 == (cy2.1 - cy2.0) * h);
    assert(py.1 == cy2.1 * 2);
    let ny = ndc_of_pixel_y(v, py);
    assert(ny.0 == py.1 * h - 2 * py.0);
    assert(ny.1 == py.1 * h);
    assert(ny.0 == (2 * h) * cy2.0) by (nonlinear_arith)
        requires
            ny.0 == py.1 * h - 2 * py.0,
            py.0 == (cy2.1 - cy2.0) * h,
            py.1 == cy2.1 * 2,
    ;
    assert(ny.1 == (2 * h) * cy2.1) by (nonlinear_arith)
        requires
            ny.1 == py.1 * h,
            py.1 == cy2.1 * 2,
    ;
    let wy = world_of_ndc_y(v, ny);
    assert(wy.0 == (ny.0 * cdy - ey * ny.1) * ay);
    assert(wy.1 == (ny.1 * cdy) * k);
    assert(cy2.0 * cdy - ey * cy2.1 == (k * cy) * (cdy * cdy)) by (nonlinear_arith)
        requires
            cy2.0 == (k * cy) * cdy + ey * ay,
            cy2.1 == ay * cdy,
    ;
    assert(ny.0 * cdy - ey * ny.1 == (2 * h) * ((k * cy) * (cdy * cdy))) by (nonlinear_arith)
        requires
            ny.0 == (2 * h) * cy2.0,
            ny.1 == (2 * h) * cy2.1,
            cy2.0 * cdy - ey * cy2.1 == (k * cy) * (cdy * cdy),
    ;
    assert(wy.0 == ((2 * h) * ((k * cy) * (cdy * cdy))) * ay);
    assert(wy.1 == ((2 * h) * (ay * (cdy * cdy))) * k) by (nonlinear_arith)
        requires
            wy.1 == (ny.1 * cdy) * k,
            ny.1 == (2 * h) * cy2.1,
            cy2.1 == ay * cdy,
    ;
    assert(wy.0 == cy * wy.1) by (nonlinear_arith)
        requires
            wy.0 == ((2 * h) * ((k * cy) * (cdy * cdy))) * ay,
            wy.1 == ((2 * h) * (ay * (cdy * cdy))) * k,
    ;
    assert(0 < wy.1) by (nonlinear_arith)
        requires
            wy.1 == ((2 * h) * (ay * (cdy * cdy))) * k,
            0 < h,
            0 < ay,
            0 < cdy,
            0 < k,
    ;
    lemma_round_exact(cy, wy.1);
}

/// Boundary: the pointer at pixel `(0, 0)` and at pixel `(width, height)`
/// lands on the two extreme world-space corners that the composed matrix
/// implies -- taking those world points forward again gives clip `(-1, +1)`
/// and `(+1, -1)`, the corners of clip space.
pub proof fn lemma_pointer_corners(v: ViewState)
    requires
        v.wf(),
        0 < v.width,
        0 < v.height,
        0 < v.tile_size.num,
    ensures
        rat_eq(clip_of_world_x(v, spec_to_world_x(v, (0, 1))), (-1, 1)),
        rat_eq(clip_of_world_y(v, spec_to_world_y(v, (0, 1))), (1, 1)),
        rat_eq(clip_of_world_x(v, spec_to_world_x(v, (v.width as int, 1))), (1, 1)),
        rat_eq(clip_of_world_y(v, spec_to_world_y(v, (v.height as int, 1))), (-1, 1)),
{
    let w = v.width as int;
    let h = v.height as int;

    assert(rat_mul((2int, 1int), (0int, 1int)) == (0int, 1int));
    assert(rat_div((0int, 1int), (w, 1int)) == (0int, w));
    assert(rat_sub((0int, w), (1int, 1int)) == (-w, w));
    assert(ndc_of_pixel_x(v, (0, 1)).0 == -w && ndc_of_pixel_x(v, (0, 1)).1 == w);
    assert(ndc_of_pixel_x(v, (0, 1)) == (-w, w));
    lemma_forward_inverts(v, (-w, w));
    lemma_rat_eq_trans(clip_of_world_x(v, world_of_ndc_x(v, (-w, w))), (-w, w), (-1, 1));

    assert(ndc_of_pixel_y(v, (0, 1)).0 == h && ndc_of_pixel_y(v, (0, 1)).1 == h);
    assert(ndc_of_pixel_y(v, (0, 1)) == (h, h));
    lemma_forward_inverts(v, (h, h));
    lemma_rat_eq_trans(clip_of_world_y(v, world_of_ndc_y(v, (h, h))), (h, h), (1, 1));

    assert(ndc_of_pixel_x(v, (w, 1)).0 == w && ndc_of_pixel_x(v, (w, 1)).1 == w);
    assert(ndc_of_pixel_x(v, (w, 1)) == (w, w));
    lemma_forward_inverts(v, (w, w));
    lemma_rat_eq_trans(clip_of_world_x(v, world_of_ndc_x(v, (w, w))), (w, w), (1, 1));

    assert(ndc_of_pixel_y(v, (h, 1)).0 == -h && ndc_of_pixel_y(v, (h, 1)).1 == h);
    assert(ndc_of_pixel_y(v, (h, 1)) == (-h, h));
    lemma_forward_inverts(v, (-h, h));
    lemma_rat_eq_trans(clip_of_world_y(v, world_of_ndc_y(v, (-h, h))), (-h, h), (-1, 1));
}

/// Error from resolving the pointer to a grid coordinate.
#[derive(Clone, Copy, Debug, PartialEq, Eq, Structural)]
pub enum ProjectionError {
    /// The view transform is degenerate and has no inverse.
    Singular,
    /// The world point is too far out to name with a grid coordinate.
    OutOfRange,
}

/// Scene state handed to the per-tick steps: the current view configuration
/// and the latest pointer position in pixels.
pub struct Scene {
    view: ViewState,
    cursor_state: (i32, i32),
}

impl Scene {
    /// The view configuration.
    pub closed spec fn spec_view(&self) -> ViewState {
        self.view
    }

    /// The latest pointer position.
    pub closed spec fn spec_cursor(&self) -> (i32, i32) {
        self.cursor_state
    }

    /// A scene with the camera at the origin and tile size one.
    pub fn new(screen_size: (i32, i32), cursor_state: (i32, i32)) -> (r: Scene)
        requires
            0 <= screen_size.0 <= 0x10_0000,
            0 <= screen_size.1 <= 0x10_0000,
        ensures
            r.spec_view().wf(),
            r.spec_view().width == screen_size.0,
            r.spec_view().height == screen_size.1,
            rpair(r.spec_view().camera_x) == (0int, 1int),
            rpair(r.spec_view().camera_y) == (0int, 1int),
            rpair(r.spec_view().tile_size) == (1int, 1int),
            r.spec_cursor() == cursor_state,
    {
        Scene { view: ViewState::with_viewport(screen_size.0, screen_size.1), cursor_state }
    }

    /// A scene over an arbitrary view configuration.
    pub fn with_view(view: ViewState, cursor_state: (i32, i32)) -> (r: Scene)
        requires
            view.wf(),
        ensures
            r.spec_view() == view,
            r.spec_cursor() == cursor_state,
    {
        Scene { view, cursor_state }
    }

    /// The current view configuration.
    pub fn view(&self) -> (r: &ViewState)
        ensures
            *r == self.spec_view(),
    {
        &self.view
    }

    /// The screen dimensions the scene was built with.
    pub fn screen_dimentions(&self) -> (r: (i32, i32))
        ensures
            r == (self.spec_view().width, self.spec_view().height),
    {
        (self.view.width, self.view.height)
    }

    /// The pointer position in screen space.
    pub fn screen_cursor(&self) -> (r: (i32, i32))
        ensures
            r == self.spec_cursor(),
    {
        self.cursor_state
    }

    /// The main world-to-clip transformation, as the composed matrix.
    pub fn transform(&self) -> (t: Transform)
        requires
            self.spec_view().wf(),
            0 < self.spec_view().width,
            0 < self.spec_view().height,
        ensures
            rpair(t.sx) == scale_x(self.spec_view()),
            rpair(t.sy) == scale_y(self.spec_view()),
            rpair(t.tx) == trans_x(self.spec_view()),
            rpair(t.ty) == trans_y(self.spec_view()),
    {
        self.view.build()
    }

    /// The pointer position taken from screen space through clip space to
    /// world space; fails exactly when the transform is singular.
    pub fn world_cursor(&self) -> (r: Result<(Rat, Rat), Singular>)
        requires
            self.spec_view().wf(),
        ensures
            self.spec_view().spec_singular() ==> (r matches Err(e) && e == Singular),
            !self.spec_view().spec_singular() ==> (r matches Ok(p) && {
                &&& rpair(p.0) == spec_to_world_x(
                    self.spec_view(),
                    (self.spec_cursor().0 as int, 1int),
                )
                &&& rpair(p.1) == spec_to_world_y(
                    self.spec_view(),
                    (self.spec_cursor().1 as int, 1int),
                )
                &&& rat_wf(p.0) && rat_wf(p.1)
                &&& i128::MIN < p.0.num && i128::MIN < p.1.num
            }),
    {
        to_world(
            Rat::of_int(self.cursor_state.0 as i128),
            Rat::of_int(self.cursor_state.1 as i128),
            &self.view,
        )
    }

    /// The world cursor rounded to the grid coordinate it falls on.
    pub fn coordinate_cursor(&self) -> (r: Result<Coordinate, ProjectionError>)
        requires
            self.spec_view().wf(),
        ensures
            self.spec_view().spec_singular() ==> r == Result::<
                Coordinate,
                ProjectionError,
            >::Err(ProjectionError::Singular),
            !self.spec_view().spec_singular() ==> ({
                let wx = spec_to_world_x(self.spec_view(), (self.spec_cursor().0 as int, 1int));
                let wy = spec_to_world_y(self.spec_view(), (self.spec_cursor().1 as int, 1int));
                let rx = round_half_away(wx.0, wx.1);
                let ry = round_half_away(wy.0, wy.1);
                if -0x8000_0000 <= rx < 0x8000_0000 && -0x8000_0000 <= ry < 0x8000_0000 {
                    r matches Ok(c) && c.x as int == rx && c.y as int == ry
                } else {
                    r == Result::<Coordinate, ProjectionError>::Err(ProjectionError::OutOfRange)
                }
            }),
    {
        match self.world_cursor() {
            Err(_) => Err(ProjectionError::Singular),
            Ok((wx, wy)) => {
                let rx: i128 = round_rat(wx.num, wx.den);
                let ry: i128 = round_rat(wy.num, wy.den);
                if -0x8000_0000 <= rx && rx < 0x8000_0000 && -0x8000_0000 <= ry && ry
                    < 0x8000_0000 {
                    Ok(Coordinate { x: rx as i32, y: ry as i32 })
                } else {
                    Err(ProjectionError::OutOfRange)
                }
            },
        }
    }
}

} // verus!
