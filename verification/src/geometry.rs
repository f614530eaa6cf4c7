//! Plain geometric values: world positions, pixel dimensions, axis-aligned
//! rectangles (used as hitboxes and render bounds) and render depth order.

use vstd::prelude::*;

use crate::codec::decode_i64;
use crate::codec::decode_u32;
use crate::codec::encode_i64;
use crate::codec::encode_varint_u64;
use crate::codec::lemma_i64_roundtrip;
use crate::codec::lemma_u32_roundtrip;
use crate::codec::spec_dec_i64;
use crate::codec::spec_dec_u32;
use crate::codec::spec_enc_i64;
use crate::codec::spec_enc_varint;

verus! {

/// A point in world space, in pixels.
#[derive(Clone, Copy, Debug, PartialEq, Eq, Structural)]
pub struct Position {
    pub x: i64,
    pub y: i64,
}

/// Width and height of a sprite or hitbox, in pixels.
#[derive(Clone, Copy, Debug, PartialEq, Eq, Structural)]
pub struct Dimension {
    pub width: u32,
    pub height: u32,
}

/// An axis-aligned rectangle, given by its minimum and maximum corner.
/// A point `p` lies inside when `min.x <= p.x < max.x` and
/// `min.y <= p.y < max.y`.
#[derive(Clone, Copy, Debug, PartialEq, Eq, Structural)]
pub struct Rect {
    pub min: Position,
    pub max: Position,
}

/// Addition of `i64` that stops at the ends of the range instead of wrapping.
pub open spec fn spec_sat_add(a: int, b: int) -> int {
    if a + b > i64::MAX {
        i64::MAX as int
    } else if a + b < i64::MIN {
        i64::MIN as int
    } else {
        a + b
    }
}

/// Saturating `i64` addition.
pub fn sat_add(a: i64, b: i64) -> (r: i64)
    ensures
        r as int == spec_sat_add(a as int, b as int),
{
    if b > 0 && a > i64::MAX - b {
        i64::MAX
    } else if b < 0 && a < i64::MIN - b {
        i64::MIN
    } else {
        a + b
    }
}

impl Position {
    pub fn new(x: i64, y: i64) -> (r: Position)
        ensures
            r.x == x,
            r.y == y,
    {
        Position { x, y }
    }

    /// The point moved by `offset`, each coordinate saturating at the ends of
    /// the `i64` range.
    pub fn offset(self, offset: Position) -> (r: Position)
        ensures
            r.x as int == spec_sat_add(self.x as int, offset.x as int),
            r.y as int == spec_sat_add(self.y as int, offset.y as int),
    {
        Position { x: sat_add(self.x, offset.x), y: sat_add(self.y, offset.y) }
    }
}

impl Dimension {
    pub fn new(width: u32, height: u32) -> (r: Dimension)
        ensures
            r.width == width,
            r.height == height,
    {
        Dimension { width, height }
    }

    /// The offset of the centre of a box of this size from its top-left corner.
    pub fn center(self) -> (r: Position)
        ensures
            r.x == self.width as int / 2,
            r.y == self.height as int / 2,
    {
        Position { x: (self.width / 2) as i64, y: (self.height / 2) as i64 }
    }
}

/// Whether two rectangles overlap in a region of positive area.
pub open spec fn spec_intersects(a: Rect, b: Rect) -> bool {
    &&& a.min.x < b.max.x
    &&& b.min.x < a.max.x
    &&& a.min.y < b.max.y
    &&& b.min.y < a.max.y
}

impl Rect {
    pub fn new(min: Position, max: Position) -> (r: Rect)
        ensures
            r.min == min,
            r.max == max,
    {
        Rect { min, max }
    }

    /// The rectangle with its minimum corner at the origin and the given size.
    pub fn from_dimensions(dimensions: Dimension) -> (r: Rect)
        ensures
            r.min == (Position { x: 0, y: 0 }),
            r.max == (Position { x: dimensions.width as i64, y: dimensions.height as i64 }),
    {
        Rect {
            min: Position { x: 0, y: 0 },
            max: Position { x: dimensions.width as i64, y: dimensions.height as i64 },
        }
    }

    /// The rectangle moved by `offset`, both corners saturating at the ends of
    /// the `i64` range.
    pub fn translate(self, offset: Position) -> (r: Rect)
        ensures
            r.min.x as int == spec_sat_add(self.min.x as int, offset.x as int),
            r.min.y as int == spec_sat_add(self.min.y as int, offset.y as int),
            r.max.x as int == spec_sat_add(self.max.x as int, offset.x as int),
            r.max.y as int == spec_sat_add(self.max.y as int, offset.y as int),
    {
        Rect { min: self.min.offset(offset), max: self.max.offset(offset) }
    }

    /// Whether `self` and `other` overlap in a region of positive area.
    pub fn intersects(&self, other: &Rect) -> (r: bool)
        ensures
            r == spec_intersects(*self, *other),
    {
        self.min.x < other.max.x && other.min.x < self.max.x && self.min.y < other.max.y
            && other.min.y < self.max.y
    }
}

/// Rectangle intersection does not depend on the order of its arguments.
pub proof fn lemma_intersects_symmetric(a: Rect, b: Rect)
    ensures
        spec_intersects(a, b) == spec_intersects(b, a),
{
}

/// A point travels as two zigzag varints, `x` then `y`.
pub open spec fn spec_enc_position(p: Position) -> Seq<u8> {
    spec_enc_i64(p.x as int) + spec_enc_i64(p.y as int)
}

pub open spec fn spec_dec_position(bytes: Seq<u8>) -> Option<(Position, int)> {
    match spec_dec_i64(bytes) {
        None => None,
        Some(dx) => match spec_dec_i64(bytes.skip(dx.1)) {
            None => None,
            Some(dy) => Some((Position { x: dx.0, y: dy.0 }, dx.1 + dy.1)),
        },
    }
}

pub proof fn lemma_position_roundtrip(p: Position, rest: Seq<u8>)
    ensures
        spec_dec_position(spec_enc_position(p) + rest) == Some(
            (p, spec_enc_position(p).len() as int),
        ),
{
    let ex = spec_enc_i64(p.x as int);
    let ey = spec_enc_i64(p.y as int);
    assert(spec_enc_position(p) + rest =~= ex + (ey + rest));
    lemma_i64_roundtrip(p.x, ey + rest);
    assert((ex + (ey + rest)).skip(ex.len() as int) =~= ey + rest);
    lemma_i64_roundtrip(p.y, rest);
}

/// A successful point decode consumes between one byte and the whole input.
pub proof fn lemma_dec_position_bounds(bytes: Seq<u8>)
    ensures
        spec_dec_position(bytes) matches Some(d) ==> 1 <= d.1 <= bytes.len(),
{
    crate::codec::lemma_dec_i64_bounds(bytes);
    let d0 = spec_dec_i64(bytes);
    if d0 is Some {
        crate::codec::lemma_dec_i64_bounds(bytes.skip(d0->Some_0.1));
    }
}

/// Appends the encoding of `p` to `out`.
pub fn encode_position(out: &mut Vec<u8>, p: &Position)
    ensures
        final(out)@ == old(out)@ + spec_enc_position(*p),
{
    encode_i64(out, p.x);
    encode_i64(out, p.y);
    assert(out@ =~= old(out)@ + spec_enc_position(*p));
}

/// Reads one point starting at `pos`.
pub fn decode_position(bytes: &[u8], pos: usize) -> (r: Option<(Position, usize)>)
    requires
        pos <= bytes@.len(),
    ensures
        match spec_dec_position(bytes@.skip(pos as int)) {
            None => r is None,
            Some(d) => r == Some((d.0, (pos + d.1) as usize)),
        },
{
    let total = bytes.len();
    proof {
        lemma_dec_position_bounds(bytes@.skip(pos as int));
        crate::codec::lemma_dec_i64_bounds(bytes@.skip(pos as int));
    }
    match decode_i64(bytes, pos) {
        None => None,
        Some((x, p1)) => {
            assert(bytes@.skip(pos as int).skip(p1 - pos) =~= bytes@.skip(p1 as int));
            match decode_i64(bytes, p1) {
                None => None,
                Some((y, p2)) => Some((Position { x, y }, p2)),
            }
        },
    }
}

/// A size travels as two varints, width then height.
pub open spec fn spec_enc_dimension(d: Dimension) -> Seq<u8> {
    spec_enc_varint(d.width as nat) + spec_enc_varint(d.height as nat)
}

pub open spec fn spec_dec_dimension(bytes: Seq<u8>) -> Option<(Dimension, int)> {
    match spec_dec_u32(bytes) {
        None => None,
        Some(dw) => match spec_dec_u32(bytes.skip(dw.1)) {
            None => None,
            Some(dh) => Some((Dimension { width: dw.0, height: dh.0 }, dw.1 + dh.1)),
        },
    }
}

pub proof fn lemma_dimension_roundtrip(d: Dimension, rest: Seq<u8>)
    ensures
        spec_dec_dimension(spec_enc_dimension(d) + rest) == Some(
            (d, spec_enc_dimension(d).len() as int),
        ),
{
    let ew = spec_enc_varint(d.width as nat);
    let eh = spec_enc_varint(d.height as nat);
    assert(spec_enc_dimension(d) + rest =~= ew + (eh + rest));
    lemma_u32_roundtrip(d.width, eh + rest);
    assert((ew + (eh + rest)).skip(ew.len() as int) =~= eh + rest);
    lemma_u32_roundtrip(d.height, rest);
}

/// A successful size decode consumes between one byte and the whole input.
pub proof fn lemma_dec_dimension_bounds(bytes: Seq<u8>)
    ensures
        spec_dec_dimension(bytes) matches Some(d) ==> 1 <= d.1 <= bytes.len(),
{
    crate::codec::lemma_dec_u32_bounds(bytes);
    let d0 = spec_dec_u32(bytes);
    if d0 is Some {
        crate::codec::lemma_dec_u32_bounds(bytes.skip(d0->Some_0.1));
    }
}

/// Appends the encoding of `d` to `out`.
pub fn encode_dimension(out: &mut Vec<u8>, d: &Dimension)
    ensures
        final(out)@ == old(out)@ + spec_enc_dimension(*d),
{
    encode_varint_u64(out, d.width as u64);
    encode_varint_u64(out, d.height as u64);
    assert(out@ =~= old(out)@ + spec_enc_dimension(*d));
}

/// Reads one size starting at `pos`.
pub fn decode_dimension(bytes: &[u8], pos: usize) -> (r: Option<(Dimension, usize)>)
    requires
        pos <= bytes@.len(),
    ensures
        match spec_dec_dimension(bytes@.skip(pos as int)) {
            None => r is None,
            Some(d) => r == Some((d.0, (pos + d.1) as usize)),
        },
{
    let total = bytes.len();
    proof {
        lemma_dec_dimension_bounds(bytes@.skip(pos as int));
        crate::codec::lemma_dec_u32_bounds(bytes@.skip(pos as int));
    }
    match decode_u32(bytes, pos) {
        None => None,
        Some((w, p1)) => {
            assert(bytes@.skip(pos as int).skip(p1 - pos) =~= bytes@.skip(p1 as int));
            match decode_u32(bytes, p1) {
                None => None,
                Some((h, p2)) => Some((Dimension { width: w, height: h }, p2)),
            }
        },
    }
}

/// A rectangle travels as its two corners.
pub open spec fn spec_enc_rect(r: Rect) -> Seq<u8> {
    spec_enc_position(r.min) + spec_enc_position(r.max)
}

pub open spec fn spec_dec_rect(bytes: Seq<u8>) -> Option<(Rect, int)> {
    match spec_dec_position(bytes) {
        None => None,
        Some(dmin) => match spec_dec_position(bytes.skip(dmin.1)) {
            None => None,
            Some(dmax) => Some((Rect { min: dmin.0, max: dmax.0 }, dmin.1 + dmax.1)),
        },
    }
}

pub proof fn lemma_rect_roundtrip(r: Rect, rest: Seq<u8>)
    ensures
        spec_dec_rect(spec_enc_rect(r) + rest) == Some((r, spec_enc_rect(r).len() as int)),
{
    let emin = spec_enc_position(r.min);
    let emax = spec_enc_position(r.max);
    assert(spec_enc_rect(r) + rest =~= emin + (emax + rest));
    lemma_position_roundtrip(r.min, emax + rest);
    assert((emin + (emax + rest)).skip(emin.len() as int) =~= emax + rest);
    lemma_position_roundtrip(r.max, rest);
}

/// A successful rectangle decode consumes between one byte and the whole
/// input.
pub proof fn lemma_dec_rect_bounds(bytes: Seq<u8>)
    ensures
        spec_dec_rect(bytes) matches Some(d) ==> 1 <= d.1 <= bytes.len(),
{
    lemma_dec_position_bounds(bytes);
    let d0 = spec_dec_position(bytes);
    if d0 is Some {
        lemma_dec_position_bounds(bytes.skip(d0->Some_0.1));
    }
}

/// Appends the encoding of `r` to `out`.
pub fn encode_rect(out: &mut Vec<u8>, r: &Rect)
    ensures
        final(out)@ == old(out)@ + spec_enc_rect(*r),
{
    encode_position(out, &r.min);
    encode_position(out, &r.max);
    assert(out@ =~= old(out)@ + spec_enc_rect(*r));
}

/// Reads one rectangle starting at `pos`.
pub fn decode_rect(bytes: &[u8], pos: usize) -> (r: Option<(Rect, usize)>)
    requires
        pos <= bytes@.len(),
    ensures
        match spec_dec_rect(bytes@.skip(pos as int)) {
            None => r is None,
            Some(d) => r == Some((d.0, (pos + d.1) as usize)),
        },
{
    let total = bytes.len();
    proof {
        lemma_dec_rect_bounds(bytes@.skip(pos as int));
        lemma_dec_position_bounds(bytes@.skip(pos as int));
    }
    match decode_position(bytes, pos) {
        None => None,
        Some((min, p1)) => {
            assert(bytes@.skip(pos as int).skip(p1 - pos) =~= bytes@.skip(p1 as int));
            match decode_position(bytes, p1) {
                None => None,
                Some((max, p2)) => Some((Rect { min, max }, p2)),
            }
        },
    }
}

/// Render depth. Sprites with a larger `ZOrder` are drawn on top.
#[derive(Clone, Copy, Debug, PartialEq, Eq, Structural)]
pub struct ZOrder(pub i64);

impl ZOrder {
    /// Depth for game elements; usually the bottom edge of the sprite, so
    /// that sprites lower on the screen cover the ones behind them.
    pub fn new(z: i64) -> (r: ZOrder)
        ensures
            r.0 == z,
    {
        ZOrder(z)
    }

    /// Depth for interface elements, above every game element; a larger `z`
    /// lies further on top.
    pub fn new_ui(z: u8) -> (r: ZOrder)
        ensures
            r.0 == i64::MAX - (u8::MAX - z),
    {
        let inv: u8 = u8::MAX - z;
        ZOrder(i64::MAX - inv as i64)
    }
}

} // verus!
