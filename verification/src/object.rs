//! Per-instance layout data every world object exposes: where it stands,
//! how big it is, its optional hitbox and render bounds, and how it is
//! drawn relative to other sprites.

use vstd::prelude::*;

use crate::codec::decode_bool;
use crate::codec::encode_bool;
use crate::codec::lemma_bool_roundtrip;
use crate::codec::spec_dec_bool;
use crate::codec::spec_enc_bool;
use crate::codec::spec_enc_i64;
use crate::codec::spec_dec_i64;
use crate::codec::decode_i64;
use crate::codec::encode_i64;
use crate::codec::lemma_i64_roundtrip;
use crate::geometry::Dimension;
use crate::geometry::Position;
use crate::geometry::Rect;
use crate::geometry::ZOrder;
use crate::geometry::decode_dimension;
use crate::geometry::decode_position;
use crate::geometry::decode_rect;
use crate::geometry::encode_dimension;
use crate::geometry::encode_position;
use crate::geometry::encode_rect;
use crate::geometry::lemma_dec_dimension_bounds;
use crate::geometry::lemma_dec_position_bounds;
use crate::geometry::lemma_dec_rect_bounds;
use crate::geometry::lemma_dimension_roundtrip;
use crate::geometry::lemma_position_roundtrip;
use crate::geometry::lemma_rect_roundtrip;
use crate::geometry::spec_dec_dimension;
use crate::geometry::spec_dec_position;
use crate::geometry::spec_dec_rect;
use crate::geometry::spec_enc_dimension;
use crate::geometry::spec_enc_position;
use crate::geometry::spec_enc_rect;

verus! {

/// Layout data that must be known about an object in advance: world
/// position, sprite size, an optional hitbox and the render bounds (both
/// relative to the position), whether the player can interact with it, and
/// an optional override of the render depth. An absent hitbox means the
/// object takes part in no collision.
#[derive(Clone, Copy, Debug)]
pub struct ObjectProperties {
    pub position: Position,
    pub dimensions: Dimension,
    pub rel_hitbox: Option<Rect>,
    pub rel_bounds: Rect,
    pub interactable: bool,
    pub override_z: Option<ZOrder>,
}

/// The hitbox in world space: the relative hitbox moved to the position,
/// if the object has one.
pub open spec fn spec_world_hitbox(p: ObjectProperties) -> Option<Rect> {
    match p.rel_hitbox {
        Option::Some(h) => Option::Some(
            Rect {
                min: Position {
                    x: crate::geometry::spec_sat_add(h.min.x as int, p.position.x as int) as i64,
                    y: crate::geometry::spec_sat_add(h.min.y as int, p.position.y as int) as i64,
                },
                max: Position {
                    x: crate::geometry::spec_sat_add(h.max.x as int, p.position.x as int) as i64,
                    y: crate::geometry::spec_sat_add(h.max.y as int, p.position.y as int) as i64,
                },
            },
        ),
        Option::None => Option::None,
    }
}

/// The render bounds in world space: the relative bounds moved to the
/// position.
pub open spec fn spec_world_bounds(p: ObjectProperties) -> Rect {
    Rect {
        min: Position {
            x: crate::geometry::spec_sat_add(p.rel_bounds.min.x as int, p.position.x as int) as i64,
            y: crate::geometry::spec_sat_add(p.rel_bounds.min.y as int, p.position.y as int) as i64,
        },
        max: Position {
            x: crate::geometry::spec_sat_add(p.rel_bounds.max.x as int, p.position.x as int) as i64,
            y: crate::geometry::spec_sat_add(p.rel_bounds.max.y as int, p.position.y as int) as i64,
        },
    }
}

/// Whether `pos` lies inside `r`.
pub open spec fn spec_rect_contains(r: Rect, pos: Position) -> bool {
    &&& r.min.x <= pos.x < r.max.x
    &&& r.min.y <= pos.y < r.max.y
}

impl ObjectProperties {
    /// The hitbox in world space, if any.
    pub fn hitbox(&self) -> (r: Option<Rect>)
        ensures
            r == spec_world_hitbox(*self),
    {
        match self.rel_hitbox {
            Some(h) => Some(h.translate(self.position)),
            None => None,
        }
    }

    /// The render bounds in world space.
    pub fn bounds(&self) -> (r: Rect)
        ensures
            r == spec_world_bounds(*self),
    {
        self.rel_bounds.translate(self.position)
    }

    /// Whether the player at `pos` can interact with this object: the
    /// object is interactable and `pos` lies inside its hitbox, or inside
    /// its bounds when it has no hitbox.
    pub fn interacts_with(&self, pos: Position) -> (r: bool)
        ensures
            r == (self.interactable && spec_rect_contains(
                match spec_world_hitbox(*self) {
                    Option::Some(h) => h,
                    Option::None => spec_world_bounds(*self),
                },
                pos,
            )),
    {
        if !self.interactable {
            return false;
        }
        let zone = match self.hitbox() {
            Some(h) => h,
            None => self.bounds(),
        };
        zone.min.x <= pos.x && pos.x < zone.max.x && zone.min.y <= pos.y && pos.y < zone.max.y
    }
}

/// An optional rectangle: an absence byte, or a presence byte and the value.
pub open spec fn spec_enc_opt_rect(v: Option<Rect>) -> Seq<u8> {
    match v {
        Option::None => seq![0u8],
        Option::Some(r) => seq![1u8] + spec_enc_rect(r),
    }
}

pub open spec fn spec_dec_opt_rect(bytes: Seq<u8>) -> Option<(Option<Rect>, int)> {
    if bytes.len() == 0 {
        None
    } else if bytes[0] == 0 {
        Some((Option::None, 1))
    } else if bytes[0] == 1 {
        match spec_dec_rect(bytes.skip(1)) {
            None => None,
            Some(d) => Some((Option::Some(d.0), 1 + d.1)),
        }
    } else {
        None
    }
}

pub proof fn lemma_opt_rect_roundtrip(v: Option<Rect>, rest: Seq<u8>)
    ensures
        spec_dec_opt_rect(spec_enc_opt_rect(v) + rest) == Some(
            (v, spec_enc_opt_rect(v).len() as int),
        ),
{
    let whole = spec_enc_opt_rect(v) + rest;
    match v {
        Option::None => {
            assert(whole[0] == 0u8);
        },
        Option::Some(r) => {
            assert(whole[0] == 1u8);
            assert(whole.skip(1) =~= spec_enc_rect(r) + rest);
            lemma_rect_roundtrip(r, rest);
        },
    }
}

pub proof fn lemma_dec_opt_rect_bounds(bytes: Seq<u8>)
    ensures
        spec_dec_opt_rect(bytes) matches Some(d) ==> 1 <= d.1 <= bytes.len(),
{
    if bytes.len() > 0 && bytes[0] == 1 {
        lemma_dec_rect_bounds(bytes.skip(1));
    }
}

/// Appends the encoding of `v` to `out`.
pub fn encode_opt_rect(out: &mut Vec<u8>, v: &Option<Rect>)
    ensures
        final(out)@ == old(out)@ + spec_enc_opt_rect(*v),
{
    match v {
        Option::None => {
            out.push(0);
            assert(out@ =~= old(out)@ + spec_enc_opt_rect(*v));
        },
        Option::Some(r) => {
            out.push(1);
            encode_rect(out, r);
            assert(out@ =~= old(out)@ + spec_enc_opt_rect(*v));
        },
    }
}

/// Reads one optional rectangle starting at `pos`.
pub fn decode_opt_rect(bytes: &[u8], pos: usize) -> (r: Option<(Option<Rect>, usize)>)
    requires
        pos <= bytes@.len(),
    ensures
        match spec_dec_opt_rect(bytes@.skip(pos as int)) {
            None => r is None,
            Some(d) => r == Some((d.0, (pos + d.1) as usize)),
        },
{
    let total = bytes.len();
    if pos >= total {
        return None;
    }
    let flag = *vstd::slice::slice_index_get(bytes, pos);
    if flag == 0 {
        Some((None, pos + 1))
    } else if flag == 1 {
        assert(bytes@.skip(pos as int).skip(1) =~= bytes@.skip(pos as int + 1));
        match decode_rect(bytes, pos + 1) {
            None => None,
            Some((rect, p)) => Some((Some(rect), p)),
        }
    } else {
        None
    }
}

/// An optional render depth: an absence byte, or a presence byte and the
/// value as a zigzag varint.
pub open spec fn spec_enc_opt_z(v: Option<ZOrder>) -> Seq<u8> {
    match v {
        Option::None => seq![0u8],
        Option::Some(z) => seq![1u8] + spec_enc_i64(z.0 as int),
    }
}

pub open spec fn spec_dec_opt_z(bytes: Seq<u8>) -> Option<(Option<ZOrder>, int)> {
    if bytes.len() == 0 {
        None
    } else if bytes[0] == 0 {
        Some((Option::None, 1))
    } else if bytes[0] == 1 {
        match spec_dec_i64(bytes.skip(1)) {
            None => None,
            Some(d) => Some((Option::Some(ZOrder(d.0)), 1 + d.1)),
        }
    } else {
        None
    }
}

pub proof fn lemma_opt_z_roundtrip(v: Option<ZOrder>, rest: Seq<u8>)
    ensures
        spec_dec_opt_z(spec_enc_opt_z(v) + rest) == Some((v, spec_enc_opt_z(v).len() as int)),
{
    let whole = spec_enc_opt_z(v) + rest;
    match v {
        Option::None => {
            assert(whole[0] == 0u8);
        },
        Option::Some(z) => {
            assert(whole[0] == 1u8);
            assert(whole.skip(1) =~= spec_enc_i64(z.0 as int) + rest);
            lemma_i64_roundtrip(z.0, rest);
        },
    }
}

pub proof fn lemma_dec_opt_z_bounds(bytes: Seq<u8>)
    ensures
        spec_dec_opt_z(bytes) matches Some(d) ==> 1 <= d.1 <= bytes.len(),
{
    if bytes.len() > 0 && bytes[0] == 1 {
        crate::codec::lemma_dec_i64_bounds(bytes.skip(1));
    }
}

/// Appends the encoding of `v` to `out`.
pub fn encode_opt_z(out: &mut Vec<u8>, v: &Option<ZOrder>)
    ensures
        final(out)@ == old(out)@ + spec_enc_opt_z(*v),
{
    match v {
        Option::None => {
            out.push(0);
            assert(out@ =~= old(out)@ + spec_enc_opt_z(*v));
        },
        Option::Some(z) => {
            out.push(1);
            encode_i64(out, z.0);
            assert(out@ =~= old(out)@ + spec_enc_opt_z(*v));
        },
    }
}

/// Reads one optional render depth starting at `pos`.
pub fn decode_opt_z(bytes: &[u8], pos: usize) -> (r: Option<(Option<ZOrder>, usize)>)
    requires
        pos <= bytes@.len(),
    ensures
        match spec_dec_opt_z(bytes@.skip(pos as int)) {
            None => r is None,
            Some(d) => r == Some((d.0, (pos + d.1) as usize)),
        },
{
    let total = bytes.len();
    if pos >= total {
        return None;
    }
    let flag = *vstd::slice::slice_index_get(bytes, pos);
    if flag == 0 {
        Some((None, pos + 1))
    } else if flag == 1 {
        assert(bytes@.skip(pos as int).skip(1) =~= bytes@.skip(pos as int + 1));
        match decode_i64(bytes, pos + 1) {
            None => None,
            Some((z, p)) => Some((Some(ZOrder(z)), p)),
        }
    } else {
        None
    }
}

/// Layout data travels as position, size, optional hitbox, bounds,
/// interactable flag and optional depth override, in that order.
pub open spec fn spec_enc_properties(p: ObjectProperties) -> Seq<u8> {
    spec_enc_position(p.position) + spec_enc_dimension(p.dimensions) + spec_enc_opt_rect(
        p.rel_hitbox,
    ) + spec_enc_rect(p.rel_bounds) + spec_enc_bool(p.interactable) + spec_enc_opt_z(p.override_z)
}

pub open spec fn spec_dec_properties(bytes: Seq<u8>) -> Option<(ObjectProperties, int)> {
    match spec_dec_position(bytes) {
        None => None,
        Some(d1) => match spec_dec_dimension(bytes.skip(d1.1)) {
            None => None,
            Some(d2) => match spec_dec_opt_rect(bytes.skip(d1.1 + d2.1)) {
                None => None,
                Some(d3) => match spec_dec_rect(bytes.skip(d1.1 + d2.1 + d3.1)) {
                    None => None,
                    Some(d4) => match spec_dec_bool(bytes.skip(d1.1 + d2.1 + d3.1 + d4.1)) {
                        None => None,
                        Some(d5) => match spec_dec_opt_z(
                            bytes.skip(d1.1 + d2.1 + d3.1 + d4.1 + d5.1),
                        ) {
                            None => None,
                            Some(d6) => Some(
                                (
                                    ObjectProperties {
                                        position: d1.0,
                                        dimensions: d2.0,
                                        rel_hitbox: d3.0,
                                        rel_bounds: d4.0,
                                        interactable: d5.0,
                                        override_z: d6.0,
                                    },
                                    d1.1 + d2.1 + d3.1 + d4.1 + d5.1 + d6.1,
                                ),
                            ),
                        },
                    },
                },
            },
        },
    }
}

#[verifier::rlimit(90)]
#[verifier::spinoff_prover]
pub proof fn lemma_properties_roundtrip(p: ObjectProperties, rest: Seq<u8>)
    ensures
        spec_dec_properties(spec_enc_properties(p) + rest) == Some(
            (p, spec_enc_properties(p).len() as int),
        ),
{
    let e1 = spec_enc_position(p.position);
    let e2 = spec_enc_dimension(p.dimensions);
    let e3 = spec_enc_opt_rect(p.rel_hitbox);
    let e4 = spec_enc_rect(p.rel_bounds);
    let e5 = spec_enc_bool(p.interactable);
    let e6 = spec_enc_opt_z(p.override_z);
    let t5 = e6 + rest;
    let t4 = e5 + t5;
    let t3 = e4 + t4;
    let t2 = e3 + t3;
    let t1 = e2 + t2;
    let whole = spec_enc_properties(p) + rest;
    let l1 = e1.len() as int;
    let l2 = e2.len() as int;
    let l3 = e3.len() as int;
    let l4 = e4.len() as int;
    let l5 = e5.len() as int;
    crate::codec::lemma_seq_assoc(e1 + e2 + e3 + e4 + e5, e6, rest);
    crate::codec::lemma_seq_assoc(e1 + e2 + e3 + e4, e5, t5);
    crate::codec::lemma_seq_assoc(e1 + e2 + e3, e4, t4);
    crate::codec::lemma_seq_assoc(e1 + e2, e3, t3);
    crate::codec::lemma_seq_assoc(e1, e2, t2);
    assert(whole == e1 + t1);
    lemma_position_roundtrip(p.position, t1);
    lemma_dimension_roundtrip(p.dimensions, t2);
    lemma_opt_rect_roundtrip(p.rel_hitbox, t3);
    lemma_rect_roundtrip(p.rel_bounds, t4);
    lemma_bool_roundtrip(p.interactable, t5);
    lemma_opt_z_roundtrip(p.override_z, rest);
    crate::codec::lemma_skip_concat(e1, t1);
    crate::codec::lemma_skip_concat(e2, t2);
    crate::codec::lemma_skip_concat(e3, t3);
    crate::codec::lemma_skip_concat(e4, t4);
    crate::codec::lemma_skip_concat(e5, t5);
    crate::codec::lemma_skip_two(whole, l1, l2);
    crate::codec::lemma_skip_two(whole, l1 + l2, l3);
    crate::codec::lemma_skip_two(whole, l1 + l2 + l3, l4);
    crate::codec::lemma_skip_two(whole, l1 + l2 + l3 + l4, l5);
    assert(whole.skip(l1) == t1);
    assert(whole.skip(l1 + l2) == t2);
    assert(whole.skip(l1 + l2 + l3) == t3);
    assert(whole.skip(l1 + l2 + l3 + l4) == t4);
    assert(whole.skip(l1 + l2 + l3 + l4 + l5) == t5);
}

pub proof fn lemma_dec_properties_bounds(bytes: Seq<u8>)
    ensures
        spec_dec_properties(bytes) matches Some(d) ==> 1 <= d.1 <= bytes.len(),
{
    lemma_dec_position_bounds(bytes);
    let d1 = spec_dec_position(bytes);
    if d1 is Some {
        let l1 = d1->Some_0.1;
        lemma_dec_dimension_bounds(bytes.skip(l1));
        let d2 = spec_dec_dimension(bytes.skip(l1));
        if d2 is Some {
            let l2 = l1 + d2->Some_0.1;
            lemma_dec_opt_rect_bounds(bytes.skip(l2));
            let d3 = spec_dec_opt_rect(bytes.skip(l2));
            if d3 is Some {
                let l3 = l2 + d3->Some_0.1;
                lemma_dec_rect_bounds(bytes.skip(l3));
                let d4 = spec_dec_rect(bytes.skip(l3));
                if d4 is Some {
                    let l4 = l3 + d4->Some_0.1;
                    crate::codec::lemma_dec_bool_bounds(bytes.skip(l4));
                    let d5 = spec_dec_bool(bytes.skip(l4));
                    if d5 is Some {
                        let l5 = l4 + d5->Some_0.1;
                        lemma_dec_opt_z_bounds(bytes.skip(l5));
                    }
                }
            }
        }
    }
}

/// Appends the encoding of `p` to `out`.
pub fn encode_properties(out: &mut Vec<u8>, p: &ObjectProperties)
    ensures
        final(out)@ == old(out)@ + spec_enc_properties(*p),
{
    encode_position(out, &p.position);
    encode_dimension(out, &p.dimensions);
    encode_opt_rect(out, &p.rel_hitbox);
    encode_rect(out, &p.rel_bounds);
    encode_bool(out, p.interactable);
    encode_opt_z(out, &p.override_z);
    assert(out@ =~= old(out)@ + spec_enc_properties(*p));
}

/// Reads one layout record starting at `pos`.
#[verifier::rlimit(90)]
pub fn decode_properties(bytes: &[u8], pos: usize) -> (r: Option<(ObjectProperties, usize)>)
    requires
        pos <= bytes@.len(),
    ensures
        match spec_dec_properties(bytes@.skip(pos as int)) {
            None => r is None,
            Some(d) => r == Some((d.0, (pos + d.1) as usize)),
        },
{
    let total = bytes.len();
    proof {
        lemma_dec_position_bounds(bytes@.skip(pos as int));
    }
    match decode_position(bytes, pos) {
        None => None,
        Some((position, p1)) => {
            proof { crate::codec::lemma_skip_two(bytes@, pos as int, p1 - pos); }
            proof {
                lemma_dec_dimension_bounds(bytes@.skip(p1 as int));
            }
            match decode_dimension(bytes, p1) {
                None => None,
                Some((dimensions, p2)) => {
                    proof { crate::codec::lemma_skip_two(bytes@, p1 as int, p2 - p1); }
                    proof { crate::codec::lemma_skip_two(bytes@, pos as int, p2 - pos); }
                    proof {
                        lemma_dec_opt_rect_bounds(bytes@.skip(p2 as int));
                    }
                    match decode_opt_rect(bytes, p2) {
                        None => None,
                        Some((rel_hitbox, p3)) => {
                            proof { crate::codec::lemma_skip_two(bytes@, p2 as int, p3 - p2); }
                            proof { crate::codec::lemma_skip_two(bytes@, pos as int, p3 - pos); }
                            proof {
                                lemma_dec_rect_bounds(bytes@.skip(p3 as int));
                            }
                            match decode_rect(bytes, p3) {
                                None => None,
                                Some((rel_bounds, p4)) => {
                                    proof { crate::codec::lemma_skip_two(bytes@, p3 as int, p4 - p3); }
                                    proof { crate::codec::lemma_skip_two(bytes@, pos as int, p4 - pos); }
                                    proof {
                                        crate::codec::lemma_dec_bool_bounds(
                                            bytes@.skip(p4 as int),
                                        );
                                    }
                                    match decode_bool(bytes, p4) {
                                        None => None,
                                        Some((interactable, p5)) => {
                                            proof { crate::codec::lemma_skip_two(bytes@, p4 as int, p5 - p4); }
                                            proof { crate::codec::lemma_skip_two(bytes@, pos as int, p5 - pos); }
                                            proof {
                                                lemma_dec_opt_z_bounds(bytes@.skip(p5 as int));
                                            }
                                            match decode_opt_z(bytes, p5) {
                                                None => None,
                                                Some((override_z, p6)) => Some(
                                                    (
                                                        ObjectProperties {
                                                            position,
                                                            dimensions,
                                                            rel_hitbox,
                                                            rel_bounds,
                                                            interactable,
                                                            override_z,
                                                        },
                                                        p6,
                                                    ),
                                                ),
                                            }
                                        },
                                    }
                                },
                            }
                        },
                    }
                },
            }
        },
    }
}

} // verus!
