//! The beach ball: a network object that rolls, damps out, and bounces off
//! players and static obstacles.
//!
//! Positions inside the ball are kept in milli-pixels (thousandths of a
//! pixel) so sub-pixel motion survives between ticks; the layout position is
//! that value divided down to whole pixels.

use vstd::prelude::*;

use crate::codec::DecodeError;
use crate::codec::decode_i64;
use crate::codec::encode_i64;
use crate::codec::lemma_i64_roundtrip;
use crate::codec::spec_dec_i64;
use crate::codec::spec_enc_i64;
use crate::collision::CollisionInfo;
use crate::collision::MAX_SPEED_MILLI;
use crate::collision::decode_collision_info;
use crate::collision::encode_collision_info;
use crate::collision::spec_apply;
use crate::collision::spec_apply_with_force;
use crate::collision::spec_clamp;
use crate::collision::spec_div_trunc;
use crate::collision::spec_velocity_bounded;
use crate::collision::div_trunc;
use crate::collision::clamp_milli;
use crate::geometry::Dimension;
use crate::geometry::Position;
use crate::geometry::Rect;
use crate::geometry::spec_sat_add;
use crate::object::ObjectProperties;

verus! {

/// Sprite size of the beach ball, in pixels.
pub const BEACH_BALL_SIZE: u32 = 16;

/// Extra impulse a moving player gives the ball, in milli-units.
pub const BALL_FORCE_MILLI: i64 = 1200;

/// Below this speed (milli-units) a component is treated as at rest.
pub const REST_EPSILON_MILLI: i64 = 100;

/// A rolling ball: its layout data, its position in milli-pixels, its
/// velocity in milli-units, and the collision queued for the next server
/// tick. The queued collision is transient and never serialized.
#[derive(Clone, Copy, Debug)]
pub struct BeachBall {
    pub properties: ObjectProperties,
    pub position_milli: (i64, i64),
    pub velocity: (i64, i64),
    pub queued_collision: Option<CollisionInfo>,
}

/// The ball's velocity components lie within the clamp range.
pub open spec fn spec_ball_bounded(b: BeachBall) -> bool {
    &&& -MAX_SPEED_MILLI <= b.velocity.0 <= MAX_SPEED_MILLI
    &&& -MAX_SPEED_MILLI <= b.velocity.1 <= MAX_SPEED_MILLI
}

/// `0.05` to the power `t`, in milli-units, rounded down at each step.
pub open spec fn spec_pow05_milli(t: nat) -> int
    decreases t,
{
    if t == 0 {
        1000
    } else {
        spec_pow05_milli((t - 1) as nat) * 50 / 1000
    }
}

pub proof fn lemma_pow05_range(t: nat)
    ensures
        0 <= spec_pow05_milli(t) <= 1000,
    decreases t,
{
    if t > 0 {
        lemma_pow05_range((t - 1) as nat);
        let p = spec_pow05_milli((t - 1) as nat);
        assert(0 <= p * 50 / 1000 <= p) by (nonlinear_arith)
            requires
                0 <= p <= 1000,
        ;
    }
}

/// Once the power reaches zero it stays zero.
pub proof fn lemma_pow05_zero(i: nat, t: nat)
    requires
        i <= t,
        spec_pow05_milli(i) == 0,
    ensures
        spec_pow05_milli(t) == 0,
    decreases t - i,
{
    if i < t {
        lemma_pow05_range((t - 1) as nat);
        lemma_pow05_zero(i, (t - 1) as nat);
    }
}

/// One velocity component after `t` whole ticks of damping: scaled by
/// `1 - 0.05 ^ t`, truncated toward zero, clamped, and snapped to zero when
/// slower than the rest threshold. Zero elapsed ticks change nothing.
pub open spec fn spec_damped(v: int, t: nat) -> int {
    if t == 0 {
        v
    } else {
        let scaled = spec_clamp(spec_div_trunc(v * (1000 - spec_pow05_milli(t)), 1000));
        if -REST_EPSILON_MILLI < scaled < REST_EPSILON_MILLI {
            0
        } else {
            scaled
        }
    }
}

/// An `i64` value saturated at the ends of the range.
pub open spec fn spec_sat_i64(v: int) -> int {
    if v > i64::MAX {
        i64::MAX as int
    } else if v < i64::MIN {
        i64::MIN as int
    } else {
        v
    }
}

/// The ball's collision record: a dynamic body centred in its sprite.
pub open spec fn spec_ball_collision_info(b: BeachBall) -> CollisionInfo {
    CollisionInfo {
        center: Position {
            x: spec_sat_add(
                b.properties.position.x as int,
                b.properties.dimensions.width as int / 2,
            ) as i64,
            y: spec_sat_add(
                b.properties.position.y as int,
                b.properties.dimensions.height as int / 2,
            ) as i64,
        },
        velocity: Option::Some(
            (spec_clamp(b.velocity.0 as int) as i64, spec_clamp(b.velocity.1 as int) as i64),
        ),
        is_player: false,
    }
}

/// The ball's velocity after a collision with `c`: the forceful response
/// when a moving player hit it, the plain response otherwise.
pub open spec fn spec_ball_collided(b: BeachBall, c: CollisionInfo) -> (int, int) {
    let info = spec_ball_collision_info(b);
    if c.is_player && (match c.velocity {
        Option::Some(v) => v != (0i64, 0i64),
        Option::None => false,
    }) {
        spec_apply_with_force(info, c, BALL_FORCE_MILLI as int)
    } else {
        spec_apply(info, c)
    }
}

impl BeachBall {
    /// A ball at rest at `position`, with its sprite rectangle as hitbox
    /// and bounds.
    pub fn new(position: Position) -> (r: BeachBall)
        ensures
            r.properties.position == position,
            r.properties.dimensions == (Dimension {
                width: BEACH_BALL_SIZE,
                height: BEACH_BALL_SIZE,
            }),
            r.properties.rel_hitbox == Option::Some(r.properties.rel_bounds),
            r.properties.rel_bounds == (Rect {
                min: Position { x: 0, y: 0 },
                max: Position { x: BEACH_BALL_SIZE as i64, y: BEACH_BALL_SIZE as i64 },
            }),
            r.properties.interactable == false,
            r.properties.override_z is None,
            r.position_milli.0 as int == spec_sat_i64(position.x as int * 1000),
            r.position_milli.1 as int == spec_sat_i64(position.y as int * 1000),
            r.velocity == (0i64, 0i64),
            r.queued_collision is None,
            spec_ball_bounded(r),
    {
        let dimensions = Dimension::new(BEACH_BALL_SIZE, BEACH_BALL_SIZE);
        let bounds = Rect::from_dimensions(dimensions);
        BeachBall {
            properties: ObjectProperties {
                position,
                dimensions,
                rel_hitbox: Some(bounds),
                rel_bounds: bounds,
                interactable: false,
                override_z: None,
            },
            position_milli: (sat_i64(position.x as i128 * 1000), sat_i64(
                position.y as i128 * 1000,
            )),
            velocity: (0, 0),
            queued_collision: None,
        }
    }

    /// The ball's collision record for this tick.
    pub fn collision_info(&self) -> (r: CollisionInfo)
        ensures
            r == spec_ball_collision_info(*self),
            spec_velocity_bounded(r),
    {
        let center = self.properties.position.offset(self.properties.dimensions.center());
        CollisionInfo::new_dynamic(center, self.velocity)
    }

    /// Remember a collision for the next server tick. A later collision in
    /// the same tick replaces an earlier one.
    pub fn on_collision(&mut self, collision: CollisionInfo)
        ensures
            final(self).queued_collision == Option::Some(collision),
            final(self).properties == old(self).properties,
            final(self).position_milli == old(self).position_milli,
            final(self).velocity == old(self).velocity,
    {
        self.queued_collision = Some(collision);
    }

    /// Move the ball to `position`, keeping its velocity.
    pub fn set_position(&mut self, position: Position)
        ensures
            final(self).position_milli.0 as int == spec_sat_i64(position.x as int * 1000),
            final(self).position_milli.1 as int == spec_sat_i64(position.y as int * 1000),
            final(self).velocity == old(self).velocity,
            final(self).properties == old(self).properties,
            final(self).queued_collision == old(self).queued_collision,
    {
        self.position_milli = (sat_i64(position.x as i128 * 1000), sat_i64(
            position.y as i128 * 1000,
        ));
    }

    /// Respond to a collision now: replace the velocity by the collision
    /// response.
    pub fn apply_collision(&mut self, collision: CollisionInfo)
        ensures
            (final(self).velocity.0 as int, final(self).velocity.1 as int) == spec_ball_collided(
                *old(self),
                collision,
            ),
            final(self).properties == old(self).properties,
            final(self).position_milli == old(self).position_milli,
            final(self).queued_collision == old(self).queued_collision,
            spec_ball_bounded(*final(self)),
    {
        let info = self.collision_info();
        let vel = collision.velocity();
        if collision.is_player() && (vel.0 != 0 || vel.1 != 0) {
            self.velocity = info.apply_with_force(collision, BALL_FORCE_MILLI);
        } else {
            self.velocity = info.apply(collision);
        }
    }
}

/// The ball after its own per-tick server work: the queued collision, if
/// any, is applied and cleared.
pub open spec fn spec_ball_server_ticked(b: BeachBall) -> BeachBall {
    match b.queued_collision {
        Option::Some(c) => BeachBall {
            velocity: (
                spec_ball_collided(b, c).0 as i64,
                spec_ball_collided(b, c).1 as i64,
            ),
            queued_collision: Option::None,
            ..b
        },
        Option::None => b,
    }
}

/// What the ball broadcasts after its server work: its state, when it
/// still moves faster than the rest threshold.
pub open spec fn spec_ball_server_msg(b: BeachBall) -> Option<Seq<u8>> {
    let mid = spec_ball_server_ticked(b);
    if mid.velocity.0 > REST_EPSILON_MILLI || mid.velocity.0 < -REST_EPSILON_MILLI
        || mid.velocity.1 > REST_EPSILON_MILLI || mid.velocity.1 < -REST_EPSILON_MILLI {
        Option::Some(spec_enc_ball_state(mid.position_milli, mid.velocity))
    } else {
        Option::None
    }
}

/// The ball after `delta_ms` of simulated time and the given collisions
/// with other bodies: damping, then queueing the latest collision, then
/// motion, with the layout position following the milli-pixel position.
pub open spec fn spec_ball_ticked(
    b: BeachBall,
    delta_ms: u64,
    collisions: Seq<CollisionInfo>,
) -> BeachBall {
    let t = (delta_ms / crate::SERVER_TICK_RATE) as nat;
    let vx = spec_damped(b.velocity.0 as int, t);
    let vy = spec_damped(b.velocity.1 as int, t);
    let queued = if collisions.len() > 0 {
        Option::Some(collisions.last())
    } else {
        b.queued_collision
    };
    let px = spec_sat_i64(b.position_milli.0 + vx * t);
    let py = spec_sat_i64(b.position_milli.1 + vy * t);
    BeachBall {
        properties: ObjectProperties {
            position: Position {
                x: spec_div_trunc(px, 1000) as i64,
                y: spec_div_trunc(py, 1000) as i64,
            },
            ..b.properties
        },
        position_milli: (px as i64, py as i64),
        velocity: (vx as i64, vy as i64),
        queued_collision: queued,
    }
}

/// The state the ball broadcasts: milli-pixel position and velocity, as
/// four zigzag varints.
pub open spec fn spec_enc_ball_state(position: (i64, i64), velocity: (i64, i64)) -> Seq<u8> {
    spec_enc_i64(position.0 as int) + spec_enc_i64(position.1 as int) + spec_enc_i64(
        velocity.0 as int,
    ) + spec_enc_i64(velocity.1 as int)
}

pub open spec fn spec_dec_ball_state(bytes: Seq<u8>) -> Option<(((i64, i64), (i64, i64)), int)> {
    match spec_dec_i64(bytes) {
        None => None,
        Some(d1) => match spec_dec_i64(bytes.skip(d1.1)) {
            None => None,
            Some(d2) => match spec_dec_i64(bytes.skip(d1.1 + d2.1)) {
                None => None,
                Some(d3) => match spec_dec_i64(bytes.skip(d1.1 + d2.1 + d3.1)) {
                    None => None,
                    Some(d4) => Some(
                        (((d1.0, d2.0), (d3.0, d4.0)), d1.1 + d2.1 + d3.1 + d4.1),
                    ),
                },
            },
        },
    }
}

pub proof fn lemma_ball_state_roundtrip(position: (i64, i64), velocity: (i64, i64), rest: Seq<u8>)
    ensures
        spec_dec_ball_state(spec_enc_ball_state(position, velocity) + rest) == Some(
            ((position, velocity), spec_enc_ball_state(position, velocity).len() as int),
        ),
{
    let e1 = spec_enc_i64(position.0 as int);
    let e2 = spec_enc_i64(position.1 as int);
    let e3 = spec_enc_i64(velocity.0 as int);
    let e4 = spec_enc_i64(velocity.1 as int);
    let t3 = e4 + rest;
    let t2 = e3 + t3;
    let t1 = e2 + t2;
    let whole = spec_enc_ball_state(position, velocity) + rest;
    let l1 = e1.len() as int;
    let l2 = e2.len() as int;
    let l3 = e3.len() as int;
    crate::codec::lemma_seq_assoc(e1 + e2 + e3, e4, rest);
    crate::codec::lemma_seq_assoc(e1 + e2, e3, t3);
    crate::codec::lemma_seq_assoc(e1, e2, t2);
    assert(whole == e1 + t1);
    lemma_i64_roundtrip(position.0, t1);
    lemma_i64_roundtrip(position.1, t2);
    lemma_i64_roundtrip(velocity.0, t3);
    lemma_i64_roundtrip(velocity.1, rest);
    crate::codec::lemma_skip_concat(e1, t1);
    crate::codec::lemma_skip_concat(e2, t2);
    crate::codec::lemma_skip_concat(e3, t3);
    crate::codec::lemma_skip_two(whole, l1, l2);
    crate::codec::lemma_skip_two(whole, l1 + l2, l3);
    assert(whole.skip(l1) == t1);
    assert(whole.skip(l1 + l2) == t2);
    assert(whole.skip(l1 + l2 + l3) == t3);
}

pub proof fn lemma_dec_ball_state_bounds(bytes: Seq<u8>)
    ensures
        spec_dec_ball_state(bytes) matches Some(d) ==> 1 <= d.1 <= bytes.len(),
{
    crate::codec::lemma_dec_i64_bounds(bytes);
    let d1 = spec_dec_i64(bytes);
    if d1 is Some {
        let l1 = d1->Some_0.1;
        crate::codec::lemma_dec_i64_bounds(bytes.skip(l1));
        let d2 = spec_dec_i64(bytes.skip(l1));
        if d2 is Some {
            let l2 = l1 + d2->Some_0.1;
            crate::codec::lemma_dec_i64_bounds(bytes.skip(l2));
            let d3 = spec_dec_i64(bytes.skip(l2));
            if d3 is Some {
                crate::codec::lemma_dec_i64_bounds(bytes.skip(l2 + d3->Some_0.1));
            }
        }
    }
}

/// Appends the encoding of a state broadcast to `out`.
pub fn encode_ball_state(out: &mut Vec<u8>, position: (i64, i64), velocity: (i64, i64))
    ensures
        final(out)@ == old(out)@ + spec_enc_ball_state(position, velocity),
{
    encode_i64(out, position.0);
    encode_i64(out, position.1);
    encode_i64(out, velocity.0);
    encode_i64(out, velocity.1);
    assert(out@ =~= old(out)@ + spec_enc_ball_state(position, velocity));
}

/// Reads one state broadcast starting at `pos`.
pub fn decode_ball_state(bytes: &[u8], pos: usize) -> (r: Option<(((i64, i64), (i64, i64)), usize)>)
    requires
        pos <= bytes@.len(),
    ensures
        match spec_dec_ball_state(bytes@.skip(pos as int)) {
            None => r is None,
            Some(d) => r == Some((d.0, (pos + d.1) as usize)),
        },
{
    let total = bytes.len();
    proof {
        crate::codec::lemma_dec_i64_bounds(bytes@.skip(pos as int));
    }
    match decode_i64(bytes, pos) {
        None => None,
        Some((px, p1)) => {
            proof {
                crate::codec::lemma_skip_two(bytes@, pos as int, p1 - pos);
                crate::codec::lemma_dec_i64_bounds(bytes@.skip(p1 as int));
            }
            match decode_i64(bytes, p1) {
                None => None,
                Some((py, p2)) => {
                    proof {
                        crate::codec::lemma_skip_two(bytes@, p1 as int, p2 - p1);
                        crate::codec::lemma_skip_two(bytes@, pos as int, p2 - pos);
                        crate::codec::lemma_dec_i64_bounds(bytes@.skip(p2 as int));
                    }
                    match decode_i64(bytes, p2) {
                        None => None,
                        Some((vx, p3)) => {
                            proof {
                                crate::codec::lemma_skip_two(bytes@, p2 as int, p3 - p2);
                                crate::codec::lemma_skip_two(bytes@, pos as int, p3 - pos);
                                crate::codec::lemma_dec_i64_bounds(bytes@.skip(p3 as int));
                            }
                            match decode_i64(bytes, p3) {
                                None => None,
                                Some((vy, p4)) => Some((((px, py), (vx, vy)), p4)),
                            }
                        },
                    }
                },
            }
        },
    }
}

/// One damped velocity component.
fn damp_component(v: i64, t: u64) -> (r: i64)
    ensures
        r as int == spec_damped(v as int, t as nat),
{
    if t == 0 {
        v
    } else {
        let p = pow05_milli(t);
        proof {
            lemma_pow05_range(t as nat);
        }
        let factor = 1000 - p as i64;
        proof {
            assert(-9223372036854775808000i128 <= v as i128 * factor as i128
                <= 9223372036854775807000i128) by (nonlinear_arith)
                requires
                    -9223372036854775808i128 <= v as i128 <= 9223372036854775807i128,
                    0 <= factor as i128 <= 1000,
            ;
        }
        let scaled = clamp_milli(div_trunc(v as i128 * factor as i128, 1000));
        if -REST_EPSILON_MILLI < scaled && scaled < REST_EPSILON_MILLI {
            0
        } else {
            scaled
        }
    }
}

impl BeachBall {
    /// Advance the ball by `delta_ms` of simulated time, against the given
    /// list of collisions with other bodies detected this tick (the latest
    /// of which is queued for the next server tick).
    pub fn tick(&mut self, delta_ms: u64, collisions: &Vec<CollisionInfo>)
        ensures
            *final(self) == spec_ball_ticked(*old(self), delta_ms, collisions@),
            spec_ball_bounded(*old(self)) ==> spec_ball_bounded(*final(self)),
    {
        let t = delta_ms / crate::SERVER_TICK_RATE;
        let vx = damp_component(self.velocity.0, t);
        let vy = damp_component(self.velocity.1, t);
        let px: i64;
        let py: i64;
        if t == 0 {
            px = self.position_milli.0;
            py = self.position_milli.1;
        } else {
            proof {
                assert(-5000i128 * 18446744073709551615i128 <= vx as i128 * t as i128 <= 5000i128
                    * 18446744073709551615i128) by (nonlinear_arith)
                    requires
                        -5000 <= vx as i128 <= 5000,
                        0 <= t as i128 <= 18446744073709551615i128,
                ;
                assert(-5000i128 * 18446744073709551615i128 <= vy as i128 * t as i128 <= 5000i128
                    * 18446744073709551615i128) by (nonlinear_arith)
                    requires
                        -5000 <= vy as i128 <= 5000,
                        0 <= t as i128 <= 18446744073709551615i128,
                ;
            }
            px = sat_i64(self.position_milli.0 as i128 + vx as i128 * t as i128);
            py = sat_i64(self.position_milli.1 as i128 + vy as i128 * t as i128);
        }
        if collisions.len() > 0 {
            self.queued_collision = Some(collisions[collisions.len() - 1]);
        }
        self.position_milli = (px, py);
        self.velocity = (vx, vy);
        self.properties.position = Position {
            x: div_trunc(px as i128, 1000) as i64,
            y: div_trunc(py as i128, 1000) as i64,
        };
    }

    /// Respond to the queued collision, if any, then broadcast the state
    /// when the ball still moves faster than the rest threshold.
    pub fn server_tick(&mut self) -> (r: Option<Vec<u8>>)
        ensures
            *final(self) == spec_ball_server_ticked(*old(self)),
            match spec_ball_server_msg(*old(self)) {
                Option::Some(bytes) => r matches Some(rb) && rb@ == bytes,
                Option::None => r is None,
            },
            spec_ball_bounded(*old(self)) ==> spec_ball_bounded(*final(self)),
    {
        match self.queued_collision {
            Some(c) => {
                self.queued_collision = None;
                self.apply_collision(c);
            },
            None => {},
        }
        if self.velocity.0 > REST_EPSILON_MILLI || self.velocity.0 < -REST_EPSILON_MILLI
            || self.velocity.1 > REST_EPSILON_MILLI || self.velocity.1 < -REST_EPSILON_MILLI {
            let mut out: Vec<u8> = Vec::new();
            encode_ball_state(&mut out, self.position_milli, self.velocity);
            Some(out)
        } else {
            None
        }
    }

    /// Handle a payload a client sent for this ball: a collision record,
    /// applied at once; the new state goes back to every client. A
    /// malformed payload changes nothing and is reported.
    pub fn server_message(&mut self, data: &[u8]) -> (r: Result<Option<Vec<u8>>, DecodeError>)
        ensures
            match crate::collision::spec_dec_collision_info(data@) {
                Option::Some(d) => {
                    &&& (final(self).velocity.0 as int, final(self).velocity.1 as int)
                        == spec_ball_collided(*old(self), d.0)
                    &&& final(self).properties == old(self).properties
                    &&& final(self).position_milli == old(self).position_milli
                    &&& final(self).queued_collision == old(self).queued_collision
                    &&& r matches Ok(msg) && msg matches Some(bytes) && bytes@
                        == spec_enc_ball_state(final(self).position_milli, final(self).velocity)
                },
                Option::None => {
                    &&& *final(self) == *old(self)
                    &&& r matches Err(e) && e == DecodeError::Malformed
                },
            },
            spec_ball_bounded(*final(self)) || *final(self) == *old(self),
    {
        assert(data@.skip(0) =~= data@);
        match decode_collision_info(data, 0) {
            None => Err(DecodeError::Malformed),
            Some((c, _)) => {
                self.apply_collision(c);
                let mut out: Vec<u8> = Vec::new();
                encode_ball_state(&mut out, self.position_milli, self.velocity);
                Ok(Some(out))
            },
        }
    }

    /// Handle a state broadcast from the server: adopt the position and the
    /// velocity (clamped to the velocity range). A malformed payload
    /// changes nothing and is reported.
    pub fn client_message(&mut self, data: &[u8]) -> (r: Result<(), DecodeError>)
        ensures
            match spec_dec_ball_state(data@) {
                Option::Some(d) => {
                    &&& final(self).position_milli == d.0.0
                    &&& final(self).velocity.0 as int == spec_clamp(d.0.1.0 as int)
                    &&& final(self).velocity.1 as int == spec_clamp(d.0.1.1 as int)
                    &&& final(self).properties == (ObjectProperties {
                        position: Position {
                            x: spec_div_trunc(d.0.0.0 as int, 1000) as i64,
                            y: spec_div_trunc(d.0.0.1 as int, 1000) as i64,
                        },
                        ..old(self).properties
                    })
                    &&& final(self).queued_collision == old(self).queued_collision
                    &&& r is Ok
                    &&& spec_ball_bounded(*final(self))
                },
                Option::None => {
                    &&& *final(self) == *old(self)
                    &&& r matches Err(e) && e == DecodeError::Malformed
                },
            },
    {
        assert(data@.skip(0) =~= data@);
        match decode_ball_state(data, 0) {
            None => Err(DecodeError::Malformed),
            Some(((position, velocity), _)) => {
                self.position_milli = position;
                self.velocity = (
                    clamp_milli(velocity.0 as i128),
                    clamp_milli(velocity.1 as i128),
                );
                self.properties.position = Position {
                    x: div_trunc(position.0 as i128, 1000) as i64,
                    y: div_trunc(position.1 as i128, 1000) as i64,
                };
                Ok(())
            },
        }
    }

    /// Send the queued collision to the server, if any, and clear it.
    pub fn client_tick(&mut self) -> (r: Option<Vec<u8>>)
        ensures
            final(self).queued_collision is None,
            final(self).properties == old(self).properties,
            final(self).position_milli == old(self).position_milli,
            final(self).velocity == old(self).velocity,
            match old(self).queued_collision {
                Option::Some(c) => r matches Some(bytes) && bytes@
                    == crate::collision::spec_enc_collision_info(c),
                Option::None => r is None,
            },
    {
        match self.queued_collision {
            Some(c) => {
                self.queued_collision = None;
                let mut out: Vec<u8> = Vec::new();
                encode_collision_info(&mut out, &c);
                Some(out)
            },
            None => None,
        }
    }
}

/// A whole ball travels as its layout data, then its milli-pixel position
/// and velocity. The queued collision is transient and stays off the wire.
pub open spec fn spec_enc_ball(b: BeachBall) -> Seq<u8> {
    crate::object::spec_enc_properties(b.properties) + spec_enc_ball_state(
        b.position_milli,
        b.velocity,
    )
}

/// Decoding clamps the velocity to the range every live ball keeps.
pub open spec fn spec_dec_ball(bytes: Seq<u8>) -> Option<(BeachBall, int)> {
    match crate::object::spec_dec_properties(bytes) {
        None => None,
        Some(dp) => match spec_dec_ball_state(bytes.skip(dp.1)) {
            None => None,
            Some(ds) => Some(
                (
                    BeachBall {
                        properties: dp.0,
                        position_milli: ds.0.0,
                        velocity: (
                            spec_clamp(ds.0.1.0 as int) as i64,
                            spec_clamp(ds.0.1.1 as int) as i64,
                        ),
                        queued_collision: Option::None,
                    },
                    dp.1 + ds.1,
                ),
            ),
        },
    }
}

/// Any ball with a bounded velocity and no transient queued collision comes
/// back from its own encoding unchanged.
pub proof fn lemma_ball_roundtrip(b: BeachBall, rest: Seq<u8>)
    requires
        spec_ball_bounded(b),
        b.queued_collision is None,
    ensures
        spec_dec_ball(spec_enc_ball(b) + rest) == Some((b, spec_enc_ball(b).len() as int)),
{
    let ep = crate::object::spec_enc_properties(b.properties);
    let es = spec_enc_ball_state(b.position_milli, b.velocity);
    crate::codec::lemma_seq_assoc(ep, es, rest);
    crate::object::lemma_properties_roundtrip(b.properties, es + rest);
    crate::codec::lemma_skip_concat(ep, es + rest);
    lemma_ball_state_roundtrip(b.position_milli, b.velocity, rest);
}

pub proof fn lemma_dec_ball_bounds(bytes: Seq<u8>)
    ensures
        spec_dec_ball(bytes) matches Some(d) ==> 1 <= d.1 <= bytes.len(),
{
    crate::object::lemma_dec_properties_bounds(bytes);
    let dp = crate::object::spec_dec_properties(bytes);
    if dp is Some {
        lemma_dec_ball_state_bounds(bytes.skip(dp->Some_0.1));
    }
}

/// Appends the encoding of `b` to `out`.
pub fn encode_ball(out: &mut Vec<u8>, b: &BeachBall)
    ensures
        final(out)@ == old(out)@ + spec_enc_ball(*b),
{
    crate::object::encode_properties(out, &b.properties);
    encode_ball_state(out, b.position_milli, b.velocity);
    assert(out@ =~= old(out)@ + spec_enc_ball(*b));
}

/// Reads one ball starting at `pos`. The decoded ball always keeps the
/// velocity invariant.
pub fn decode_ball(bytes: &[u8], pos: usize) -> (r: Option<(BeachBall, usize)>)
    requires
        pos <= bytes@.len(),
    ensures
        match spec_dec_ball(bytes@.skip(pos as int)) {
            None => r is None,
            Some(d) => r == Some((d.0, (pos + d.1) as usize)) && spec_ball_bounded(d.0),
        },
{
    let total = bytes.len();
    proof {
        crate::object::lemma_dec_properties_bounds(bytes@.skip(pos as int));
    }
    match crate::object::decode_properties(bytes, pos) {
        None => None,
        Some((properties, p1)) => {
            proof {
                crate::codec::lemma_skip_two(bytes@, pos as int, p1 - pos);
            }
            match decode_ball_state(bytes, p1) {
                None => None,
                Some(((position_milli, velocity), p2)) => Some(
                    (
                        BeachBall {
                            properties,
                            position_milli,
                            velocity: (
                                clamp_milli(velocity.0 as i128),
                                clamp_milli(velocity.1 as i128),
                            ),
                            queued_collision: None,
                        },
                        p2,
                    ),
                ),
            }
        },
    }
}

/// Saturating narrowing from `i128` to `i64`.
pub fn sat_i64(v: i128) -> (r: i64)
    ensures
        r as int == spec_sat_i64(v as int),
{
    if v > i64::MAX as i128 {
        i64::MAX
    } else if v < i64::MIN as i128 {
        i64::MIN
    } else {
        v as i64
    }
}

/// `0.05` to the power `t`, in milli-units.
pub fn pow05_milli(t: u64) -> (r: u64)
    ensures
        r as int == spec_pow05_milli(t as nat),
{
    let mut p: u64 = 1000;
    let mut i: u64 = 0;
    while i < t
        invariant
            i <= t,
            p as int == spec_pow05_milli(i as nat),
            p <= 1000,
        decreases t - i,
    {
        proof {
            lemma_pow05_range(i as nat);
        }
        p = p * 50 / 1000;
        i = i + 1;
        if p == 0 {
            proof {
                lemma_pow05_zero(i as nat, t as nat);
            }
            return 0;
        }
    }
    p
}

} // verus!
