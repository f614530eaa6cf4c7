//! The impulse-reflection collision model.
//!
//! Velocities are fixed-point numbers in thousandths of a pixel per tick
//! (milli-units): the value `1000` is one pixel per tick. A body is static
//! when it has no velocity; static bodies never move. All produced velocity
//! components are clamped to `[-MAX_SPEED_MILLI, MAX_SPEED_MILLI]` to bound
//! simulation blow-up.

use vstd::prelude::*;

use crate::codec::decode_bool;
use crate::codec::decode_i64;
use crate::codec::encode_bool;
use crate::codec::encode_i64;
use crate::codec::lemma_bool_roundtrip;
use crate::codec::lemma_i64_roundtrip;
use crate::codec::spec_dec_bool;
use crate::codec::spec_dec_i64;
use crate::codec::spec_enc_bool;
use crate::codec::spec_enc_i64;
use crate::geometry::Position;
use crate::geometry::decode_position;
use crate::geometry::encode_position;
use crate::geometry::lemma_dec_position_bounds;
use crate::geometry::lemma_position_roundtrip;
use crate::geometry::spec_dec_position;
use crate::geometry::spec_enc_position;

verus! {

/// The largest velocity component the model ever produces, in milli-units
/// (five pixels per tick).
pub const MAX_SPEED_MILLI: i64 = 5000;

/// Centre distances are clamped to this many pixels per axis before the
/// model squares them, so that squares stay representable. Bodies further
/// apart than this cannot overlap any hitbox the world uses.
pub const DELTA_LIMIT: i64 = 2147483648;

/// What one body contributes to a collision: where its centre is, how it
/// moves (`None` marks a static, immovable body), and whether it is a
/// player. The player flag is a tag, not a physical property; it only
/// selects the forceful variant of the response.
#[derive(Clone, Copy, Debug)]
pub struct CollisionInfo {
    pub center: Position,
    pub velocity: Option<(i64, i64)>,
    pub is_player: bool,
}

/// Both velocity components, if any, lie within the clamp range.
pub open spec fn spec_velocity_bounded(info: CollisionInfo) -> bool {
    match info.velocity {
        Option::Some(v) => {
            &&& -MAX_SPEED_MILLI <= v.0 <= MAX_SPEED_MILLI
            &&& -MAX_SPEED_MILLI <= v.1 <= MAX_SPEED_MILLI
        },
        Option::None => true,
    }
}

/// Division that truncates toward zero, for a positive divisor.
pub open spec fn spec_div_trunc(a: int, b: int) -> int {
    if a >= 0 {
        a / b
    } else {
        -((-a) / b)
    }
}

/// A value clamped to the velocity range.
pub open spec fn spec_clamp(v: int) -> int {
    if v > MAX_SPEED_MILLI as int {
        MAX_SPEED_MILLI as int
    } else if v < -MAX_SPEED_MILLI as int {
        -MAX_SPEED_MILLI as int
    } else {
        v
    }
}

/// A value clamped to `[-DELTA_LIMIT, DELTA_LIMIT]`.
pub open spec fn spec_clamp_delta(v: int) -> int {
    if v > DELTA_LIMIT as int {
        DELTA_LIMIT as int
    } else if v < -DELTA_LIMIT as int {
        -DELTA_LIMIT as int
    } else {
        v
    }
}

/// The clamped centre-to-centre offset from `a` to `b`, per axis.
pub open spec fn spec_delta(a: CollisionInfo, b: CollisionInfo) -> (int, int) {
    (
        spec_clamp_delta(b.center.x - a.center.x),
        spec_clamp_delta(b.center.y - a.center.y),
    )
}

/// The integer square root: the largest `r` with `r * r <= n`.
pub open spec fn spec_isqrt(n: nat) -> nat
    decreases n,
{
    if n == 0 {
        0
    } else {
        let r = spec_isqrt((n - 1) as nat);
        if (r + 1) * (r + 1) <= n {
            r + 1
        } else {
            r
        }
    }
}

pub proof fn lemma_isqrt_bracket(n: nat)
    ensures
        spec_isqrt(n) * spec_isqrt(n) <= n,
        n < (spec_isqrt(n) + 1) * (spec_isqrt(n) + 1),
    decreases n,
{
    if n > 0 {
        lemma_isqrt_bracket((n - 1) as nat);
        let r = spec_isqrt((n - 1) as nat);
        assert(spec_isqrt(n) == if (r + 1) * (r + 1) <= n { r + 1 } else { r });
        if (r + 1) * (r + 1) <= n {
            assert(spec_isqrt(n) == r + 1);
            assert(n <= (r + 1) * (r + 1));
            assert(n < ((r + 1) + 1) * ((r + 1) + 1)) by (nonlinear_arith)
                requires
                    n <= (r + 1) * (r + 1),
            ;
        } else {
            assert(spec_isqrt(n) == r);
        }
    } else {
        assert(n == 0);
        assert(spec_isqrt(n) == 0);
        assert(spec_isqrt(n) * spec_isqrt(n) <= n) by (nonlinear_arith)
            requires
                spec_isqrt(n) == 0,
                n == 0,
        ;
        assert(n < (spec_isqrt(n) + 1) * (spec_isqrt(n) + 1)) by (nonlinear_arith)
            requires
                spec_isqrt(n) == 0,
                n == 0,
        ;
    }
}

/// Two brackets around the same value name the same root.
pub proof fn lemma_isqrt_unique(n: nat, a: nat, b: nat)
    requires
        a * a <= n < (a + 1) * (a + 1),
        b * b <= n < (b + 1) * (b + 1),
    ensures
        a == b,
{
    if a < b {
        assert((a + 1) * (a + 1) <= b * b) by (nonlinear_arith)
            requires
                a + 1 <= b,
        ;
    }
    if b < a {
        assert((b + 1) * (b + 1) <= a * a) by (nonlinear_arith)
            requires
                b + 1 <= a,
        ;
    }
}

/// The new velocity of `a` in a collision with `b`, before any extra
/// impulse.
///
/// A static `a` does not move. Against a static `b`, the velocity reflects
/// off the line between the centres: `v - 2 (v.d) d / |d|^2`. Against a
/// dynamic `b`, `a` is pushed away from `b` with a strength that falls off
/// with distance: `v - 8000 d / |d|^2` in milli-units, an approximation
/// chosen for stability rather than physical accuracy. Coincident centres
/// give no direction to act along, so the velocity only gets clamped.
pub open spec fn spec_apply(a: CollisionInfo, b: CollisionInfo) -> (int, int) {
    match a.velocity {
        Option::None => (0, 0),
        Option::Some(v) => {
            let (dx, dy) = spec_delta(a, b);
            let dist2 = dx * dx + dy * dy;
            if dist2 == 0 {
                (spec_clamp(v.0 as int), spec_clamp(v.1 as int))
            } else if b.velocity is None {
                let dot2 = 2 * (v.0 * dx + v.1 * dy);
                (
                    spec_clamp(v.0 - spec_div_trunc(dot2 * dx, dist2)),
                    spec_clamp(v.1 - spec_div_trunc(dot2 * dy, dist2)),
                )
            } else {
                (
                    spec_clamp(v.0 - spec_div_trunc(8000 * dx, dist2)),
                    spec_clamp(v.1 - spec_div_trunc(8000 * dy, dist2)),
                )
            }
        },
    }
}

/// As `spec_apply`, with an extra impulse of strength `force` (in
/// milli-units) away from `b`, clamped again.
pub open spec fn spec_apply_with_force(a: CollisionInfo, b: CollisionInfo, force: int) -> (
    int,
    int,
) {
    match a.velocity {
        Option::None => (0, 0),
        Option::Some(v) => {
            let base = spec_apply(a, b);
            let (dx, dy) = spec_delta(a, b);
            let dist2 = dx * dx + dy * dy;
            let len = spec_isqrt(dist2 as nat) as int;
            if len == 0 {
                base
            } else {
                (
                    spec_clamp(base.0 - spec_div_trunc(dx * force, len)),
                    spec_clamp(base.1 - spec_div_trunc(dy * force, len)),
                )
            }
        },
    }
}

/// Truncating division by a positive divisor.
pub fn div_trunc(a: i128, b: i128) -> (r: i128)
    requires
        b > 0,
        a > i128::MIN,
    ensures
        r as int == spec_div_trunc(a as int, b as int),
        (a >= 0 ==> 0 <= r <= a) && (a < 0 ==> a <= r <= 0),
{
    if a >= 0 {
        let q = (a as u128) / (b as u128);
        proof {
            assert((a as u128) / (b as u128) <= a as u128) by (nonlinear_arith)
                requires
                    b as u128 >= 1,
            ;
        }
        q as i128
    } else {
        let m = -a;
        let q = (m as u128) / (b as u128);
        proof {
            assert((m as u128) / (b as u128) <= m as u128) by (nonlinear_arith)
                requires
                    b as u128 >= 1,
            ;
        }
        -(q as i128)
    }
}

/// Clamp to the velocity range and narrow.
pub fn clamp_milli(v: i128) -> (r: i64)
    ensures
        r as int == spec_clamp(v as int),
{
    if v > MAX_SPEED_MILLI as i128 {
        MAX_SPEED_MILLI
    } else if v < -(MAX_SPEED_MILLI as i128) {
        -MAX_SPEED_MILLI
    } else {
        v as i64
    }
}

/// Clamp a centre offset to the representable range.
fn clamp_delta(v: i128) -> (r: i64)
    ensures
        r as int == spec_clamp_delta(v as int),
{
    if v > DELTA_LIMIT as i128 {
        DELTA_LIMIT
    } else if v < -(DELTA_LIMIT as i128) {
        -DELTA_LIMIT
    } else {
        v as i64
    }
}

/// The integer square root of `n`.
fn isqrt(n: u64) -> (r: u64)
    ensures
        r as nat == spec_isqrt(n as nat),
{
    let mut lo: u64 = 0;
    let mut hi: u64 = 4294967296;
    proof {
        lemma_isqrt_bracket(n as nat);
        assert((n as nat) < (4294967296 + 1) * (4294967296 + 1)) by (nonlinear_arith)
            requires
                n <= u64::MAX,
        ;
    }
    while lo < hi
        invariant
            lo <= hi <= 4294967296,
            (lo as nat) * (lo as nat) <= n as nat,
            (n as nat) < ((hi + 1) as nat) * ((hi + 1) as nat),
        decreases hi - lo,
    {
        let mid = lo + (hi - lo + 1) / 2;
        proof {
            assert((mid as u128) * (mid as u128) <= 4294967296u128 * 4294967296u128)
                by (nonlinear_arith)
                requires
                    mid as u128 <= 4294967296u128,
            ;
        }
        let sq = (mid as u128) * (mid as u128);
        if sq <= n as u128 {
            lo = mid;
        } else {
            hi = mid - 1;
        }
    }
    proof {
        lemma_isqrt_bracket(n as nat);
        lemma_isqrt_unique(n as nat, lo as nat, spec_isqrt(n as nat));
    }
    lo
}

impl CollisionInfo {
    /// A moving, non-player body. The velocity is clamped on construction,
    /// so every `CollisionInfo` carries a bounded velocity.
    pub fn new_dynamic(center: Position, velocity: (i64, i64)) -> (r: CollisionInfo)
        ensures
            r.center == center,
            r.is_player == false,
            r.velocity == Option::Some(
                (spec_clamp(velocity.0 as int) as i64, spec_clamp(velocity.1 as int) as i64),
            ),
            spec_velocity_bounded(r),
    {
        CollisionInfo {
            center,
            velocity: Some((clamp_milli(velocity.0 as i128), clamp_milli(velocity.1 as i128))),
            is_player: false,
        }
    }

    /// A static, immovable body.
    pub fn new_static(center: Position) -> (r: CollisionInfo)
        ensures
            r.center == center,
            r.velocity is None,
            r.is_player == false,
            spec_velocity_bounded(r),
    {
        CollisionInfo { center, velocity: None, is_player: false }
    }

    /// A moving player body. The velocity is clamped on construction.
    pub fn new_player(center: Position, velocity: (i64, i64)) -> (r: CollisionInfo)
        ensures
            r.center == center,
            r.is_player == true,
            r.velocity == Option::Some(
                (spec_clamp(velocity.0 as int) as i64, spec_clamp(velocity.1 as int) as i64),
            ),
            spec_velocity_bounded(r),
    {
        CollisionInfo {
            center,
            velocity: Some((clamp_milli(velocity.0 as i128), clamp_milli(velocity.1 as i128))),
            is_player: true,
        }
    }

    /// Whether this body is a player.
    pub fn is_player(&self) -> (r: bool)
        ensures
            r == self.is_player,
    {
        self.is_player
    }

    /// Whether this body is static: it has no velocity.
    pub fn is_static(&self) -> (r: bool)
        ensures
            r == (self.velocity is None),
    {
        self.velocity.is_none()
    }

    /// The velocity, with `(0, 0)` for a static body.
    pub fn velocity(&self) -> (r: (i64, i64))
        ensures
            r == match self.velocity {
                Option::Some(v) => v,
                Option::None => (0i64, 0i64),
            },
    {
        match self.velocity {
            Some(v) => v,
            None => (0, 0),
        }
    }

    /// The collision response of `self` against `other`.
    ///
    /// A static `self` always comes out at rest, whatever `other` is, and
    /// both components of the result always lie within
    /// `[-MAX_SPEED_MILLI, MAX_SPEED_MILLI]`.
    pub fn apply(self, other: CollisionInfo) -> (r: (i64, i64))
        requires
            spec_velocity_bounded(self),
        ensures
            (r.0 as int, r.1 as int) == spec_apply(self, other),
            self.velocity is None ==> r == (0i64, 0i64),
            -MAX_SPEED_MILLI <= r.0 <= MAX_SPEED_MILLI,
            -MAX_SPEED_MILLI <= r.1 <= MAX_SPEED_MILLI,
    {
        let v = match self.velocity {
            None => {
                return (0, 0);
            },
            Some(v) => v,
        };
        let dx = clamp_delta(other.center.x as i128 - self.center.x as i128);
        let dy = clamp_delta(other.center.y as i128 - self.center.y as i128);
        let dxl = dx as i128;
        let dyl = dy as i128;
        proof {
            assert(0 <= dxl * dxl <= 4611686018427387904i128) by (nonlinear_arith)
                requires
                    -2147483648i128 <= dxl <= 2147483648i128,
            ;
            assert(0 <= dyl * dyl <= 4611686018427387904i128) by (nonlinear_arith)
                requires
                    -2147483648i128 <= dyl <= 2147483648i128,
            ;
        }
        let dist2 = dxl * dxl + dyl * dyl;
        if dist2 == 0 {
            (clamp_milli(v.0 as i128), clamp_milli(v.1 as i128))
        } else if other.velocity.is_none() {
            proof {
                assert(v.0 as i128 * dxl <= 5000 * DELTA_LIMIT as i128 && v.0 as i128 * dxl >= -5000
                    * DELTA_LIMIT as i128) by (nonlinear_arith)
                    requires
                        -5000 <= v.0 as i128 <= 5000,
                        -DELTA_LIMIT as i128 <= dxl <= DELTA_LIMIT as i128,
                ;
                assert(v.1 as i128 * dyl <= 5000 * DELTA_LIMIT as i128 && v.1 as i128 * dyl >= -5000
                    * DELTA_LIMIT as i128) by (nonlinear_arith)
                    requires
                        -5000 <= v.1 as i128 <= 5000,
                        -DELTA_LIMIT as i128 <= dyl <= DELTA_LIMIT as i128,
                ;
            }
            let dot2 = 2 * (v.0 as i128 * dxl + v.1 as i128 * dyl);
            proof {
                let bound: int = 4 * 5000 * DELTA_LIMIT as int;
                assert(dot2 * dxl <= bound * DELTA_LIMIT as int && dot2 * dxl >= -bound
                    * DELTA_LIMIT as int) by (nonlinear_arith)
                    requires
                        -bound <= dot2 as int <= bound,
                        -DELTA_LIMIT as int <= dxl as int <= DELTA_LIMIT as int,
                ;
                assert(dot2 * dyl <= bound * DELTA_LIMIT as int && dot2 * dyl >= -bound
                    * DELTA_LIMIT as int) by (nonlinear_arith)
                    requires
                        -bound <= dot2 as int <= bound,
                        -DELTA_LIMIT as int <= dyl as int <= DELTA_LIMIT as int,
                ;
            }
            let qx = div_trunc(dot2 * dxl, dist2);
            let qy = div_trunc(dot2 * dyl, dist2);
            (clamp_milli(v.0 as i128 - qx), clamp_milli(v.1 as i128 - qy))
        } else {
            let qx = div_trunc(8000 * dxl, dist2);
            let qy = div_trunc(8000 * dyl, dist2);
            (clamp_milli(v.0 as i128 - qx), clamp_milli(v.1 as i128 - qy))
        }
    }

    /// The collision response with an extra impulse of strength `force`
    /// (milli-units) away from `other`; used when the colliding body is a
    /// moving player, to make player-pushed objects more responsive.
    ///
    /// The same guarantees hold as for `apply`: a static `self` stays at
    /// rest and the result is clamped.
    pub fn apply_with_force(self, other: CollisionInfo, force: i64) -> (r: (i64, i64))
        requires
            spec_velocity_bounded(self),
            0 <= force <= 1000000,
        ensures
            (r.0 as int, r.1 as int) == spec_apply_with_force(self, other, force as int),
            self.velocity is None ==> r == (0i64, 0i64),
            -MAX_SPEED_MILLI <= r.0 <= MAX_SPEED_MILLI,
            -MAX_SPEED_MILLI <= r.1 <= MAX_SPEED_MILLI,
    {
        let base = self.apply(other);
        if self.velocity.is_none() {
            return (0, 0);
        }
        let dx = clamp_delta(other.center.x as i128 - self.center.x as i128);
        let dy = clamp_delta(other.center.y as i128 - self.center.y as i128);
        let dxl = dx as i128;
        let dyl = dy as i128;
        proof {
            assert(0 <= dxl * dxl <= 4611686018427387904i128) by (nonlinear_arith)
                requires
                    -2147483648i128 <= dxl <= 2147483648i128,
            ;
            assert(0 <= dyl * dyl <= 4611686018427387904i128) by (nonlinear_arith)
                requires
                    -2147483648i128 <= dyl <= 2147483648i128,
            ;
        }
        let dist2 = dxl * dxl + dyl * dyl;
        assert(0 <= dist2 <= u64::MAX as i128);
        let len = isqrt(dist2 as u64);
        if len == 0 {
            base
        } else {
            proof {
                assert(dxl * force as i128 <= DELTA_LIMIT as i128 * 1000000 && dxl * force as i128
                    >= -(DELTA_LIMIT as i128) * 1000000) by (nonlinear_arith)
                    requires
                        -DELTA_LIMIT as i128 <= dxl <= DELTA_LIMIT as i128,
                        0 <= force as i128 <= 1000000,
                ;
                assert(dyl * force as i128 <= DELTA_LIMIT as i128 * 1000000 && dyl * force as i128
                    >= -(DELTA_LIMIT as i128) * 1000000) by (nonlinear_arith)
                    requires
                        -DELTA_LIMIT as i128 <= dyl <= DELTA_LIMIT as i128,
                        0 <= force as i128 <= 1000000,
                ;
            }
            let ix = div_trunc(dxl * force as i128, len as i128);
            let iy = div_trunc(dyl * force as i128, len as i128);
            (clamp_milli(base.0 as i128 - ix), clamp_milli(base.1 as i128 - iy))
        }
    }
}

/// A collision record travels as centre, optional velocity and player flag.
pub open spec fn spec_enc_opt_velocity(v: Option<(i64, i64)>) -> Seq<u8> {
    match v {
        Option::None => seq![0u8],
        Option::Some(v) => seq![1u8] + spec_enc_i64(v.0 as int) + spec_enc_i64(v.1 as int),
    }
}

pub open spec fn spec_dec_opt_velocity(bytes: Seq<u8>) -> Option<(Option<(i64, i64)>, int)> {
    if bytes.len() == 0 {
        None
    } else if bytes[0] == 0 {
        Some((Option::None, 1))
    } else if bytes[0] == 1 {
        match spec_dec_i64(bytes.skip(1)) {
            None => None,
            Some(dx) => match spec_dec_i64(bytes.skip(1 + dx.1)) {
                None => None,
                Some(dy) => Some((Option::Some((dx.0, dy.0)), 1 + dx.1 + dy.1)),
            },
        }
    } else {
        None
    }
}

pub proof fn lemma_opt_velocity_roundtrip(v: Option<(i64, i64)>, rest: Seq<u8>)
    ensures
        spec_dec_opt_velocity(spec_enc_opt_velocity(v) + rest) == Some(
            (v, spec_enc_opt_velocity(v).len() as int),
        ),
{
    let whole = spec_enc_opt_velocity(v) + rest;
    match v {
        Option::None => {
            assert(whole[0] == 0u8);
        },
        Option::Some(vv) => {
            let ex = spec_enc_i64(vv.0 as int);
            let ey = spec_enc_i64(vv.1 as int);
            assert(whole[0] == 1u8);
            assert(whole.skip(1) =~= ex + (ey + rest));
            lemma_i64_roundtrip(vv.0, ey + rest);
            assert(whole.skip((1 + ex.len()) as int) =~= ey + rest);
            lemma_i64_roundtrip(vv.1, rest);
        },
    }
}

pub proof fn lemma_dec_opt_velocity_bounds(bytes: Seq<u8>)
    ensures
        spec_dec_opt_velocity(bytes) matches Some(d) ==> 1 <= d.1 <= bytes.len(),
{
    if bytes.len() > 0 && bytes[0] == 1 {
        crate::codec::lemma_dec_i64_bounds(bytes.skip(1));
        let dx = spec_dec_i64(bytes.skip(1));
        if dx is Some {
            crate::codec::lemma_dec_i64_bounds(bytes.skip(1 + dx->Some_0.1));
        }
    }
}

/// Appends the encoding of `v` to `out`.
pub fn encode_opt_velocity(out: &mut Vec<u8>, v: &Option<(i64, i64)>)
    ensures
        final(out)@ == old(out)@ + spec_enc_opt_velocity(*v),
{
    match v {
        Option::None => {
            out.push(0);
            assert(out@ =~= old(out)@ + spec_enc_opt_velocity(*v));
        },
        Option::Some(vv) => {
            out.push(1);
            encode_i64(out, vv.0);
            encode_i64(out, vv.1);
            assert(out@ =~= old(out)@ + spec_enc_opt_velocity(*v));
        },
    }
}

/// Reads one optional velocity starting at `pos`.
pub fn decode_opt_velocity(bytes: &[u8], pos: usize) -> (r: Option<(Option<(i64, i64)>, usize)>)
    requires
        pos <= bytes@.len(),
    ensures
        match spec_dec_opt_velocity(bytes@.skip(pos as int)) {
            None => r is None,
            Some(d) => r == Some((d.0, (pos + d.1) as usize)),
        },
{
    let total = bytes.len();
    if pos >= total {
        return None;
    }
    let flag = *vstd::slice::slice_index_get(bytes, pos);
    if flag == 0 {
        Some((None, pos + 1))
    } else if flag == 1 {
        assert(bytes@.skip(pos as int).skip(1) =~= bytes@.skip(pos as int + 1));
        proof {
            crate::codec::lemma_dec_i64_bounds(bytes@.skip(pos as int + 1));
        }
        match decode_i64(bytes, pos + 1) {
            None => None,
            Some((x, p1)) => {
                assert(bytes@.skip(pos as int).skip(p1 - pos) =~= bytes@.skip(p1 as int));
                proof {
                    crate::codec::lemma_dec_i64_bounds(bytes@.skip(p1 as int));
                }
                match decode_i64(bytes, p1) {
                    None => None,
                    Some((y, p2)) => Some((Some((x, y)), p2)),
                }
            },
        }
    } else {
        None
    }
}

pub open spec fn spec_enc_collision_info(c: CollisionInfo) -> Seq<u8> {
    spec_enc_position(c.center) + spec_enc_opt_velocity(c.velocity) + spec_enc_bool(c.is_player)
}

pub open spec fn spec_dec_collision_info(bytes: Seq<u8>) -> Option<(CollisionInfo, int)> {
    match spec_dec_position(bytes) {
        None => None,
        Some(dc) => match spec_dec_opt_velocity(bytes.skip(dc.1)) {
            None => None,
            Some(dv) => match spec_dec_bool(bytes.skip(dc.1 + dv.1)) {
                None => None,
                Some(dp) => Some(
                    (
                        CollisionInfo { center: dc.0, velocity: dv.0, is_player: dp.0 },
                        dc.1 + dv.1 + dp.1,
                    ),
                ),
            },
        },
    }
}

pub proof fn lemma_collision_info_roundtrip(c: CollisionInfo, rest: Seq<u8>)
    ensures
        spec_dec_collision_info(spec_enc_collision_info(c) + rest) == Some(
            (c, spec_enc_collision_info(c).len() as int),
        ),
{
    let e1 = spec_enc_position(c.center);
    let e2 = spec_enc_opt_velocity(c.velocity);
    let e3 = spec_enc_bool(c.is_player);
    let whole = spec_enc_collision_info(c) + rest;
    assert(whole =~= e1 + (e2 + (e3 + rest)));
    lemma_position_roundtrip(c.center, e2 + (e3 + rest));
    assert(whole.skip(e1.len() as int) =~= e2 + (e3 + rest));
    lemma_opt_velocity_roundtrip(c.velocity, e3 + rest);
    assert(whole.skip((e1.len() + e2.len()) as int) =~= e3 + rest);
    lemma_bool_roundtrip(c.is_player, rest);
}

pub proof fn lemma_dec_collision_info_bounds(bytes: Seq<u8>)
    ensures
        spec_dec_collision_info(bytes) matches Some(d) ==> 1 <= d.1 <= bytes.len(),
{
    lemma_dec_position_bounds(bytes);
    let dc = spec_dec_position(bytes);
    if dc is Some {
        let l1 = dc->Some_0.1;
        lemma_dec_opt_velocity_bounds(bytes.skip(l1));
        let dv = spec_dec_opt_velocity(bytes.skip(l1));
        if dv is Some {
            crate::codec::lemma_dec_bool_bounds(bytes.skip(l1 + dv->Some_0.1));
        }
    }
}

/// Appends the encoding of `c` to `out`.
pub fn encode_collision_info(out: &mut Vec<u8>, c: &CollisionInfo)
    ensures
        final(out)@ == old(out)@ + spec_enc_collision_info(*c),
{
    encode_position(out, &c.center);
    encode_opt_velocity(out, &c.velocity);
    encode_bool(out, c.is_player);
    assert(out@ =~= old(out)@ + spec_enc_collision_info(*c));
}

/// Reads one collision record starting at `pos`.
pub fn decode_collision_info(bytes: &[u8], pos: usize) -> (r: Option<(CollisionInfo, usize)>)
    requires
        pos <= bytes@.len(),
    ensures
        match spec_dec_collision_info(bytes@.skip(pos as int)) {
            None => r is None,
            Some(d) => r == Some((d.0, (pos + d.1) as usize)),
        },
{
    let total = bytes.len();
    proof {
        lemma_dec_position_bounds(bytes@.skip(pos as int));
    }
    match decode_position(bytes, pos) {
        None => None,
        Some((center, p1)) => {
            assert(bytes@.skip(pos as int).skip(p1 - pos) =~= bytes@.skip(p1 as int));
            proof {
                lemma_dec_opt_velocity_bounds(bytes@.skip(p1 as int));
            }
            match decode_opt_velocity(bytes, p1) {
                None => None,
                Some((velocity, p2)) => {
                    assert(bytes@.skip(pos as int).skip(p2 - pos) =~= bytes@.skip(p2 as int));
                    match decode_bool(bytes, p2) {
                        None => None,
                        Some((is_player, p3)) => Some(
                            (CollisionInfo { center, velocity, is_player }, p3),
                        ),
                    }
                },
            }
        },
    }
}

} // verus!
