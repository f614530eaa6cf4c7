//! The network-object registry: a mapping from object kinds to wire-stable
//! kind ids and back, populated once at startup, and the boxed object value
//! that carries its kind tag next to its payload.
//!
//! The registry is what lets the world store and transmit a heterogeneous
//! set of objects: serialization writes `(kind, payload)`, and decoding
//! reads the kind first and dispatches to that kind's decoder. A kind with
//! no registered decoder makes that one object undecodable without harming
//! anything around it.

use vstd::prelude::*;

use crate::beach_ball::BeachBall;
use crate::beach_ball::decode_ball;
use crate::beach_ball::encode_ball;
use crate::beach_ball::lemma_ball_roundtrip;
use crate::beach_ball::spec_ball_bounded;
use crate::beach_ball::spec_ball_collision_info;
use crate::beach_ball::spec_ball_ticked;
use crate::beach_ball::spec_dec_ball;
use crate::beach_ball::spec_enc_ball;
use crate::codec::DecodeError;
use crate::codec::decode_bytes;
use crate::codec::decode_varint_u64;
use crate::codec::encode_bytes;
use crate::codec::encode_varint_u64;
use crate::codec::lemma_bytes_roundtrip;
use crate::codec::lemma_dec_bytes_bounds;
use crate::codec::lemma_u64_roundtrip;
use crate::codec::spec_dec_bytes;
use crate::codec::spec_dec_u64;
use crate::codec::spec_enc_bytes;
use crate::codec::spec_enc_varint;
use crate::collision::CollisionInfo;
use crate::geometry::Rect;
use crate::ids::NetworkObjectId;
use crate::ids::NetworkObjectIdAllocator;
use crate::object::ObjectProperties;
use crate::object::spec_world_hitbox;

verus! {

/// The compile-time kinds of network objects this world knows.
#[derive(Clone, Copy, Debug, PartialEq, Eq, Structural)]
pub enum NetworkObjectKind {
    BeachBall,
}

/// One live network object of some kind.
#[derive(Clone, Copy, Debug)]
pub enum NetworkObjectValue {
    BeachBall(BeachBall),
}

/// The kind a value belongs to.
pub open spec fn spec_kind_of(v: NetworkObjectValue) -> NetworkObjectKind {
    match v {
        NetworkObjectValue::BeachBall(_) => NetworkObjectKind::BeachBall,
    }
}

/// The value's velocity bounds, where its kind has any.
pub open spec fn spec_value_bounded(v: NetworkObjectValue) -> bool {
    match v {
        NetworkObjectValue::BeachBall(b) => spec_ball_bounded(b),
    }
}

/// Whether the value still carries transient, never-serialized state.
pub open spec fn spec_value_transient_free(v: NetworkObjectValue) -> bool {
    match v {
        NetworkObjectValue::BeachBall(b) => b.queued_collision is None,
    }
}

/// The kind-to-id mapping, filled once at startup before any network
/// traffic is processed.
#[derive(Clone, Debug)]
pub struct NetworkObjectRegistry {
    pub entries: Vec<(NetworkObjectId, NetworkObjectKind)>,
    pub allocator: NetworkObjectIdAllocator,
}

/// The kind registered under `id`, if any.
pub open spec fn spec_lookup_kind(
    entries: Seq<(NetworkObjectId, NetworkObjectKind)>,
    id: NetworkObjectId,
) -> Option<NetworkObjectKind>
    decreases entries.len(),
{
    if entries.len() == 0 {
        Option::None
    } else if entries[0].0 == id {
        Option::Some(entries[0].1)
    } else {
        spec_lookup_kind(entries.skip(1), id)
    }
}

/// The id `kind` was registered under, if any.
pub open spec fn spec_lookup_id(
    entries: Seq<(NetworkObjectId, NetworkObjectKind)>,
    kind: NetworkObjectKind,
) -> Option<NetworkObjectId>
    decreases entries.len(),
{
    if entries.len() == 0 {
        Option::None
    } else if entries[0].1 == kind {
        Option::Some(entries[0].0)
    } else {
        spec_lookup_id(entries.skip(1), kind)
    }
}

/// Every registered id lies below the allocator's next value, so fresh ids
/// never collide with registered ones.
pub open spec fn spec_registry_wf(r: NetworkObjectRegistry) -> bool {
    forall|i: int|
        0 <= i < r.entries@.len() ==> #[trigger] r.entries@[i].0.0 < r.allocator.next
}

impl NetworkObjectRegistry {
    /// An empty registry.
    pub fn new() -> (r: NetworkObjectRegistry)
        ensures
            r.entries@.len() == 0,
            r.allocator.next == 0,
            spec_registry_wf(r),
    {
        NetworkObjectRegistry {
            entries: Vec::new(),
            allocator: NetworkObjectIdAllocator::new(),
        }
    }
}

/// Register a kind: assign it a fresh wire id and remember the mapping.
/// Registering the same kind twice is a caller error and ruled out here.
pub fn register_network_object(registry: &mut NetworkObjectRegistry, kind: NetworkObjectKind) -> (r:
    NetworkObjectId)
    requires
        spec_lookup_id(old(registry).entries@, kind) is None,
        spec_registry_wf(*old(registry)),
        old(registry).allocator.next < u64::MAX,
    ensures
        final(registry).entries@ == old(registry).entries@.push((r, kind)),
        r.0 == old(registry).allocator.next,
        final(registry).allocator.next == old(registry).allocator.next + 1,
        spec_registry_wf(*final(registry)),
        spec_lookup_kind(final(registry).entries@, r) == Option::Some(kind),
        spec_lookup_id(final(registry).entries@, kind) == Option::Some(r),
    {
    let id = NetworkObjectId::new(&mut registry.allocator);
    registry.entries.push((id, kind));
    proof {
        let entries = registry.entries@;
        lemma_lookup_pushed(old(registry).entries@, id, kind);
    }
    id
}

/// After appending a fresh id and an unregistered kind, both lookups find
/// the new entry.
proof fn lemma_lookup_pushed(
    entries: Seq<(NetworkObjectId, NetworkObjectKind)>,
    id: NetworkObjectId,
    kind: NetworkObjectKind,
)
    requires
        spec_lookup_id(entries, kind) is None,
        forall|i: int| 0 <= i < entries.len() ==> #[trigger] entries[i].0 != id,
    ensures
        spec_lookup_kind(entries.push((id, kind)), id) == Option::Some(kind),
        spec_lookup_id(entries.push((id, kind)), kind) == Option::Some(id),
    decreases entries.len(),
{
    let snoc = entries.push((id, kind));
    if entries.len() == 0 {
        assert(snoc[0] == (id, kind));
    } else {
        assert(snoc[0] == entries[0]);
        assert(snoc.skip(1) =~= entries.skip(1).push((id, kind)));
        lemma_lookup_pushed(entries.skip(1), id, kind);
    }
}

/// The wire id a kind was registered under, if any.
pub fn get_network_object_id(registry: &NetworkObjectRegistry, kind: NetworkObjectKind) -> (r:
    Option<NetworkObjectId>)
    ensures
        r == spec_lookup_id(registry.entries@, kind),
{
    let mut i: usize = 0;
    assert(registry.entries@.skip(0) =~= registry.entries@);
    while i < registry.entries.len()
        invariant
            i <= registry.entries@.len(),
            spec_lookup_id(registry.entries@.skip(i as int), kind) == spec_lookup_id(
                registry.entries@,
                kind,
            ),
        decreases registry.entries@.len() - i,
    {
        let entry = registry.entries[i];
        assert(registry.entries@.skip(i as int)[0] == registry.entries@[i as int]);
        assert(registry.entries@.skip(i as int).skip(1) =~= registry.entries@.skip(i + 1));
        if matches_kind(entry.1, kind) {
            return Some(entry.0);
        }
        i = i + 1;
    }
    assert(registry.entries@.skip(i as int) =~= Seq::<
        (NetworkObjectId, NetworkObjectKind),
    >::empty());
    None
}

/// The kind registered under a wire id, if any.
pub fn get_network_object_kind(registry: &NetworkObjectRegistry, id: NetworkObjectId) -> (r: Option<
    NetworkObjectKind,
>)
    ensures
        r == spec_lookup_kind(registry.entries@, id),
{
    let mut i: usize = 0;
    assert(registry.entries@.skip(0) =~= registry.entries@);
    while i < registry.entries.len()
        invariant
            i <= registry.entries@.len(),
            spec_lookup_kind(registry.entries@.skip(i as int), id) == spec_lookup_kind(
                registry.entries@,
                id,
            ),
        decreases registry.entries@.len() - i,
    {
        let entry = registry.entries[i];
        assert(registry.entries@.skip(i as int)[0] == registry.entries@[i as int]);
        assert(registry.entries@.skip(i as int).skip(1) =~= registry.entries@.skip(i + 1));
        if entry.0.as_u64() == id.as_u64() {
            assert(entry.0 == id);
            return Some(entry.1);
        }
        assert(entry.0 != id);
        i = i + 1;
    }
    assert(registry.entries@.skip(i as int) =~= Seq::<
        (NetworkObjectId, NetworkObjectKind),
    >::empty());
    None
}

/// Kind equality.
fn matches_kind(a: NetworkObjectKind, b: NetworkObjectKind) -> (r: bool)
    ensures
        r == (a == b),
{
    match (a, b) {
        (NetworkObjectKind::BeachBall, NetworkObjectKind::BeachBall) => true,
    }
}

/// Register every built-in object kind in a fresh registry. Must run before
/// any network traffic is processed.
pub fn setup_network_objects() -> (r: NetworkObjectRegistry)
    ensures
        spec_registry_wf(r),
        spec_lookup_id(r.entries@, NetworkObjectKind::BeachBall) is Some,
{
    let mut registry = NetworkObjectRegistry::new();
    register_network_object(&mut registry, NetworkObjectKind::BeachBall);
    registry
}

/// An owned network object together with its wire-stable kind tag. The tag
/// always matches the value's true kind: it is the only information
/// available at decode time to pick the correct decoder.
#[derive(Clone, Copy, Debug)]
pub struct BoxedNetworkObject {
    pub id: NetworkObjectId,
    pub object: NetworkObjectValue,
}

/// The tag matches the value's kind under this registry.
pub open spec fn spec_boxed_wf(
    entries: Seq<(NetworkObjectId, NetworkObjectKind)>,
    b: BoxedNetworkObject,
) -> bool {
    spec_lookup_kind(entries, b.id) == Option::Some(spec_kind_of(b.object))
}

impl BoxedNetworkObject {
    /// Box a value under its registered kind tag. The value's kind must
    /// have been registered first.
    pub fn new(registry: &NetworkObjectRegistry, object: NetworkObjectValue) -> (r: Option<
        BoxedNetworkObject,
    >)
        ensures
            match spec_lookup_id(registry.entries@, spec_kind_of(object)) {
                Option::Some(id) => r matches Some(b) && b.id == id && b.object == object,
                Option::None => r is None,
            },
    {
        let kind = match &object {
            NetworkObjectValue::BeachBall(_) => NetworkObjectKind::BeachBall,
        };
        match get_network_object_id(registry, kind) {
            Some(id) => Some(BoxedNetworkObject { id, object }),
            None => None,
        }
    }

    /// The kind tag.
    pub fn id(&self) -> (r: NetworkObjectId)
        ensures
            r == self.id,
    {
        self.id
    }

    /// The object's layout data.
    pub fn properties(&self) -> (r: ObjectProperties)
        ensures
            r == spec_object_properties(self.object),
    {
        match &self.object {
            NetworkObjectValue::BeachBall(b) => b.properties,
        }
    }

    /// The object's hitbox in world space, if it has one.
    pub fn hitbox(&self) -> (r: Option<Rect>)
        ensures
            r == spec_world_hitbox(spec_object_properties(self.object)),
    {
        let properties = self.properties();
        properties.hitbox()
    }

    /// The object's collision record for this tick.
    pub fn collision_info(&self) -> (r: CollisionInfo)
        ensures
            r == spec_object_collision_info(self.object),
    {
        match &self.object {
            NetworkObjectValue::BeachBall(b) => b.collision_info(),
        }
    }

    /// Deliver a collision with another body.
    pub fn on_collision(&mut self, collision: CollisionInfo)
        ensures
            final(self).id == old(self).id,
            final(self).object == spec_object_on_collision(old(self).object, collision),
    {
        match &mut self.object {
            NetworkObjectValue::BeachBall(b) => b.on_collision(collision),
        }
    }

    /// Advance the object by `delta_ms` against the collisions detected
    /// this tick.
    pub fn tick(&mut self, delta_ms: u64, collisions: &Vec<CollisionInfo>)
        ensures
            final(self).id == old(self).id,
            final(self).object == spec_object_ticked(old(self).object, delta_ms, collisions@),
    {
        match &mut self.object {
            NetworkObjectValue::BeachBall(b) => b.tick(delta_ms, collisions),
        }
    }

    /// Run the object's own per-tick server work; bytes to broadcast, if
    /// the tick produced an observable change.
    pub fn server_tick(&mut self) -> (r: Option<Vec<u8>>)
        ensures
            final(self).id == old(self).id,
            final(self).object == spec_object_server_ticked(old(self).object),
            match spec_object_server_msg(old(self).object) {
                Option::Some(bytes) => r matches Some(rb) && rb@ == bytes,
                Option::None => r is None,
            },
    {
        match &mut self.object {
            NetworkObjectValue::BeachBall(b) => b.server_tick(),
        }
    }

    /// Route a client's payload to the object; bytes to broadcast if the
    /// object answers.
    pub fn server_message(&mut self, data: &[u8]) -> (r: Result<Option<Vec<u8>>, DecodeError>)
        ensures
            final(self).id == old(self).id,
            match old(self).object {
                NetworkObjectValue::BeachBall(b) => match crate::collision::spec_dec_collision_info(
                    data@,
                ) {
                    Option::Some(d) => {
                        let nb = BeachBall {
                            velocity: (
                                crate::beach_ball::spec_ball_collided(b, d.0).0 as i64,
                                crate::beach_ball::spec_ball_collided(b, d.0).1 as i64,
                            ),
                            ..b
                        };
                        &&& final(self).object == NetworkObjectValue::BeachBall(nb)
                        &&& r matches Ok(msg) && msg matches Some(bytes) && bytes@
                            == crate::beach_ball::spec_enc_ball_state(
                            nb.position_milli,
                            nb.velocity,
                        )
                    },
                    Option::None => {
                        &&& final(self).object == old(self).object
                        &&& r matches Err(e) && e == DecodeError::Malformed
                    },
                },
            },
    {
        match &mut self.object {
            NetworkObjectValue::BeachBall(b) => b.server_message(data),
        }
    }

    /// Fold a server broadcast into the object.
    pub fn client_message(&mut self, data: &[u8]) -> (r: Result<(), DecodeError>)
        ensures
            final(self).id == old(self).id,
            match old(self).object {
                NetworkObjectValue::BeachBall(b) => match crate::beach_ball::spec_dec_ball_state(
                    data@,
                ) {
                    Option::Some(d) => {
                        &&& final(self).object matches NetworkObjectValue::BeachBall(nb)
                            && nb.position_milli == d.0.0 && nb.velocity.0 as int
                            == crate::collision::spec_clamp(d.0.1.0 as int) && nb.velocity.1 as int
                            == crate::collision::spec_clamp(d.0.1.1 as int)
                            && nb.queued_collision == b.queued_collision
                        &&& r is Ok
                    },
                    Option::None => {
                        &&& final(self).object == old(self).object
                        &&& r matches Err(e) && e == DecodeError::Malformed
                    },
                },
            },
    {
        match &mut self.object {
            NetworkObjectValue::BeachBall(b) => b.client_message(data),
        }
    }
}

/// The layout data of a value.
pub open spec fn spec_object_properties(v: NetworkObjectValue) -> ObjectProperties {
    match v {
        NetworkObjectValue::BeachBall(b) => b.properties,
    }
}

/// The collision record of a value.
pub open spec fn spec_object_collision_info(v: NetworkObjectValue) -> CollisionInfo {
    match v {
        NetworkObjectValue::BeachBall(b) => spec_ball_collision_info(b),
    }
}

/// A value after a collision is delivered to it.
pub open spec fn spec_object_on_collision(
    v: NetworkObjectValue,
    collision: CollisionInfo,
) -> NetworkObjectValue {
    match v {
        NetworkObjectValue::BeachBall(b) => NetworkObjectValue::BeachBall(
            BeachBall { queued_collision: Option::Some(collision), ..b },
        ),
    }
}

/// A value after its own per-tick server work.
pub open spec fn spec_object_server_ticked(v: NetworkObjectValue) -> NetworkObjectValue {
    match v {
        NetworkObjectValue::BeachBall(b) => NetworkObjectValue::BeachBall(
            crate::beach_ball::spec_ball_server_ticked(b),
        ),
    }
}

/// What a value broadcasts after its server work, if anything.
pub open spec fn spec_object_server_msg(v: NetworkObjectValue) -> Option<Seq<u8>> {
    match v {
        NetworkObjectValue::BeachBall(b) => crate::beach_ball::spec_ball_server_msg(b),
    }
}

/// A value after one tick.
pub open spec fn spec_object_ticked(
    v: NetworkObjectValue,
    delta_ms: u64,
    collisions: Seq<CollisionInfo>,
) -> NetworkObjectValue {
    match v {
        NetworkObjectValue::BeachBall(b) => NetworkObjectValue::BeachBall(
            spec_ball_ticked(b, delta_ms, collisions),
        ),
    }
}

/// A value's payload bytes, by its kind's own codec.
pub open spec fn spec_enc_value(v: NetworkObjectValue) -> Seq<u8> {
    match v {
        NetworkObjectValue::BeachBall(b) => spec_enc_ball(b),
    }
}

/// A boxed object travels as its kind tag, then its payload bytes with a
/// length prefix, so a reader that does not know the kind can still skip
/// the object.
pub open spec fn spec_enc_boxed(b: BoxedNetworkObject) -> Seq<u8> {
    spec_enc_varint(b.id.0 as nat) + spec_enc_bytes(spec_enc_value(b.object))
}

/// Reads one boxed object. `Ok` carries the decoded object; `Err` names
/// what went wrong with this one object (an unregistered kind tag, or a
/// payload its kind's decoder rejects) while the consumed length still
/// tells the caller where the next item starts.
pub open spec fn spec_dec_boxed(
    entries: Seq<(NetworkObjectId, NetworkObjectKind)>,
    bytes: Seq<u8>,
) -> Option<(Result<BoxedNetworkObject, DecodeError>, int)> {
    match spec_dec_u64(bytes) {
        None => None,
        Some(dk) => match spec_dec_bytes(bytes.skip(dk.1)) {
            None => None,
            Some(dp) => {
                let total = dk.1 + dp.1;
                match spec_lookup_kind(entries, NetworkObjectId(dk.0)) {
                    Option::None => Some((Err(DecodeError::UnknownKind), total)),
                    Option::Some(NetworkObjectKind::BeachBall) => match spec_dec_ball(dp.0) {
                        None => Some((Err(DecodeError::Malformed), total)),
                        Some(db) => Some(
                            (
                                Ok(
                                    BoxedNetworkObject {
                                        id: NetworkObjectId(dk.0),
                                        object: NetworkObjectValue::BeachBall(db.0),
                                    },
                                ),
                                total,
                            ),
                        ),
                    },
                }
            },
        },
    }
}

/// Round trip through the registry: any boxed object whose tag is
/// registered for its kind, whose velocity is bounded and which carries no
/// transient state comes back from its own encoding unchanged — and the
/// encoding starts with exactly its kind tag.
pub proof fn lemma_object_round_trip(
    entries: Seq<(NetworkObjectId, NetworkObjectKind)>,
    b: BoxedNetworkObject,
    rest: Seq<u8>,
)
    requires
        spec_boxed_wf(entries, b),
        spec_value_bounded(b.object),
        spec_value_transient_free(b.object),
    ensures
        spec_dec_boxed(entries, spec_enc_boxed(b) + rest) == Some(
            (Ok::<BoxedNetworkObject, DecodeError>(b), spec_enc_boxed(b).len() as int),
        ),
        spec_enc_boxed(b).take(spec_enc_varint(b.id.0 as nat).len() as int) == spec_enc_varint(
            b.id.0 as nat,
        ),
{
    let ek = spec_enc_varint(b.id.0 as nat);
    let payload = spec_enc_value(b.object);
    let ep = spec_enc_bytes(payload);
    crate::codec::lemma_seq_assoc(ek, ep, rest);
    lemma_u64_roundtrip(b.id.0, ep + rest);
    crate::codec::lemma_skip_concat(ek, ep + rest);
    lemma_bytes_roundtrip(payload, rest);
    match b.object {
        NetworkObjectValue::BeachBall(ball) => {
            lemma_ball_roundtrip(ball, Seq::<u8>::empty());
            assert(spec_enc_ball(ball) + Seq::<u8>::empty() =~= spec_enc_ball(ball));
            assert(spec_dec_ball(payload) == Some(
                (ball, spec_enc_ball(ball).len() as int),
            ));
        },
    }
    assert((ek + ep).take(ek.len() as int) =~= ek);
    assert(spec_enc_boxed(b).take(ek.len() as int) == ek);
}

/// Appends the encoding of `b` to `out`.
pub fn encode_boxed(out: &mut Vec<u8>, b: &BoxedNetworkObject)
    ensures
        final(out)@ == old(out)@ + spec_enc_boxed(*b),
{
    encode_varint_u64(out, b.id.as_u64());
    let mut payload: Vec<u8> = Vec::new();
    match &b.object {
        NetworkObjectValue::BeachBall(ball) => {
            encode_ball(&mut payload, ball);
        },
    }
    assert(payload@ =~= spec_enc_value(b.object));
    encode_bytes(out, &payload);
    assert(out@ =~= old(out)@ + spec_enc_boxed(*b));
}

/// A successful boxed decode consumes between one byte and the whole input.
pub proof fn lemma_dec_boxed_bounds(
    entries: Seq<(NetworkObjectId, NetworkObjectKind)>,
    bytes: Seq<u8>,
)
    ensures
        spec_dec_boxed(entries, bytes) matches Some(d) ==> 1 <= d.1 <= bytes.len(),
{
    crate::codec::lemma_dec_u64_bounds(bytes);
    let dk = spec_dec_u64(bytes);
    if dk is Some {
        lemma_dec_bytes_bounds(bytes.skip(dk->Some_0.1));
    }
}

/// Reads one boxed object starting at `pos`, under the given registry.
pub fn decode_boxed(registry: &NetworkObjectRegistry, bytes: &[u8], pos: usize) -> (r: Option<
    (Result<BoxedNetworkObject, DecodeError>, usize),
>)
    requires
        pos <= bytes@.len(),
    ensures
        match spec_dec_boxed(registry.entries@, bytes@.skip(pos as int)) {
            None => r is None,
            Some(d) => r == Some((d.0, (pos + d.1) as usize)),
        },
{
    let total = bytes.len();
    proof {
        crate::codec::lemma_dec_u64_bounds(bytes@.skip(pos as int));
    }
    match decode_varint_u64(bytes, pos) {
        None => None,
        Some((kind_raw, p1)) => {
            proof {
                crate::codec::lemma_skip_two(bytes@, pos as int, p1 - pos);
            }
            match decode_bytes(bytes, p1) {
                None => None,
                Some((payload, p2)) => {
                    let kind_id = NetworkObjectId::from_u64(kind_raw);
                    match get_network_object_kind(registry, kind_id) {
                        None => Some((Err(DecodeError::UnknownKind), p2)),
                        Some(NetworkObjectKind::BeachBall) => {
                            let pslice = payload.as_slice();
                            assert(pslice@.skip(0) =~= pslice@);
                            match decode_ball(pslice, 0) {
                                None => Some((Err(DecodeError::Malformed), p2)),
                                Some((ball, _)) => Some(
                                    (
                                        Ok(
                                            BoxedNetworkObject {
                                                id: kind_id,
                                                object: NetworkObjectValue::BeachBall(ball),
                                            },
                                        ),
                                        p2,
                                    ),
                                ),
                            }
                        },
                    }
                },
            }
        },
    }
}


} // verus!
