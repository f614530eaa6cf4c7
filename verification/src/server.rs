//! The authoritative server: connection lifecycle, message handling, the
//! per-tick action-coalescing buffer, and the fixed-rate tick that advances
//! physics and decides what to broadcast and to whom.
//!
//! The server never performs I/O itself: every operation returns the list
//! of `(target, message)` pairs to deliver, and the surrounding transport
//! fans each pair out over the connected channels.

use vstd::prelude::*;

use crate::client::Client;
use crate::client::ClientAction;
use crate::client::ClientMessage;
use crate::client::ClientV;
use crate::beach_ball::BeachBall;
use crate::client::spec_combined;
use crate::collision::CollisionInfo;
use crate::geometry::Position;
use crate::geometry::Rect;
use crate::geometry::spec_intersects;
use crate::ids::ClientId;
use crate::ids::ObjectId;
use crate::ids::ObjectIdAllocator;
use crate::moderation::sanitize_name;
use crate::moderation::truncate_chars;
use crate::network_object::BoxedNetworkObject;
use crate::network_object::NetworkObjectRegistry;
use crate::network_object::NetworkObjectValue;
use crate::network_object::spec_enc_boxed;
use crate::world::SpecialEvent;
use crate::world::WorldState;
use crate::world::spec_enc_world;
use crate::world::spec_has_client;
use crate::world::spec_world_wf;

verus! {

/// Who a server message goes to: every connected client, everyone but one,
/// or exactly one (used for the initial full-state handshake).
#[derive(Clone, Copy, Debug, PartialEq, Eq, Structural)]
pub enum NotifyTarget {
    All,
    AllExcept(ClientId),
    Only(ClientId),
}

/// A whole world encoded for one connecting client: the client's own id and
/// the world bytes.
#[derive(Clone, Debug)]
pub struct SerializedClientGameState(pub ClientId, pub Vec<u8>);

/// One network object encoded with its kind tag.
#[derive(Clone, Debug)]
pub struct SerializedNetworkObject(pub Vec<u8>);

/// A message from the server to clients.
#[derive(Clone, Debug)]
pub enum ServerMessage {
    /// The whole world, sent once to a connecting client.
    FullState(SerializedClientGameState),
    /// A player joined.
    NewClient(Client),
    /// A player left.
    ClientLeft(ClientId),
    /// The batched player deltas of one tick.
    UpdateState(Vec<(ClientId, ClientAction)>),
    /// A chat line from one player.
    Chat(ClientId, String),
    /// A world-wide mode was switched.
    SpecialEvent { event: SpecialEvent, active: bool },
    /// A network object appeared.
    NewObject(ObjectId, SerializedNetworkObject),
    /// A network object broadcast new state.
    UpdateObject(ObjectId, Vec<u8>),
    /// A network object disappeared.
    DeleteObject(ObjectId),
}

/// The abstract value of a `ServerMessage`.
pub ghost enum ServerMessageV {
    FullState(ClientId, Seq<u8>),
    NewClient(ClientV),
    ClientLeft(ClientId),
    UpdateState(Seq<(ClientId, ClientAction)>),
    Chat(ClientId, Seq<char>),
    SpecialEvent { event: SpecialEvent, active: bool },
    NewObject(ObjectId, Seq<u8>),
    UpdateObject(ObjectId, Seq<u8>),
    DeleteObject(ObjectId),
}

impl View for ServerMessage {
    type V = ServerMessageV;

    open spec fn view(&self) -> ServerMessageV {
        match self {
            ServerMessage::FullState(s) => ServerMessageV::FullState(s.0, s.1@),
            ServerMessage::NewClient(c) => ServerMessageV::NewClient(c@),
            ServerMessage::ClientLeft(id) => ServerMessageV::ClientLeft(*id),
            ServerMessage::UpdateState(updates) => ServerMessageV::UpdateState(updates@),
            ServerMessage::Chat(id, text) => ServerMessageV::Chat(*id, text@),
            ServerMessage::SpecialEvent { event, active } => ServerMessageV::SpecialEvent {
                event: *event,
                active: *active,
            },
            ServerMessage::NewObject(id, o) => ServerMessageV::NewObject(*id, o.0@),
            ServerMessage::UpdateObject(id, data) => ServerMessageV::UpdateObject(*id, data@),
            ServerMessage::DeleteObject(id) => ServerMessageV::DeleteObject(*id),
        }
    }
}

/// The view of one outbound pair.
pub open spec fn spec_delivery_view(d: (NotifyTarget, ServerMessage)) -> (
    NotifyTarget,
    ServerMessageV,
) {
    (d.0, d.1@)
}

/// The views of a whole outbound list.
pub open spec fn spec_deliveries(ds: Seq<(NotifyTarget, ServerMessage)>) -> Seq<
    (NotifyTarget, ServerMessageV),
> {
    ds.map(|i: int, d: (NotifyTarget, ServerMessage)| spec_delivery_view(d))
}

impl SerializedClientGameState {
    /// Encode the world for the client with the given id.
    pub fn new(client_id: ClientId, world: &WorldState) -> (r: SerializedClientGameState)
        ensures
            r.0 == client_id,
            r.1@ == spec_enc_world(world@),
    {
        let mut bytes: Vec<u8> = Vec::new();
        crate::world::encode_world(&mut bytes, world);
        SerializedClientGameState(client_id, bytes)
    }
}

impl SerializedNetworkObject {
    /// Encode one boxed object.
    pub fn new(object: &BoxedNetworkObject) -> (r: SerializedNetworkObject)
        ensures
            r.0@ == spec_enc_boxed(*object),
    {
        let mut bytes: Vec<u8> = Vec::new();
        crate::network_object::encode_boxed(&mut bytes, object);
        SerializedNetworkObject(bytes)
    }

    /// Decode the object back, under the given registry.
    pub fn serialize(self, registry: &NetworkObjectRegistry) -> (r: Result<
        BoxedNetworkObject,
        crate::codec::DecodeError,
    >)
        ensures
            match crate::network_object::spec_dec_boxed(registry.entries@, self.0@) {
                Some(d) => r == d.0,
                None => r matches Err(e) && e == crate::codec::DecodeError::Malformed,
            },
    {
        let bytes = self.0.as_slice();
        assert(bytes@.skip(0) =~= bytes@);
        match crate::network_object::decode_boxed(registry, bytes, 0) {
            None => Err(crate::codec::DecodeError::Malformed),
            Some((decoded, _)) => decoded,
        }
    }
}

/// The queue after one arriving delta: it folds into the client's pending
/// entry, or starts one.
pub open spec fn spec_queue_action(
    queued: Seq<(ClientId, ClientAction)>,
    id: ClientId,
    action: ClientAction,
) -> Seq<(ClientId, ClientAction)>
    decreases queued.len(),
{
    if queued.len() == 0 {
        seq![(id, action)]
    } else if queued[0].0 == id {
        seq![(queued[0].0, spec_combined(queued[0].1, action))] + queued.skip(1)
    } else {
        seq![queued[0]] + spec_queue_action(queued.skip(1), id, action)
    }
}

/// Queueing keeps the set of client ids and adds at most the new one, so a
/// queue with unique ids stays unique.
pub proof fn lemma_queue_action_ids(
    queued: Seq<(ClientId, ClientAction)>,
    id: ClientId,
    action: ClientAction,
)
    ensures
        ({
            let q = spec_queue_action(queued, id, action);
            forall|i: int|
                0 <= i < q.len() ==> ((#[trigger] q[i]).0 == id || exists|j: int|
                    0 <= j < queued.len() && (#[trigger] queued[j]).0 == q[i].0)
        }),
    decreases queued.len(),
{
    let q = spec_queue_action(queued, id, action);
    if queued.len() == 0 {
    } else if queued[0].0 == id {
        assert forall|i: int| 0 <= i < q.len() implies ((#[trigger] q[i]).0 == id || exists|j: int|
            0 <= j < queued.len() && (#[trigger] queued[j]).0 == q[i].0) by {
            if i > 0 {
                assert(q[i] == queued[i]);
            }
        }
    } else {
        lemma_queue_action_ids(queued.skip(1), id, action);
        let qt = spec_queue_action(queued.skip(1), id, action);
        assert forall|i: int| 0 <= i < q.len() implies ((#[trigger] q[i]).0 == id || exists|j: int|
            0 <= j < queued.len() && (#[trigger] queued[j]).0 == q[i].0) by {
            if i == 0 {
                assert(queued[0].0 == q[0].0);
            } else {
                let entry = qt[i - 1];
                assert(q[i] == entry);
                if entry.0 != id {
                    let j = choose|j: int|
                        0 <= j < queued.skip(1).len() && (#[trigger] queued.skip(1)[j]).0
                            == entry.0;
                    assert(queued[j + 1].0 == q[i].0);
                }
            }
        }
    }
}

/// Entries of a queue whose client is not `id`.
pub open spec fn spec_queue_without(
    queued: Seq<(ClientId, ClientAction)>,
    id: ClientId,
) -> Seq<(ClientId, ClientAction)>
    decreases queued.len(),
{
    if queued.len() == 0 {
        queued
    } else if queued[0].0 == id {
        spec_queue_without(queued.skip(1), id)
    } else {
        seq![queued[0]] + spec_queue_without(queued.skip(1), id)
    }
}

/// Players other than `id`.
pub open spec fn spec_clients_without(clients: Seq<ClientV>, id: ClientId) -> Seq<ClientV>
    decreases clients.len(),
{
    if clients.len() == 0 {
        clients
    } else if clients[0].id == id {
        spec_clients_without(clients.skip(1), id)
    } else {
        seq![clients[0]] + spec_clients_without(clients.skip(1), id)
    }
}

/// Connection ids other than `id`.
pub open spec fn spec_ids_without(ids: Seq<ClientId>, id: ClientId) -> Seq<ClientId>
    decreases ids.len(),
{
    if ids.len() == 0 {
        ids
    } else if ids[0] == id {
        spec_ids_without(ids.skip(1), id)
    } else {
        seq![ids[0]] + spec_ids_without(ids.skip(1), id)
    }
}

/// Nothing with `id` survives the removal, and other entries survive it.
pub proof fn lemma_clients_without(clients: Seq<ClientV>, id: ClientId)
    ensures
        !spec_has_client(spec_clients_without(clients, id), id),
        forall|i: int|
            0 <= i < clients.len() && (#[trigger] clients[i]).id != id ==> spec_has_client(
                spec_clients_without(clients, id),
                clients[i].id,
            ),
    decreases clients.len(),
{
    let w = spec_clients_without(clients, id);
    if clients.len() == 0 {
    } else {
        lemma_clients_without(clients.skip(1), id);
        let wt = spec_clients_without(clients.skip(1), id);
        assert forall|i: int|
            0 <= i < clients.len() && (#[trigger] clients[i]).id != id implies spec_has_client(
            w,
            clients[i].id,
        ) by {
            if i == 0 {
                assert(w[0] == clients[0]);
            } else {
                assert(clients.skip(1)[i - 1] == clients[i]);
                let j = choose|j: int| 0 <= j < wt.len() && (#[trigger] wt[j]).id == clients[i].id;
                if clients[0].id == id {
                    assert(w[j] == wt[j]);
                } else {
                    assert(w[j + 1] == wt[j]);
                }
            }
        }
        if spec_has_client(w, id) {
            let k = choose|k: int| 0 <= k < w.len() && (#[trigger] w[k]).id == id;
            if clients[0].id == id {
                assert(wt[k] == w[k]);
            } else {
                if k == 0 {
                    assert(w[0] == clients[0]);
                } else {
                    assert(wt[k - 1] == w[k]);
                }
            }
        }
    }
}

/// The server-side game state.
pub struct ServerGameState {
    /// The authoritative world.
    pub world: WorldState,
    /// The ids with a registered notification channel, in connection order.
    pub connected: Vec<ClientId>,
    /// The per-tick action-coalescing buffer, one entry per distinct client.
    pub queued_moves: Vec<(ClientId, ClientAction)>,
    /// The object-kind registry decoding traffic for this world.
    pub registry: NetworkObjectRegistry,
    /// Mints instance ids for network objects.
    pub object_ids: ObjectIdAllocator,
}

/// The server's invariant: world ids unique, one queue entry per client,
/// registered kind tags on every stored object, and every stored object id
/// below the allocator's next value.
pub open spec fn spec_server_wf(s: ServerGameState) -> bool {
    &&& spec_world_wf(s.world@)
    &&& forall|i: int, j: int|
        0 <= i < j < s.queued_moves@.len() ==> (#[trigger] s.queued_moves@[i]).0 != (
        #[trigger] s.queued_moves@[j]).0
    &&& crate::network_object::spec_registry_wf(s.registry)
    &&& forall|i: int|
        0 <= i < s.world@.network_objects.len() ==> (
        #[trigger] s.world@.network_objects[i]).0.0 < s.object_ids.next
}

impl ServerGameState {
    /// A server with an empty world and no connections, decoding object
    /// kinds through the given registry.
    pub fn new(registry: NetworkObjectRegistry) -> (r: ServerGameState)
        requires
            crate::network_object::spec_registry_wf(registry),
        ensures
            r.world@.clients.len() == 0,
            r.world@.network_objects.len() == 0,
            r.connected@.len() == 0,
            r.queued_moves@.len() == 0,
            r.registry == registry,
            spec_server_wf(r),
    {
        ServerGameState {
            world: WorldState::new(),
            connected: Vec::new(),
            queued_moves: Vec::new(),
            registry,
            object_ids: ObjectIdAllocator::new(),
        }
    }

    /// Register a notification channel for `id`. No player entity exists
    /// until the client's `Connect` succeeds.
    pub fn new_client(&mut self, id: ClientId)
        ensures
            final(self).connected@ == old(self).connected@.push(id),
            final(self).world == old(self).world,
            final(self).queued_moves == old(self).queued_moves,
            final(self).registry == old(self).registry,
            final(self).object_ids == old(self).object_ids,
            spec_server_wf(*old(self)) ==> spec_server_wf(*final(self)),
    {
        self.connected.push(id);
    }

    /// Drop the channel and any player entity with this id, forget its
    /// pending delta, and tell everyone else the player left.
    pub fn remove_client(&mut self, client_id: ClientId) -> (r: Vec<(NotifyTarget, ServerMessage)>)
        ensures
            final(self).connected@ == spec_ids_without(old(self).connected@, client_id),
            final(self).world@.clients == spec_clients_without(old(self).world@.clients, client_id),
            final(self).world@.special_events == old(self).world@.special_events,
            final(self).world@.network_objects == old(self).world@.network_objects,
            final(self).queued_moves@ == spec_queue_without(old(self).queued_moves@, client_id),
            final(self).registry == old(self).registry,
            final(self).object_ids == old(self).object_ids,
            spec_deliveries(r@) =~= seq![
                (NotifyTarget::AllExcept(client_id), ServerMessageV::ClientLeft(client_id)),
            ],
    {
        let mut kept_connected: Vec<ClientId> = Vec::new();
        let mut i: usize = 0;
        let ghost conn = self.connected@;
        assert(conn.skip(0) =~= conn);
        while i < self.connected.len()
            invariant
                i <= conn.len(),
                self.connected@ == conn,
                kept_connected@ + spec_ids_without(conn.skip(i as int), client_id)
                    == spec_ids_without(conn, client_id),
            decreases conn.len() - i,
        {
            let c = self.connected[i];
            assert(conn.skip(i as int)[0] == conn[i as int]);
            assert(conn.skip(i as int).skip(1) =~= conn.skip(i + 1));
            if c.as_u32() != client_id.as_u32() {
                assert(c != client_id);
                kept_connected.push(c);
                assert(kept_connected@ + spec_ids_without(conn.skip(i + 1), client_id)
                    =~= spec_ids_without(conn, client_id));
            } else {
                assert(c == client_id);
            }
            i = i + 1;
        }
        assert(conn.skip(conn.len() as int) =~= Seq::<ClientId>::empty());
        assert(spec_ids_without(Seq::<ClientId>::empty(), client_id) =~= Seq::<ClientId>::empty());
        assert(kept_connected@ =~= spec_ids_without(conn, client_id));
        self.connected = kept_connected;

        let mut kept_clients: Vec<Client> = Vec::new();
        let mut j: usize = 0;
        let ghost cls = self.world.clients@;
        let ghost clsv = self.world@.clients;
        assert(clsv.skip(0) =~= clsv);
        while j < self.world.clients.len()
            invariant
                j <= cls.len(),
                self.world.clients@ == cls,
                clsv == cls.map(|i: int, c: Client| c@),
                kept_clients@.map(|i: int, c: Client| c@) + spec_clients_without(
                    clsv.skip(j as int),
                    client_id,
                ) == spec_clients_without(clsv, client_id),
            decreases cls.len() - j,
        {
            let ghost prev = kept_clients@.map(|i: int, c: Client| c@);
            let c = &self.world.clients[j];
            assert(clsv.skip(j as int)[0] == clsv[j as int]);
            assert(clsv.skip(j as int).skip(1) =~= clsv.skip(j + 1));
            if c.id().as_u32() != client_id.as_u32() {
                let kept = Client::new(c.id(), c.name_string(), c.position);
                let kept = Client {
                    typing: c.typing,
                    movement: c.movement,
                    look_direction: c.look_direction,
                    ..kept
                };
                assert(kept@ == clsv[j as int]);
                kept_clients.push(kept);
                assert(kept_clients@.map(|i: int, c: Client| c@) =~= prev.push(clsv[j as int]));
                assert(kept_clients@.map(|i: int, c: Client| c@) + spec_clients_without(
                    clsv.skip(j + 1),
                    client_id,
                ) =~= spec_clients_without(clsv, client_id));
            } else {
                assert(clsv[j as int].id == client_id);
            }
            j = j + 1;
        }
        assert(clsv.skip(clsv.len() as int) =~= Seq::<ClientV>::empty());
        assert(spec_clients_without(Seq::<ClientV>::empty(), client_id) =~= Seq::<
            ClientV,
        >::empty());
        assert(kept_clients@.map(|i: int, c: Client| c@) =~= spec_clients_without(
            clsv,
            client_id,
        ));
        self.world.clients = kept_clients;

        let mut kept_queue: Vec<(ClientId, ClientAction)> = Vec::new();
        let mut k: usize = 0;
        let ghost q = self.queued_moves@;
        assert(q.skip(0) =~= q);
        while k < self.queued_moves.len()
            invariant
                k <= q.len(),
                self.queued_moves@ == q,
                kept_queue@ + spec_queue_without(q.skip(k as int), client_id)
                    == spec_queue_without(q, client_id),
            decreases q.len() - k,
        {
            let entry = self.queued_moves[k];
            assert(q.skip(k as int)[0] == q[k as int]);
            assert(q.skip(k as int).skip(1) =~= q.skip(k + 1));
            if entry.0.as_u32() != client_id.as_u32() {
                assert(entry.0 != client_id);
                kept_queue.push(entry);
                assert(kept_queue@ + spec_queue_without(q.skip(k + 1), client_id)
                    =~= spec_queue_without(q, client_id));
            } else {
                assert(entry.0 == client_id);
            }
            k = k + 1;
        }
        assert(q.skip(q.len() as int) =~= Seq::<(ClientId, ClientAction)>::empty());
        assert(spec_queue_without(Seq::<(ClientId, ClientAction)>::empty(), client_id) =~= Seq::<
            (ClientId, ClientAction),
        >::empty());
        assert(kept_queue@ =~= spec_queue_without(q, client_id));
        self.queued_moves = kept_queue;

        let mut out: Vec<(NotifyTarget, ServerMessage)> = Vec::new();
        out.push((NotifyTarget::AllExcept(client_id), ServerMessage::ClientLeft(client_id)));
        assert(spec_deliveries(out@) =~= seq![
            (NotifyTarget::AllExcept(client_id), ServerMessageV::ClientLeft(client_id)),
        ]);
        out
    }
}

/// The first queue index carrying `id`, if any.
pub open spec fn spec_find_queued(queued: Seq<(ClientId, ClientAction)>, id: ClientId) -> Option<
    int,
>
    decreases queued.len(),
{
    if queued.len() == 0 {
        Option::None
    } else if queued[0].0 == id {
        Option::Some(0)
    } else {
        match spec_find_queued(queued.skip(1), id) {
            Option::Some(i) => Option::Some(i + 1),
            Option::None => Option::None,
        }
    }
}

/// The first object index carrying `id`, if any.
pub open spec fn spec_find_object(
    objects: Seq<(ObjectId, BoxedNetworkObject)>,
    id: ObjectId,
) -> Option<int>
    decreases objects.len(),
{
    if objects.len() == 0 {
        Option::None
    } else if objects[0].0 == id {
        Option::Some(0)
    } else {
        match spec_find_object(objects.skip(1), id) {
            Option::Some(i) => Option::Some(i + 1),
            Option::None => Option::None,
        }
    }
}

/// A found queue index is in range and carries `id`; nothing earlier does.
pub proof fn lemma_find_queued(queued: Seq<(ClientId, ClientAction)>, id: ClientId)
    ensures
        match spec_find_queued(queued, id) {
            Option::Some(i) => 0 <= i < queued.len() && queued[i].0 == id,
            Option::None => forall|i: int|
                0 <= i < queued.len() ==> (#[trigger] queued[i]).0 != id,
        },
    decreases queued.len(),
{
    if queued.len() > 0 && queued[0].0 != id {
        lemma_find_queued(queued.skip(1), id);
        let d = spec_find_queued(queued.skip(1), id);
        if d is Some {
            assert(queued.skip(1)[d->0] == queued[d->0 + 1]);
        } else {
            assert forall|i: int| 0 <= i < queued.len() implies (#[trigger] queued[i]).0 != id by {
                if i > 0 {
                    assert(queued.skip(1)[i - 1] == queued[i]);
                }
            }
        }
    }
}

/// A found object index is in range and carries `id`.
pub proof fn lemma_find_object(objects: Seq<(ObjectId, BoxedNetworkObject)>, id: ObjectId)
    ensures
        match spec_find_object(objects, id) {
            Option::Some(i) => 0 <= i < objects.len() && objects[i].0 == id,
            Option::None => forall|i: int|
                0 <= i < objects.len() ==> (#[trigger] objects[i]).0 != id,
        },
    decreases objects.len(),
{
    if objects.len() > 0 && objects[0].0 != id {
        lemma_find_object(objects.skip(1), id);
        let d = spec_find_object(objects.skip(1), id);
        if d is Some {
            assert(objects.skip(1)[d->0] == objects[d->0 + 1]);
        } else {
            assert forall|i: int| 0 <= i < objects.len() implies (#[trigger] objects[i]).0 != id by {
                if i > 0 {
                    assert(objects.skip(1)[i - 1] == objects[i]);
                }
            }
        }
    }
}

impl ServerGameState {
    /// The first queue index for `id`, if the client already queued a delta
    /// this tick.
    fn find_queued(&self, id: ClientId) -> (r: Option<usize>)
        ensures
            match spec_find_queued(self.queued_moves@, id) {
                Option::Some(i) => r == Some(i as usize),
                Option::None => r is None,
            },
    {
        let mut i: usize = 0;
        assert(self.queued_moves@.skip(0) =~= self.queued_moves@);
        while i < self.queued_moves.len()
            invariant
                i <= self.queued_moves@.len(),
                forall|k: int|
                    0 <= k < i ==> (#[trigger] self.queued_moves@[k]).0 != id,
                match spec_find_queued(self.queued_moves@.skip(i as int), id) {
                    Option::Some(j) => spec_find_queued(self.queued_moves@, id) == Option::Some(
                        j + i,
                    ),
                    Option::None => spec_find_queued(self.queued_moves@, id) is None,
                },
            decreases self.queued_moves@.len() - i,
        {
            let ghost q = self.queued_moves@;
            assert(q.skip(i as int)[0] == q[i as int]);
            assert(q.skip(i as int).skip(1) =~= q.skip(i + 1));
            if self.queued_moves[i].0.as_u32() == id.as_u32() {
                assert(self.queued_moves@[i as int].0 == id);
                return Some(i);
            }
            assert(self.queued_moves@[i as int].0 != id);
            i = i + 1;
        }
        assert(self.queued_moves@.skip(i as int) =~= Seq::<(ClientId, ClientAction)>::empty());
        None
    }

    /// The first object index for `id`, if such an object lives.
    fn find_object(&self, id: ObjectId) -> (r: Option<usize>)
        ensures
            match spec_find_object(self.world.network_objects@, id) {
                Option::Some(i) => r == Some(i as usize),
                Option::None => r is None,
            },
    {
        let mut i: usize = 0;
        assert(self.world.network_objects@.skip(0) =~= self.world.network_objects@);
        while i < self.world.network_objects.len()
            invariant
                i <= self.world.network_objects@.len(),
                match spec_find_object(self.world.network_objects@.skip(i as int), id) {
                    Option::Some(j) => spec_find_object(self.world.network_objects@, id)
                        == Option::Some(j + i),
                    Option::None => spec_find_object(self.world.network_objects@, id) is None,
                },
            decreases self.world.network_objects@.len() - i,
        {
            let ghost q = self.world.network_objects@;
            assert(q.skip(i as int)[0] == q[i as int]);
            assert(q.skip(i as int).skip(1) =~= q.skip(i + 1));
            if self.world.network_objects[i].0.as_u32() == id.as_u32() {
                assert(self.world.network_objects@[i as int].0 == id);
                return Some(i);
            }
            i = i + 1;
        }
        assert(self.world.network_objects@.skip(i as int) =~= Seq::<
            (ObjectId, BoxedNetworkObject),
        >::empty());
        None
    }

    /// Whether a player entity with `id` exists.
    fn has_client(&self, id: ClientId) -> (r: bool)
        ensures
            r == spec_has_client(self.world@.clients, id),
    {
        let mut i: usize = 0;
        while i < self.world.clients.len()
            invariant
                i <= self.world.clients@.len(),
                forall|k: int|
                    0 <= k < i ==> (#[trigger] self.world@.clients[k]).id != id,
                self.world@.clients == self.world.clients@.map(|i: int, c: Client| c@),
            decreases self.world.clients@.len() - i,
        {
            if self.world.clients[i].id().as_u32() == id.as_u32() {
                assert(self.world@.clients[i as int].id == id);
                return true;
            }
            assert(self.world@.clients[i as int].id != id);
            i = i + 1;
        }
        false
    }

    /// Create the player for a connecting client (idempotent against
    /// duplicate connects), hand the whole world to that client alone, and
    /// announce the newcomer to everyone else.
    #[verifier::rlimit(90)]
    #[verifier::spinoff_prover]
    fn handle_connect(&mut self, client_id: ClientId, name: String) -> (r: Vec<
        (NotifyTarget, ServerMessage),
    >)
        requires
            spec_server_wf(*old(self)),
        ensures
            spec_server_wf(*final(self)),
            final(self).connected == old(self).connected,
            final(self).registry == old(self).registry,
            final(self).object_ids == old(self).object_ids,
            final(self).queued_moves == old(self).queued_moves,
            if spec_has_client(old(self).world@.clients, client_id) {
                final(self).world@ == old(self).world@ && r@.len() == 0
            } else {
                let c = ClientV {
                    id: client_id,
                    name: crate::moderation::spec_sanitize_name(name@),
                    typing: false,
                    position: Position { x: 0, y: 0 },
                    movement: crate::client::MoveDirection::Still,
                    look_direction: crate::client::MoveDirection::Still,
                };
                &&& final(self).world@.clients == old(self).world@.clients.push(c)
                &&& final(self).world@.network_objects == old(self).world@.network_objects
                &&& final(self).world@.special_events == old(self).world@.special_events
                &&& spec_deliveries(r@) =~= seq![
                    (
                        NotifyTarget::Only(client_id),
                        ServerMessageV::FullState(client_id, spec_enc_world(final(self).world@)),
                    ),
                    (NotifyTarget::AllExcept(client_id), ServerMessageV::NewClient(c)),
                ]
            },
    {
        let mut out: Vec<(NotifyTarget, ServerMessage)> = Vec::new();
        if self.has_client(client_id) {
            return out;
        }
        let display = sanitize_name(name.as_str());
        let client = Client::new(client_id, display, Position::new(0, 0));
        let ghost oldclients = self.world@.clients;
        let announced = client.duplicate();
        self.world.clients.push(client);
        proof {
            assert(self.world@.clients =~= oldclients.push(announced@));
            assert forall|i: int, j: int|
                0 <= i < j < self.world@.clients.len() implies (
            #[trigger] self.world@.clients[i]).id != (#[trigger] self.world@.clients[j]).id by {
                if j == self.world@.clients.len() - 1 {
                    assert(self.world@.clients[i] == oldclients[i]);
                }
            }
            assert(self.world@.network_objects == old(self).world@.network_objects);
            assert(spec_world_wf(self.world@));
            assert(self.queued_moves@ == old(self).queued_moves@);
            assert(spec_server_wf(*self));
        }
        out.push(
            (
                NotifyTarget::Only(client_id),
                ServerMessage::FullState(SerializedClientGameState::new(client_id, &self.world)),
            ),
        );
        out.push((NotifyTarget::AllExcept(client_id), ServerMessage::NewClient(announced)));
        assert(spec_deliveries(out@) =~= seq![
            (
                NotifyTarget::Only(client_id),
                ServerMessageV::FullState(client_id, spec_enc_world(self.world@)),
            ),
            (NotifyTarget::AllExcept(client_id), ServerMessageV::NewClient(announced@)),
        ]);
        out
    }

    /// Coalesce an arriving delta into the pending buffer; the player is
    /// not touched until the next tick.
    fn handle_action(&mut self, client_id: ClientId, action: ClientAction)
        requires
            spec_server_wf(*old(self)),
        ensures
            spec_server_wf(*final(self)),
            final(self).connected == old(self).connected,
            final(self).registry == old(self).registry,
            final(self).object_ids == old(self).object_ids,
            final(self).world == old(self).world,
            final(self).queued_moves@ == spec_queue_action(
                old(self).queued_moves@,
                client_id,
                action,
            ),
    {
        proof {
            lemma_find_queued(self.queued_moves@, client_id);
        }
        let ghost oldq = self.queued_moves@;
        let n = self.queued_moves.len();
        match self.find_queued(client_id) {
            Some(i) => {
                assert(i < self.queued_moves@.len());
                self.queued_moves[i].1.combine(&action);
                proof {
                    lemma_queue_combined_at(oldq, client_id, action, i as int);
                }
            },
            None => {
                self.queued_moves.push((client_id, action));
                proof {
                    lemma_queue_appended(oldq, client_id, action);
                }
            },
        }
        proof {
            assert forall|i: int, j: int|
                0 <= i < j < self.queued_moves@.len() implies (
            #[trigger] self.queued_moves@[i]).0 != (#[trigger] self.queued_moves@[j]).0 by {
                lemma_queue_action_unique(oldq, client_id, action, i, j);
            }
        }
    }

    /// Route a client's payload to one object; a missing object is silently
    /// ignored and a failing payload is swallowed, so object-level errors
    /// never harm the tick loop.
    fn handle_update_object(&mut self, oid: ObjectId, data: Vec<u8>) -> (r: Vec<
        (NotifyTarget, ServerMessage),
    >)
        requires
            spec_server_wf(*old(self)),
        ensures
            spec_server_wf(*final(self)),
            final(self).connected == old(self).connected,
            final(self).registry == old(self).registry,
            final(self).object_ids == old(self).object_ids,
            final(self).queued_moves == old(self).queued_moves,
            final(self).world@.clients == old(self).world@.clients,
            final(self).world@.special_events == old(self).world@.special_events,
            match spec_find_object(old(self).world@.network_objects, oid) {
                Option::None => final(self).world@.network_objects == old(
                    self,
                ).world@.network_objects && r@.len() == 0,
                Option::Some(i) => {
                    let entry = old(self).world@.network_objects[i];
                    match entry.1.object {
                        NetworkObjectValue::BeachBall(b) => {
                            match crate::collision::spec_dec_collision_info(data@) {
                                Option::Some(d) => {
                                    let nb = BeachBall {
                                        velocity: (
                                            crate::beach_ball::spec_ball_collided(b, d.0).0 as i64,
                                            crate::beach_ball::spec_ball_collided(b, d.0).1 as i64,
                                        ),
                                        ..b
                                    };
                                    &&& final(self).world@.network_objects == old(
                                        self,
                                    ).world@.network_objects.update(
                                        i,
                                        (
                                            entry.0,
                                            BoxedNetworkObject {
                                                id: entry.1.id,
                                                object: NetworkObjectValue::BeachBall(nb),
                                            },
                                        ),
                                    )
                                    &&& spec_deliveries(r@) =~= seq![
                                        (
                                            NotifyTarget::All,
                                            ServerMessageV::UpdateObject(
                                                oid,
                                                crate::beach_ball::spec_enc_ball_state(
                                                    nb.position_milli,
                                                    nb.velocity,
                                                ),
                                            ),
                                        ),
                                    ]
                                },
                                Option::None => final(self).world@.network_objects == old(
                                    self,
                                ).world@.network_objects && r@.len() == 0,
                            }
                        },
                    }
                },
            },
    {
        let mut out: Vec<(NotifyTarget, ServerMessage)> = Vec::new();
        proof {
            lemma_find_object(self.world.network_objects@, oid);
        }
        let ghost oldobjs = self.world.network_objects@;
        let n = self.world.network_objects.len();
        match self.find_object(oid) {
            None => {},
            Some(i) => {
                let mut entry = self.world.network_objects[i];
                let ghost oldentry = oldobjs[i as int];
                match entry.1.server_message(data.as_slice()) {
                    Ok(Some(bytes)) => {
                        proof {
                            let d = crate::collision::spec_dec_collision_info(data@);
                            let b = oldentry.1.object->BeachBall_0;
                            let nb = BeachBall {
                                velocity: (
                                    crate::beach_ball::spec_ball_collided(b, d->Some_0.0).0 as i64,
                                    crate::beach_ball::spec_ball_collided(b, d->Some_0.0).1 as i64,
                                ),
                                ..b
                            };
                            assert(entry.0 == oldentry.0);
                            assert(entry.1.id == oldentry.1.id);
                            assert(entry.1.object == NetworkObjectValue::BeachBall(nb));
                            assert(entry == (
                                oldentry.0,
                                BoxedNetworkObject {
                                    id: oldentry.1.id,
                                    object: NetworkObjectValue::BeachBall(nb),
                                },
                            ));
                        }
                        self.world.network_objects[i] = entry;
                        assert(self.world.network_objects@ =~= oldobjs.update(i as int, entry));
                        out.push((NotifyTarget::All, ServerMessage::UpdateObject(oid, bytes)));
                        assert(spec_deliveries(out@) =~= seq![spec_delivery_view(out@[0])]);
                    },
                    Ok(None) => {
                        self.world.network_objects[i] = entry;
                    },
                    Err(_) => {
                        assert(self.world.network_objects@ =~= oldobjs);
                    },
                }
                proof {
                    assert forall|a: int, b: int|
                        0 <= a < b < self.world@.network_objects.len() implies (
                    #[trigger] self.world@.network_objects[a]).0 != (
                    #[trigger] self.world@.network_objects[b]).0 by {
                        assert(oldobjs[a].0 != oldobjs[b].0);
                    }
                    assert forall|a: int|
                        0 <= a < self.world@.network_objects.len() implies (
                    #[trigger] self.world@.network_objects[a]).0.0 < self.object_ids.next by {
                        assert(oldobjs[a].0.0 < self.object_ids.next);
                    }
                }
            },
        }
        out
    }

    /// Handle one message from a connected client.
    ///
    /// `Connect` creates the player (idempotent against duplicates), hands
    /// the whole world to the connecting client alone and announces the
    /// newcomer to everyone else. `Action` only coalesces into the pending
    /// buffer: the player itself moves at the next tick. `Chat` is length
    /// limited and echoed to everyone, the sender included. `UpdateObject`
    /// is routed to that object; a missing object or a failing payload is
    /// ignored without harming the tick loop.
    pub fn update(&mut self, client_id: ClientId, client_msg: ClientMessage) -> (r: Vec<
        (NotifyTarget, ServerMessage),
    >)
        requires
            spec_server_wf(*old(self)),
        ensures
            spec_server_wf(*final(self)),
            final(self).connected == old(self).connected,
            final(self).registry == old(self).registry,
            final(self).object_ids == old(self).object_ids,
            final(self).world@.special_events == old(self).world@.special_events,
            match client_msg@ {
                crate::client::ClientMessageV::Connect { name } => {
                    if spec_has_client(old(self).world@.clients, client_id) {
                        &&& final(self).world@ == old(self).world@
                        &&& final(self).queued_moves == old(self).queued_moves
                        &&& r@.len() == 0
                    } else {
                        let c = ClientV {
                            id: client_id,
                            name: crate::moderation::spec_sanitize_name(name),
                            typing: false,
                            position: Position { x: 0, y: 0 },
                            movement: crate::client::MoveDirection::Still,
                            look_direction: crate::client::MoveDirection::Still,
                        };
                        &&& final(self).world@.clients == old(self).world@.clients.push(c)
                        &&& final(self).world@.network_objects == old(self).world@.network_objects
                        &&& final(self).queued_moves == old(self).queued_moves
                        &&& spec_deliveries(r@) =~= seq![
                            (
                                NotifyTarget::Only(client_id),
                                ServerMessageV::FullState(
                                    client_id,
                                    spec_enc_world(final(self).world@),
                                ),
                            ),
                            (NotifyTarget::AllExcept(client_id), ServerMessageV::NewClient(c)),
                        ]
                    }
                },
                crate::client::ClientMessageV::Action(a) => {
                    &&& final(self).world@ == old(self).world@
                    &&& final(self).queued_moves@ == spec_queue_action(
                        old(self).queued_moves@,
                        client_id,
                        a,
                    )
                    &&& r@.len() == 0
                },
                crate::client::ClientMessageV::Chat(text) => {
                    &&& final(self).world@ == old(self).world@
                    &&& final(self).queued_moves == old(self).queued_moves
                    &&& spec_deliveries(r@) =~= seq![
                        (
                            NotifyTarget::All,
                            ServerMessageV::Chat(
                                client_id,
                                crate::moderation::spec_take_chars(
                                    text,
                                    crate::MESSAGE_LIMIT as int,
                                ),
                            ),
                        ),
                    ]
                },
                crate::client::ClientMessageV::UpdateObject(oid, data) => {
                    &&& final(self).world@.clients == old(self).world@.clients
                    &&& final(self).queued_moves == old(self).queued_moves
                    &&& match spec_find_object(old(self).world@.network_objects, oid) {
                        Option::None => final(self).world@.network_objects == old(
                            self,
                        ).world@.network_objects && r@.len() == 0,
                        Option::Some(i) => {
                            let entry = old(self).world@.network_objects[i];
                            match entry.1.object {
                                NetworkObjectValue::BeachBall(b) => {
                                    match crate::collision::spec_dec_collision_info(data) {
                                        Option::Some(d) => {
                                            let nb = BeachBall {
                                                velocity: (
                                                    crate::beach_ball::spec_ball_collided(
                                                        b,
                                                        d.0,
                                                    ).0 as i64,
                                                    crate::beach_ball::spec_ball_collided(
                                                        b,
                                                        d.0,
                                                    ).1 as i64,
                                                ),
                                                ..b
                                            };
                                            &&& final(self).world@.network_objects == old(
                                                self,
                                            ).world@.network_objects.update(
                                                i,
                                                (
                                                    entry.0,
                                                    BoxedNetworkObject {
                                                        id: entry.1.id,
                                                        object: NetworkObjectValue::BeachBall(nb),
                                                    },
                                                ),
                                            )
                                            &&& spec_deliveries(r@) =~= seq![
                                                (
                                                    NotifyTarget::All,
                                                    ServerMessageV::UpdateObject(
                                                        oid,
                                                        crate::beach_ball::spec_enc_ball_state(
                                                            nb.position_milli,
                                                            nb.velocity,
                                                        ),
                                                    ),
                                                ),
                                            ]
                                        },
                                        Option::None => final(self).world@.network_objects == old(
                                            self,
                                        ).world@.network_objects && r@.len() == 0,
                                    }
                                },
                            }
                        },
                    }
                },
            },
    {
        match client_msg {
            ClientMessage::Connect { name } => self.handle_connect(client_id, name),
            ClientMessage::Action(action) => {
                let out: Vec<(NotifyTarget, ServerMessage)> = Vec::new();
                self.handle_action(client_id, action);
                out
            },
            ClientMessage::Chat(message) => {
                let mut out: Vec<(NotifyTarget, ServerMessage)> = Vec::new();
                let limited = truncate_chars(message.as_str(), crate::MESSAGE_LIMIT);
                out.push((NotifyTarget::All, ServerMessage::Chat(client_id, limited)));
                assert(spec_deliveries(out@) =~= seq![
                    (
                        NotifyTarget::All,
                        ServerMessageV::Chat(
                            client_id,
                            crate::moderation::spec_take_chars(
                                message@,
                                crate::MESSAGE_LIMIT as int,
                            ),
                        ),
                    ),
                ]);
                out
            },
            ClientMessage::UpdateObject(oid, data) => self.handle_update_object(oid, data),
        }
    }
}

/// One batched update entry travels as the client id and the delta.
pub open spec fn spec_enc_update_entry(e: (ClientId, ClientAction)) -> Seq<u8> {
    crate::codec::spec_enc_varint(e.0.0 as nat) + crate::client::spec_enc_action(e.1)
}

/// The update entries, one after the other.
pub open spec fn spec_enc_updates(entries: Seq<(ClientId, ClientAction)>) -> Seq<u8>
    decreases entries.len(),
{
    if entries.len() == 0 {
        Seq::<u8>::empty()
    } else {
        spec_enc_update_entry(entries[0]) + spec_enc_updates(entries.skip(1))
    }
}

/// Reads exactly `n` update entries.
pub open spec fn spec_dec_updates(bytes: Seq<u8>, n: nat) -> Option<
    (Seq<(ClientId, ClientAction)>, int),
>
    decreases n,
{
    if n == 0 {
        Some((Seq::<(ClientId, ClientAction)>::empty(), 0))
    } else {
        match crate::codec::spec_dec_u32(bytes) {
            None => None,
            Some(di) => match crate::client::spec_dec_action(bytes.skip(di.1)) {
                None => None,
                Some(da) => match spec_dec_updates(bytes.skip(di.1 + da.1), (n - 1) as nat) {
                    None => None,
                    Some(dr) => Some(
                        (seq![(ClientId(di.0), da.0)] + dr.0, di.1 + da.1 + dr.1),
                    ),
                },
            },
        }
    }
}

pub proof fn lemma_updates_roundtrip(entries: Seq<(ClientId, ClientAction)>, rest: Seq<u8>)
    ensures
        spec_dec_updates(spec_enc_updates(entries) + rest, entries.len() as nat) == Some(
            (entries, spec_enc_updates(entries).len() as int),
        ),
    decreases entries.len(),
{
    if entries.len() == 0 {
        assert(spec_enc_updates(entries) + rest =~= rest);
        assert(entries =~= Seq::<(ClientId, ClientAction)>::empty());
    } else {
        let e0 = spec_enc_update_entry(entries[0]);
        let ei = crate::codec::spec_enc_varint(entries[0].0.0 as nat);
        let ea = crate::client::spec_enc_action(entries[0].1);
        let etail = spec_enc_updates(entries.skip(1));
        crate::codec::lemma_seq_assoc(e0, etail, rest);
        crate::codec::lemma_seq_assoc(ei, ea, etail + rest);
        crate::codec::lemma_u32_roundtrip(entries[0].0.0, ea + (etail + rest));
        crate::codec::lemma_skip_concat(ei, ea + (etail + rest));
        crate::client::lemma_action_roundtrip(entries[0].1, etail + rest);
        crate::codec::lemma_skip_concat(ea, etail + rest);
        crate::codec::lemma_skip_two(
            e0 + (etail + rest),
            ei.len() as int,
            ea.len() as int,
        );
        assert((e0 + (etail + rest)).skip(ei.len() as int) =~= ea + (etail + rest));
        lemma_updates_roundtrip(entries.skip(1), rest);
        assert(seq![entries[0]] + entries.skip(1) =~= entries);
    }
}

/// More entries than bytes cannot decode: every entry takes bytes.
pub proof fn lemma_dec_updates_overrun(bytes: Seq<u8>, n: nat)
    requires
        n > bytes.len(),
    ensures
        spec_dec_updates(bytes, n) is None,
    decreases n,
{
    crate::codec::lemma_dec_u32_bounds(bytes);
    let di = crate::codec::spec_dec_u32(bytes);
    if di is Some {
        let l1 = di->Some_0.1;
        crate::client::lemma_dec_action_bounds(bytes.skip(l1));
        let da = crate::client::spec_dec_action(bytes.skip(l1));
        if da is Some {
            lemma_dec_updates_overrun(bytes.skip(l1 + da->Some_0.1), (n - 1) as nat);
        }
    }
}

pub proof fn lemma_dec_updates_bounds(bytes: Seq<u8>, n: nat)
    ensures
        spec_dec_updates(bytes, n) matches Some(d) ==> 0 <= d.1 <= bytes.len(),
    decreases n,
{
    if n > 0 {
        crate::codec::lemma_dec_u32_bounds(bytes);
        let di = crate::codec::spec_dec_u32(bytes);
        if di is Some {
            let l1 = di->Some_0.1;
            crate::client::lemma_dec_action_bounds(bytes.skip(l1));
            let da = crate::client::spec_dec_action(bytes.skip(l1));
            if da is Some {
                lemma_dec_updates_bounds(bytes.skip(l1 + da->Some_0.1), (n - 1) as nat);
            }
        }
    }
}

/// Appends the encodings of all update entries to `out`.
pub fn encode_updates(out: &mut Vec<u8>, entries: &Vec<(ClientId, ClientAction)>)
    ensures
        final(out)@ == old(out)@ + spec_enc_updates(entries@),
{
    let ghost ev = entries@;
    let mut i: usize = 0;
    while i < entries.len()
        invariant
            i <= ev.len(),
            entries@ == ev,
            out@ == old(out)@ + spec_enc_updates(ev.take(i as int)),
        decreases ev.len() - i,
    {
        let ghost pre = ev.take(i as int);
        let entry = entries[i];
        crate::codec::encode_varint_u64(out, entry.0.as_u32() as u64);
        crate::client::encode_action(out, &entry.1);
        proof {
            assert(ev.take(i + 1) =~= pre.push(ev[i as int]));
            lemma_enc_updates_push(pre, ev[i as int]);
        }
        i = i + 1;
    }
    assert(ev.take(ev.len() as int) =~= ev);
}

/// Encoding one more entry appends that entry's bytes.
proof fn lemma_enc_updates_push(
    entries: Seq<(ClientId, ClientAction)>,
    entry: (ClientId, ClientAction),
)
    ensures
        spec_enc_updates(entries.push(entry)) == spec_enc_updates(entries) + spec_enc_update_entry(
            entry,
        ),
    decreases entries.len(),
{
    let snoc = entries.push(entry);
    if entries.len() == 0 {
        assert(snoc[0] == entry);
        assert(snoc.skip(1) =~= Seq::<(ClientId, ClientAction)>::empty());
        assert(spec_enc_updates(Seq::<(ClientId, ClientAction)>::empty()) =~= Seq::<u8>::empty());
        assert(spec_enc_updates(snoc) =~= spec_enc_update_entry(entry));
        assert(spec_enc_updates(entries) + spec_enc_update_entry(entry) =~= spec_enc_update_entry(
            entry,
        ));
    } else {
        assert(snoc[0] == entries[0]);
        assert(snoc.skip(1) =~= entries.skip(1).push(entry));
        lemma_enc_updates_push(entries.skip(1), entry);
        crate::codec::lemma_seq_assoc(
            spec_enc_update_entry(entries[0]),
            spec_enc_updates(entries.skip(1)),
            spec_enc_update_entry(entry),
        );
    }
}

/// Reads `n` update entries starting at `pos`.
pub fn decode_updates(bytes: &[u8], pos: usize, n: u64) -> (r: Option<
    (Vec<(ClientId, ClientAction)>, usize),
>)
    requires
        pos <= bytes@.len(),
    ensures
        match spec_dec_updates(bytes@.skip(pos as int), n as nat) {
            None => r is None,
            Some(d) => r matches Some(rv) && rv.0@ == d.0 && rv.1 == pos + d.1,
        },
    decreases n,
{
    let total = bytes.len();
    if n == 0 {
        let empty: Vec<(ClientId, ClientAction)> = Vec::new();
        return Some((empty, pos));
    }
    proof {
        crate::codec::lemma_dec_u32_bounds(bytes@.skip(pos as int));
    }
    match crate::codec::decode_u32(bytes, pos) {
        None => None,
        Some((raw_id, p1)) => {
            proof {
                crate::codec::lemma_skip_two(bytes@, pos as int, p1 - pos);
                crate::client::lemma_dec_action_bounds(bytes@.skip(p1 as int));
            }
            match crate::client::decode_action(bytes, p1) {
                None => None,
                Some((action, p2)) => {
                    proof {
                        crate::codec::lemma_skip_two(bytes@, p1 as int, p2 - p1);
                        crate::codec::lemma_skip_two(bytes@, pos as int, p2 - pos);
                    }
                    match decode_updates(bytes, p2, n - 1) {
                        None => None,
                        Some((mut rest, p3)) => {
                            let ghost restv = rest@;
                            rest.insert(0, (ClientId::from_u32(raw_id), action));
                            assert(rest@ =~= seq![(ClientId(raw_id), action)] + restv);
                            Some((rest, p3))
                        },
                    }
                },
            }
        },
    }
}

/// A server message travels as its variant index, then its fields in
/// order.
pub open spec fn spec_enc_server_message(m: ServerMessageV) -> Seq<u8> {
    match m {
        ServerMessageV::FullState(id, world) => crate::codec::spec_enc_varint(0)
            + crate::codec::spec_enc_varint(id.0 as nat) + crate::codec::spec_enc_bytes(world),
        ServerMessageV::NewClient(c) => crate::codec::spec_enc_varint(1)
            + crate::client::spec_enc_client(c),
        ServerMessageV::ClientLeft(id) => crate::codec::spec_enc_varint(2)
            + crate::codec::spec_enc_varint(id.0 as nat),
        ServerMessageV::UpdateState(entries) => crate::codec::spec_enc_varint(3)
            + crate::codec::spec_enc_varint(entries.len() as nat) + spec_enc_updates(entries),
        ServerMessageV::Chat(id, text) => crate::codec::spec_enc_varint(4)
            + crate::codec::spec_enc_varint(id.0 as nat) + crate::codec::spec_enc_str(text),
        ServerMessageV::SpecialEvent { event, active } => crate::codec::spec_enc_varint(5)
            + crate::codec::spec_enc_varint(
            match event {
                SpecialEvent::BeachEpisode => 0,
            },
        ) + crate::codec::spec_enc_bool(active),
        ServerMessageV::NewObject(oid, bytes) => crate::codec::spec_enc_varint(6)
            + crate::codec::spec_enc_varint(oid.0 as nat) + crate::codec::spec_enc_bytes(bytes),
        ServerMessageV::UpdateObject(oid, bytes) => crate::codec::spec_enc_varint(7)
            + crate::codec::spec_enc_varint(oid.0 as nat) + crate::codec::spec_enc_bytes(bytes),
        ServerMessageV::DeleteObject(oid) => crate::codec::spec_enc_varint(8)
            + crate::codec::spec_enc_varint(oid.0 as nat),
    }
}

pub open spec fn spec_dec_server_message(bytes: Seq<u8>) -> Option<(ServerMessageV, int)> {
    match crate::codec::spec_dec_u32(bytes) {
        None => None,
        Some(dt) => if dt.0 == 0 {
            match crate::codec::spec_dec_u32(bytes.skip(dt.1)) {
                None => None,
                Some(di) => match crate::codec::spec_dec_bytes(bytes.skip(dt.1 + di.1)) {
                    None => None,
                    Some(db) => Some(
                        (
                            ServerMessageV::FullState(ClientId(di.0), db.0),
                            dt.1 + di.1 + db.1,
                        ),
                    ),
                },
            }
        } else if dt.0 == 1 {
            match crate::client::spec_dec_client(bytes.skip(dt.1)) {
                None => None,
                Some(dc) => Some((ServerMessageV::NewClient(dc.0), dt.1 + dc.1)),
            }
        } else if dt.0 == 2 {
            match crate::codec::spec_dec_u32(bytes.skip(dt.1)) {
                None => None,
                Some(di) => Some((ServerMessageV::ClientLeft(ClientId(di.0)), dt.1 + di.1)),
            }
        } else if dt.0 == 3 {
            match crate::codec::spec_dec_varint(bytes.skip(dt.1)) {
                None => None,
                Some(dn) => match spec_dec_updates(bytes.skip(dt.1 + dn.1), dn.0) {
                    None => None,
                    Some(du) => Some(
                        (ServerMessageV::UpdateState(du.0), dt.1 + dn.1 + du.1),
                    ),
                },
            }
        } else if dt.0 == 4 {
            match crate::codec::spec_dec_u32(bytes.skip(dt.1)) {
                None => None,
                Some(di) => match crate::codec::spec_dec_str(bytes.skip(dt.1 + di.1)) {
                    None => None,
                    Some(ds) => Some(
                        (ServerMessageV::Chat(ClientId(di.0), ds.0), dt.1 + di.1 + ds.1),
                    ),
                },
            }
        } else if dt.0 == 5 {
            match crate::codec::spec_dec_u32(bytes.skip(dt.1)) {
                None => None,
                Some(de) => if de.0 == 0 {
                    match crate::codec::spec_dec_bool(bytes.skip(dt.1 + de.1)) {
                        None => None,
                        Some(da) => Some(
                            (
                                ServerMessageV::SpecialEvent {
                                    event: SpecialEvent::BeachEpisode,
                                    active: da.0,
                                },
                                dt.1 + de.1 + da.1,
                            ),
                        ),
                    }
                } else {
                    None
                },
            }
        } else if dt.0 == 6 {
            match crate::codec::spec_dec_u32(bytes.skip(dt.1)) {
                None => None,
                Some(di) => match crate::codec::spec_dec_bytes(bytes.skip(dt.1 + di.1)) {
                    None => None,
                    Some(db) => Some(
                        (
                            ServerMessageV::NewObject(ObjectId(di.0), db.0),
                            dt.1 + di.1 + db.1,
                        ),
                    ),
                },
            }
        } else if dt.0 == 7 {
            match crate::codec::spec_dec_u32(bytes.skip(dt.1)) {
                None => None,
                Some(di) => match crate::codec::spec_dec_bytes(bytes.skip(dt.1 + di.1)) {
                    None => None,
                    Some(db) => Some(
                        (
                            ServerMessageV::UpdateObject(ObjectId(di.0), db.0),
                            dt.1 + di.1 + db.1,
                        ),
                    ),
                },
            }
        } else if dt.0 == 8 {
            match crate::codec::spec_dec_u32(bytes.skip(dt.1)) {
                None => None,
                Some(di) => Some((ServerMessageV::DeleteObject(ObjectId(di.0)), dt.1 + di.1)),
            }
        } else {
            None
        },
    }
}

/// A helper for two-part variants: tag, one varint, then a length-prefixed
/// byte string.
proof fn lemma_tag_id_bytes_roundtrip(tag: u32, idv: u32, data: Seq<u8>, rest: Seq<u8>)
    ensures
        ({
            let et = crate::codec::spec_enc_varint(tag as nat);
            let ei = crate::codec::spec_enc_varint(idv as nat);
            let eb = crate::codec::spec_enc_bytes(data);
            let whole = et + ei + eb + rest;
            &&& crate::codec::spec_dec_u32(whole) == Some((tag, et.len() as int))
            &&& whole.skip(et.len() as int) == ei + (eb + rest)
            &&& crate::codec::spec_dec_u32(whole.skip(et.len() as int)) == Some(
                (idv, ei.len() as int),
            )
            &&& whole.skip((et.len() + ei.len()) as int) == eb + rest
            &&& crate::codec::spec_dec_bytes(whole.skip((et.len() + ei.len()) as int)) == Some(
                (data, eb.len() as int),
            )
        }),
{
    let et = crate::codec::spec_enc_varint(tag as nat);
    let ei = crate::codec::spec_enc_varint(idv as nat);
    let eb = crate::codec::spec_enc_bytes(data);
    let whole = et + ei + eb + rest;
    assert(whole =~= et + (ei + (eb + rest)));
    crate::codec::lemma_u32_roundtrip(tag, ei + (eb + rest));
    crate::codec::lemma_skip_concat(et, ei + (eb + rest));
    crate::codec::lemma_u32_roundtrip(idv, eb + rest);
    crate::codec::lemma_skip_concat(ei, eb + rest);
    crate::codec::lemma_skip_two(whole, et.len() as int, ei.len() as int);
    crate::codec::lemma_bytes_roundtrip(data, rest);
}

/// Decoding reads back exactly the message that encoding wrote.
#[verifier::rlimit(90)]
#[verifier::spinoff_prover]
pub proof fn lemma_server_message_roundtrip(m: ServerMessageV, rest: Seq<u8>)
    ensures
        spec_dec_server_message(spec_enc_server_message(m) + rest) == Some(
            (m, spec_enc_server_message(m).len() as int),
        ),
{
    let whole = spec_enc_server_message(m) + rest;
    match m {
        ServerMessageV::FullState(id, world) => {
            lemma_tag_id_bytes_roundtrip(0, id.0, world, rest);
            assert(whole =~= crate::codec::spec_enc_varint(0) + crate::codec::spec_enc_varint(
                id.0 as nat,
            ) + crate::codec::spec_enc_bytes(world) + rest);
        },
        ServerMessageV::NewClient(c) => {
            let et = crate::codec::spec_enc_varint(1);
            let ec = crate::client::spec_enc_client(c);
            assert(whole =~= et + (ec + rest));
            crate::codec::lemma_u32_roundtrip(1, ec + rest);
            crate::codec::lemma_skip_concat(et, ec + rest);
            crate::client::lemma_client_roundtrip(c, rest);
        },
        ServerMessageV::ClientLeft(id) => {
            let et = crate::codec::spec_enc_varint(2);
            let ei = crate::codec::spec_enc_varint(id.0 as nat);
            assert(whole =~= et + (ei + rest));
            crate::codec::lemma_u32_roundtrip(2, ei + rest);
            crate::codec::lemma_skip_concat(et, ei + rest);
            crate::codec::lemma_u32_roundtrip(id.0, rest);
        },
        ServerMessageV::UpdateState(entries) => {
            let et = crate::codec::spec_enc_varint(3);
            let en = crate::codec::spec_enc_varint(entries.len() as nat);
            let eu = spec_enc_updates(entries);
            assert(whole =~= et + (en + (eu + rest)));
            crate::codec::lemma_u32_roundtrip(3, en + (eu + rest));
            crate::codec::lemma_skip_concat(et, en + (eu + rest));
            crate::codec::lemma_varint_roundtrip(entries.len() as nat, eu + rest);
            crate::codec::lemma_skip_concat(en, eu + rest);
            crate::codec::lemma_skip_two(whole, et.len() as int, en.len() as int);
            lemma_updates_roundtrip(entries, rest);
        },
        ServerMessageV::Chat(id, text) => {
            let et = crate::codec::spec_enc_varint(4);
            let ei = crate::codec::spec_enc_varint(id.0 as nat);
            let es = crate::codec::spec_enc_str(text);
            assert(whole =~= et + (ei + (es + rest)));
            crate::codec::lemma_u32_roundtrip(4, ei + (es + rest));
            crate::codec::lemma_skip_concat(et, ei + (es + rest));
            crate::codec::lemma_u32_roundtrip(id.0, es + rest);
            crate::codec::lemma_skip_concat(ei, es + rest);
            crate::codec::lemma_skip_two(whole, et.len() as int, ei.len() as int);
            crate::codec::lemma_str_roundtrip(text, rest);
        },
        ServerMessageV::SpecialEvent { event, active } => {
            let et = crate::codec::spec_enc_varint(5);
            let ee = crate::codec::spec_enc_varint(
                match event {
                    SpecialEvent::BeachEpisode => 0,
                },
            );
            let ea = crate::codec::spec_enc_bool(active);
            assert(whole =~= et + (ee + (ea + rest)));
            crate::codec::lemma_u32_roundtrip(5, ee + (ea + rest));
            crate::codec::lemma_skip_concat(et, ee + (ea + rest));
            crate::codec::lemma_u32_roundtrip(0, ea + rest);
            crate::codec::lemma_skip_concat(ee, ea + rest);
            crate::codec::lemma_skip_two(whole, et.len() as int, ee.len() as int);
            crate::codec::lemma_bool_roundtrip(active, rest);
        },
        ServerMessageV::NewObject(oid, bytes) => {
            lemma_tag_id_bytes_roundtrip(6, oid.0, bytes, rest);
            assert(whole =~= crate::codec::spec_enc_varint(6) + crate::codec::spec_enc_varint(
                oid.0 as nat,
            ) + crate::codec::spec_enc_bytes(bytes) + rest);
        },
        ServerMessageV::UpdateObject(oid, bytes) => {
            lemma_tag_id_bytes_roundtrip(7, oid.0, bytes, rest);
            assert(whole =~= crate::codec::spec_enc_varint(7) + crate::codec::spec_enc_varint(
                oid.0 as nat,
            ) + crate::codec::spec_enc_bytes(bytes) + rest);
        },
        ServerMessageV::DeleteObject(oid) => {
            let et = crate::codec::spec_enc_varint(8);
            let ei = crate::codec::spec_enc_varint(oid.0 as nat);
            assert(whole =~= et + (ei + rest));
            crate::codec::lemma_u32_roundtrip(8, ei + rest);
            crate::codec::lemma_skip_concat(et, ei + rest);
            crate::codec::lemma_u32_roundtrip(oid.0, rest);
        },
    }
}

impl ServerMessage {
    /// Encode this message for the wire.
    #[verifier::rlimit(90)]
    pub fn to_bytes(&self) -> (r: Vec<u8>)
        ensures
            r@ == spec_enc_server_message(self@),
    {
        let mut out: Vec<u8> = Vec::new();
        match self {
            ServerMessage::FullState(s) => {
                crate::codec::encode_varint_u64(&mut out, 0);
                crate::codec::encode_varint_u64(&mut out, s.0.as_u32() as u64);
                crate::codec::encode_bytes(&mut out, &s.1);
            },
            ServerMessage::NewClient(c) => {
                crate::codec::encode_varint_u64(&mut out, 1);
                crate::client::encode_client(&mut out, c);
            },
            ServerMessage::ClientLeft(id) => {
                crate::codec::encode_varint_u64(&mut out, 2);
                crate::codec::encode_varint_u64(&mut out, id.as_u32() as u64);
            },
            ServerMessage::UpdateState(entries) => {
                crate::codec::encode_varint_u64(&mut out, 3);
                crate::codec::encode_varint_u64(&mut out, entries.len() as u64);
                encode_updates(&mut out, entries);
            },
            ServerMessage::Chat(id, text) => {
                crate::codec::encode_varint_u64(&mut out, 4);
                crate::codec::encode_varint_u64(&mut out, id.as_u32() as u64);
                crate::codec::encode_string(&mut out, text.as_str());
            },
            ServerMessage::SpecialEvent { event, active } => {
                crate::codec::encode_varint_u64(&mut out, 5);
                let etag: u64 = match event {
                    SpecialEvent::BeachEpisode => 0,
                };
                crate::codec::encode_varint_u64(&mut out, etag);
                crate::codec::encode_bool(&mut out, *active);
            },
            ServerMessage::NewObject(oid, o) => {
                crate::codec::encode_varint_u64(&mut out, 6);
                crate::codec::encode_varint_u64(&mut out, oid.as_u32() as u64);
                crate::codec::encode_bytes(&mut out, &o.0);
            },
            ServerMessage::UpdateObject(oid, data) => {
                crate::codec::encode_varint_u64(&mut out, 7);
                crate::codec::encode_varint_u64(&mut out, oid.as_u32() as u64);
                crate::codec::encode_bytes(&mut out, data);
            },
            ServerMessage::DeleteObject(oid) => {
                crate::codec::encode_varint_u64(&mut out, 8);
                crate::codec::encode_varint_u64(&mut out, oid.as_u32() as u64);
            },
        }
        assert(out@ =~= spec_enc_server_message(self@));
        out
    }

    /// Decode one message from the front of `bytes`. Trailing bytes after
    /// the message are ignored, as the transport frames messages itself.
    #[verifier::rlimit(90)]
    #[verifier::spinoff_prover]
    pub fn from_bytes(bytes: &[u8]) -> (r: Result<ServerMessage, crate::codec::DecodeError>)
        ensures
            match spec_dec_server_message(bytes@) {
                Some(d) => r matches Ok(m) && m@ == d.0,
                None => r matches Err(e) && e == crate::codec::DecodeError::Malformed,
            },
    {
        let total = bytes.len();
        assert(bytes@.skip(0) =~= bytes@);
        proof {
            crate::codec::lemma_dec_u32_bounds(bytes@);
        }
        match crate::codec::decode_u32(bytes, 0) {
            None => Err(crate::codec::DecodeError::Malformed),
            Some((tag, p1)) => {
                assert(bytes@.skip(p1 as int) =~= bytes@.skip(0).skip(p1 as int));
                if tag == 0 {
                    proof {
                        crate::codec::lemma_dec_u32_bounds(bytes@.skip(p1 as int));
                    }
                    match crate::codec::decode_u32(bytes, p1) {
                        None => Err(crate::codec::DecodeError::Malformed),
                        Some((raw, p2)) => {
                            proof {
                                crate::codec::lemma_skip_two(bytes@, p1 as int, p2 - p1);
                            }
                            match crate::codec::decode_bytes(bytes, p2) {
                                None => Err(crate::codec::DecodeError::Malformed),
                                Some((data, _)) => Ok(
                                    ServerMessage::FullState(
                                        SerializedClientGameState(ClientId::from_u32(raw), data),
                                    ),
                                ),
                            }
                        },
                    }
                } else if tag == 1 {
                    match crate::client::decode_client(bytes, p1) {
                        None => Err(crate::codec::DecodeError::Malformed),
                        Some((c, _)) => Ok(ServerMessage::NewClient(c)),
                    }
                } else if tag == 2 {
                    match crate::codec::decode_u32(bytes, p1) {
                        None => Err(crate::codec::DecodeError::Malformed),
                        Some((raw, _)) => Ok(
                            ServerMessage::ClientLeft(ClientId::from_u32(raw)),
                        ),
                    }
                } else if tag == 3 {
                    proof {
                        crate::codec::lemma_dec_varint_bounds(bytes@.skip(p1 as int));
                        let dn = crate::codec::spec_dec_varint(bytes@.skip(p1 as int));
                        if dn is Some && dn->Some_0.0 > u64::MAX {
                            crate::codec::lemma_skip_two(bytes@, p1 as int, dn->Some_0.1);
                            assert(bytes@.skip(p1 + dn->Some_0.1).len() <= bytes@.len());
                            lemma_dec_updates_overrun(
                                bytes@.skip(p1 + dn->Some_0.1),
                                dn->Some_0.0,
                            );
                        }
                    }
                    match crate::codec::decode_varint_u64(bytes, p1) {
                        None => Err(crate::codec::DecodeError::Malformed),
                        Some((count, p2)) => {
                            proof {
                                crate::codec::lemma_skip_two(bytes@, p1 as int, p2 - p1);
                            }
                            match decode_updates(bytes, p2, count) {
                                None => Err(crate::codec::DecodeError::Malformed),
                                Some((entries, _)) => Ok(ServerMessage::UpdateState(entries)),
                            }
                        },
                    }
                } else if tag == 4 {
                    proof {
                        crate::codec::lemma_dec_u32_bounds(bytes@.skip(p1 as int));
                    }
                    match crate::codec::decode_u32(bytes, p1) {
                        None => Err(crate::codec::DecodeError::Malformed),
                        Some((raw, p2)) => {
                            proof {
                                crate::codec::lemma_skip_two(bytes@, p1 as int, p2 - p1);
                            }
                            match crate::codec::decode_string(bytes, p2) {
                                None => Err(crate::codec::DecodeError::Malformed),
                                Some((text, _)) => Ok(
                                    ServerMessage::Chat(ClientId::from_u32(raw), text),
                                ),
                            }
                        },
                    }
                } else if tag == 5 {
                    proof {
                        crate::codec::lemma_dec_u32_bounds(bytes@.skip(p1 as int));
                    }
                    match crate::codec::decode_u32(bytes, p1) {
                        None => Err(crate::codec::DecodeError::Malformed),
                        Some((etag, p2)) => {
                            if etag == 0 {
                                proof {
                                    crate::codec::lemma_skip_two(bytes@, p1 as int, p2 - p1);
                                }
                                match crate::codec::decode_bool(bytes, p2) {
                                    None => Err(crate::codec::DecodeError::Malformed),
                                    Some((active, _)) => Ok(
                                        ServerMessage::SpecialEvent {
                                            event: SpecialEvent::BeachEpisode,
                                            active,
                                        },
                                    ),
                                }
                            } else {
                                Err(crate::codec::DecodeError::Malformed)
                            }
                        },
                    }
                } else if tag == 6 {
                    proof {
                        crate::codec::lemma_dec_u32_bounds(bytes@.skip(p1 as int));
                    }
                    match crate::codec::decode_u32(bytes, p1) {
                        None => Err(crate::codec::DecodeError::Malformed),
                        Some((raw, p2)) => {
                            proof {
                                crate::codec::lemma_skip_two(bytes@, p1 as int, p2 - p1);
                            }
                            match crate::codec::decode_bytes(bytes, p2) {
                                None => Err(crate::codec::DecodeError::Malformed),
                                Some((data, _)) => Ok(
                                    ServerMessage::NewObject(
                                        ObjectId::from_u32(raw),
                                        SerializedNetworkObject(data),
                                    ),
                                ),
                            }
                        },
                    }
                } else if tag == 7 {
                    proof {
                        crate::codec::lemma_dec_u32_bounds(bytes@.skip(p1 as int));
                    }
                    match crate::codec::decode_u32(bytes, p1) {
                        None => Err(crate::codec::DecodeError::Malformed),
                        Some((raw, p2)) => {
                            proof {
                                crate::codec::lemma_skip_two(bytes@, p1 as int, p2 - p1);
                            }
                            match crate::codec::decode_bytes(bytes, p2) {
                                None => Err(crate::codec::DecodeError::Malformed),
                                Some((data, _)) => Ok(
                                    ServerMessage::UpdateObject(ObjectId::from_u32(raw), data),
                                ),
                            }
                        },
                    }
                } else if tag == 8 {
                    match crate::codec::decode_u32(bytes, p1) {
                        None => Err(crate::codec::DecodeError::Malformed),
                        Some((raw, _)) => Ok(
                            ServerMessage::DeleteObject(ObjectId::from_u32(raw)),
                        ),
                    }
                } else {
                    Err(crate::codec::DecodeError::Malformed)
                }
            },
        }
    }
}

/// The start-of-tick snapshot: every object's hitbox (if any) and collision
/// record, taken before anything moves, so collision tests are
/// order-independent within the tick.
pub open spec fn spec_snapshot(objects: Seq<(ObjectId, BoxedNetworkObject)>) -> Seq<
    (Option<Rect>, CollisionInfo),
> {
    objects.map(
        |i: int, o: (ObjectId, BoxedNetworkObject)|
            (
                crate::object::spec_world_hitbox(
                    crate::network_object::spec_object_properties(o.1.object),
                ),
                crate::network_object::spec_object_collision_info(o.1.object),
            ),
    )
}

/// Whether the snapshot hitboxes of two distinct objects overlap.
pub open spec fn spec_collides(
    snap: Seq<(Option<Rect>, CollisionInfo)>,
    i: int,
    j: int,
) -> bool {
    &&& i != j
    &&& snap[i].0 is Some
    &&& snap[j].0 is Some
    &&& spec_intersects(snap[i].0->0, snap[j].0->0)
}

/// The indexes below `k` whose snapshot hitbox overlaps object `i`'s, in
/// increasing order.
pub open spec fn spec_collider_idx_upto(
    snap: Seq<(Option<Rect>, CollisionInfo)>,
    i: int,
    k: int,
) -> Seq<int>
    decreases k,
{
    if k <= 0 {
        Seq::<int>::empty()
    } else if spec_collides(snap, i, k - 1) {
        spec_collider_idx_upto(snap, i, k - 1).push(k - 1)
    } else {
        spec_collider_idx_upto(snap, i, k - 1)
    }
}

/// The pre-tick collision records handed to object `i` during its tick: the
/// records of every other object whose snapshot hitbox overlaps its own,
/// each exactly once, in index order.
pub open spec fn spec_colliders(snap: Seq<(Option<Rect>, CollisionInfo)>, i: int) -> Seq<
    CollisionInfo,
> {
    spec_collider_idx_upto(snap, i, snap.len() as int).map(|p: int, j: int| snap[j].1)
}

/// An index appears in the collider list exactly when the two snapshot
/// hitboxes overlap, and every listed index is in range.
pub proof fn lemma_collider_idx_membership(
    snap: Seq<(Option<Rect>, CollisionInfo)>,
    i: int,
    k: int,
    j: int,
)
    requires
        0 <= k,
    ensures
        spec_collider_idx_upto(snap, i, k).contains(j) <==> (0 <= j < k && spec_collides(
            snap,
            i,
            j,
        )),
    decreases k,
{
    let idx = spec_collider_idx_upto(snap, i, k);
    if k > 0 {
        lemma_collider_idx_membership(snap, i, k - 1, j);
        let prev = spec_collider_idx_upto(snap, i, k - 1);
        if spec_collides(snap, i, k - 1) {
            assert(idx == prev.push(k - 1));
            if j == k - 1 {
                assert(idx[idx.len() - 1] == j);
                assert(idx.contains(j));
            } else {
                if idx.contains(j) {
                    let p = choose|p: int| 0 <= p < idx.len() && idx[p] == j;
                    assert(prev[p] == j || p == idx.len() - 1);
                    assert(prev.contains(j) || j == k - 1);
                }
                if prev.contains(j) {
                    let p = choose|p: int| 0 <= p < prev.len() && prev[p] == j;
                    assert(idx[p] == j);
                    assert(idx.contains(j));
                }
            }
        } else {
            if j == k - 1 {
                if idx.contains(j) {
                    assert(0 <= j < k - 1 && spec_collides(snap, i, j));
                }
            }
        }
    }
}

/// The collider indexes are strictly increasing, so no partner is listed
/// twice: each collision is delivered to each side exactly once.
pub proof fn lemma_collider_idx_sorted(snap: Seq<(Option<Rect>, CollisionInfo)>, i: int, k: int)
    requires
        0 <= k,
    ensures
        forall|a: int, b: int|
            0 <= a < b < spec_collider_idx_upto(snap, i, k).len()
                ==> #[trigger] spec_collider_idx_upto(snap, i, k)[a]
                < #[trigger] spec_collider_idx_upto(snap, i, k)[b],
        forall|p: int|
            0 <= p < spec_collider_idx_upto(snap, i, k).len()
                ==> 0 <= #[trigger] spec_collider_idx_upto(snap, i, k)[p] < k,
    decreases k,
{
    if k > 0 {
        lemma_collider_idx_sorted(snap, i, k - 1);
        let prev = spec_collider_idx_upto(snap, i, k - 1);
        let idx = spec_collider_idx_upto(snap, i, k);
        if spec_collides(snap, i, k - 1) {
            assert(idx == prev.push(k - 1));
            assert forall|a: int, b: int|
                0 <= a < b < idx.len() implies #[trigger] idx[a] < #[trigger] idx[b] by {
                if b < idx.len() - 1 {
                    assert(idx[a] == prev[a] && idx[b] == prev[b]);
                } else {
                    assert(idx[b] == k - 1);
                    assert(idx[a] == prev[a]);
                    assert(prev[a] < k - 1);
                }
            }
            assert forall|p: int| 0 <= p < idx.len() implies 0 <= #[trigger] idx[p] < k by {
                if p < idx.len() - 1 {
                    assert(idx[p] == prev[p]);
                }
            }
        }
    }
}

/// Collision symmetry: when the snapshot hitboxes of two dynamic objects
/// overlap during one tick, each object's collider list carries the other —
/// each receives the other's pre-tick collision record, and (by the strict
/// ordering of the lists) receives it exactly once.
pub proof fn lemma_collision_symmetry(snap: Seq<(Option<Rect>, CollisionInfo)>, i: int, j: int)
    requires
        0 <= i < snap.len(),
        0 <= j < snap.len(),
        spec_collides(snap, i, j),
    ensures
        spec_collides(snap, j, i),
        spec_collider_idx_upto(snap, i, snap.len() as int).contains(j),
        spec_collider_idx_upto(snap, j, snap.len() as int).contains(i),
        spec_colliders(snap, i).contains(snap[j].1),
        spec_colliders(snap, j).contains(snap[i].1),
{
    crate::geometry::lemma_intersects_symmetric(snap[i].0->0, snap[j].0->0);
    lemma_collider_idx_membership(snap, i, snap.len() as int, j);
    lemma_collider_idx_membership(snap, j, snap.len() as int, i);
    let idx_i = spec_collider_idx_upto(snap, i, snap.len() as int);
    let idx_j = spec_collider_idx_upto(snap, j, snap.len() as int);
    let p = choose|p: int| 0 <= p < idx_i.len() && idx_i[p] == j;
    assert(spec_colliders(snap, i)[p] == snap[j].1);
    let q = choose|q: int| 0 <= q < idx_j.len() && idx_j[q] == i;
    assert(spec_colliders(snap, j)[q] == snap[i].1);
}

/// The objects after the physics phase: each ticked against the others'
/// start-of-tick snapshot.
pub open spec fn spec_phase_a(
    objects: Seq<(ObjectId, BoxedNetworkObject)>,
    delta_ms: u64,
) -> Seq<(ObjectId, BoxedNetworkObject)> {
    objects.map(
        |i: int, o: (ObjectId, BoxedNetworkObject)|
            (
                o.0,
                BoxedNetworkObject {
                    id: o.1.id,
                    object: crate::network_object::spec_object_ticked(
                        o.1.object,
                        delta_ms,
                        spec_colliders(spec_snapshot(objects), i),
                    ),
                },
            ),
    )
}

/// The objects after their own per-tick server work.
pub open spec fn spec_phase_b(objects: Seq<(ObjectId, BoxedNetworkObject)>) -> Seq<
    (ObjectId, BoxedNetworkObject),
> {
    objects.map(
        |i: int, o: (ObjectId, BoxedNetworkObject)|
            (
                o.0,
                BoxedNetworkObject {
                    id: o.1.id,
                    object: crate::network_object::spec_object_server_ticked(o.1.object),
                },
            ),
    )
}

/// The object-update broadcasts of one tick, in object order: one per
/// object whose server work produced an observable change.
pub open spec fn spec_object_msgs(objects: Seq<(ObjectId, BoxedNetworkObject)>) -> Seq<
    (NotifyTarget, ServerMessageV),
>
    decreases objects.len(),
{
    if objects.len() == 0 {
        Seq::<(NotifyTarget, ServerMessageV)>::empty()
    } else {
        (match crate::network_object::spec_object_server_msg(objects[0].1.object) {
            Option::Some(bytes) => seq![
                (NotifyTarget::All, ServerMessageV::UpdateObject(objects[0].0, bytes)),
            ],
            Option::None => Seq::<(NotifyTarget, ServerMessageV)>::empty(),
        }) + spec_object_msgs(objects.skip(1))
    }
}

/// Appending one object appends its broadcast, if any.
proof fn lemma_object_msgs_push(
    objects: Seq<(ObjectId, BoxedNetworkObject)>,
    entry: (ObjectId, BoxedNetworkObject),
)
    ensures
        spec_object_msgs(objects.push(entry)) == spec_object_msgs(objects) + (match
            crate::network_object::spec_object_server_msg(entry.1.object) {
            Option::Some(bytes) => seq![
                (NotifyTarget::All, ServerMessageV::UpdateObject(entry.0, bytes)),
            ],
            Option::None => Seq::<(NotifyTarget, ServerMessageV)>::empty(),
        }),
    decreases objects.len(),
{
    let snoc = objects.push(entry);
    let e = match crate::network_object::spec_object_server_msg(entry.1.object) {
        Option::Some(bytes) => seq![
            (NotifyTarget::All, ServerMessageV::UpdateObject(entry.0, bytes)),
        ],
        Option::None => Seq::<(NotifyTarget, ServerMessageV)>::empty(),
    };
    if objects.len() == 0 {
        assert(snoc[0] == entry);
        assert(snoc.skip(1) =~= Seq::<(ObjectId, BoxedNetworkObject)>::empty());
        assert(spec_object_msgs(Seq::<(ObjectId, BoxedNetworkObject)>::empty()) =~= Seq::<
            (NotifyTarget, ServerMessageV),
        >::empty());
        assert(spec_object_msgs(snoc) =~= e);
        assert(spec_object_msgs(objects) + e =~= e);
    } else {
        assert(snoc[0] == objects[0]);
        assert(snoc.skip(1) =~= objects.skip(1).push(entry));
        lemma_object_msgs_push(objects.skip(1), entry);
        let h = match crate::network_object::spec_object_server_msg(objects[0].1.object) {
            Option::Some(bytes) => seq![
                (NotifyTarget::All, ServerMessageV::UpdateObject(objects[0].0, bytes)),
            ],
            Option::None => Seq::<(NotifyTarget, ServerMessageV)>::empty(),
        };
        assert(spec_object_msgs(snoc) =~= spec_object_msgs(objects) + e);
    }
}

/// Tick conservation, object side: the object broadcasts of a tick are all
/// `UpdateObject` messages to everyone; none is a player-state broadcast.
pub proof fn lemma_object_msgs_kinds(objects: Seq<(ObjectId, BoxedNetworkObject)>)
    ensures
        forall|k: int|
            0 <= k < spec_object_msgs(objects).len() ==> (#[trigger] spec_object_msgs(objects)[k]).0
                == NotifyTarget::All && spec_object_msgs(objects)[k].1 is UpdateObject,
    decreases objects.len(),
{
    if objects.len() > 0 {
        lemma_object_msgs_kinds(objects.skip(1));
    }
}

/// The first queued delta for `id`, if any.
pub open spec fn spec_action_for(
    queued: Seq<(ClientId, ClientAction)>,
    id: ClientId,
) -> Option<ClientAction> {
    match spec_find_queued(queued, id) {
        Option::Some(i) => Option::Some(queued[i].1),
        Option::None => Option::None,
    }
}

/// A player value after a delta, at the abstract level.
pub open spec fn spec_applied_v(c: ClientV, action: ClientAction) -> ClientV {
    let mid = match action.movement {
        Option::Some(crate::client::ClientActionMovement::Move(p, d)) => ClientV {
            position: p,
            movement: d,
            look_direction: if d != crate::client::MoveDirection::Still {
                d
            } else {
                c.look_direction
            },
            ..c
        },
        Option::Some(crate::client::ClientActionMovement::Look(d)) => ClientV {
            look_direction: d,
            ..c
        },
        Option::None => c,
    };
    match action.typing {
        Option::Some(t) => ClientV { typing: t, ..mid },
        Option::None => mid,
    }
}

/// The players after the queued deltas of one tick: each player with a
/// pending delta has it applied.
pub open spec fn spec_clients_after_actions(
    clients: Seq<ClientV>,
    queued: Seq<(ClientId, ClientAction)>,
) -> Seq<ClientV> {
    clients.map(
        |i: int, c: ClientV|
            match spec_action_for(queued, c.id) {
                Option::Some(a) => spec_applied_v(c, a),
                Option::None => c,
            },
    )
}

/// Applying a delta at the exec level matches the abstract level.
pub proof fn lemma_applied_view_pub(c: Client, action: ClientAction)
    ensures
        (c.spec_applied(action))@ == spec_applied_v(c@, action),
{
}

/// How many beach balls the beach episode scatters across the world.
pub const BEACH_BALL_COUNT: usize = 500;

#[verifier::external_type_specification]
#[verifier::external_body]
pub struct ExStdRng(rand::rngs::StdRng);

/// Relies on rand's `SeedableRng::seed_from_u64` for `StdRng`: a
/// deterministic generator built from the seed.
#[verifier::external_body]
fn std_rng_from_seed(seed: u64) -> rand::rngs::StdRng {
    rand::SeedableRng::seed_from_u64(seed)
}

/// Relies on rand's `Rng::gen_range`: some value inside the given
/// half-open range. Nothing more is promised of which value comes out.
#[verifier::external_body]
fn rng_range(rng: &mut rand::rngs::StdRng, lo: i64, hi: i64) -> (r: i64)
    requires
        lo < hi,
    ensures
        lo <= r < hi,
{
    rand::Rng::gen_range(rng, lo..hi)
}

/// The object entries whose kind tag is not `kind_id`.
pub open spec fn spec_objects_without_kind(
    objects: Seq<(ObjectId, BoxedNetworkObject)>,
    kind_id: crate::ids::NetworkObjectId,
) -> Seq<(ObjectId, BoxedNetworkObject)>
    decreases objects.len(),
{
    if objects.len() == 0 {
        objects
    } else if objects[0].1.id == kind_id {
        spec_objects_without_kind(objects.skip(1), kind_id)
    } else {
        seq![objects[0]] + spec_objects_without_kind(objects.skip(1), kind_id)
    }
}

/// One `DeleteObject` broadcast per removed entry, in order.
pub open spec fn spec_delete_msgs(
    objects: Seq<(ObjectId, BoxedNetworkObject)>,
    kind_id: crate::ids::NetworkObjectId,
) -> Seq<(NotifyTarget, ServerMessageV)>
    decreases objects.len(),
{
    if objects.len() == 0 {
        Seq::<(NotifyTarget, ServerMessageV)>::empty()
    } else {
        (if objects[0].1.id == kind_id {
            seq![(NotifyTarget::All, ServerMessageV::DeleteObject(objects[0].0))]
        } else {
            Seq::<(NotifyTarget, ServerMessageV)>::empty()
        }) + spec_delete_msgs(objects.skip(1), kind_id)
    }
}

impl ServerGameState {
    /// Whether the given world-wide event is active.
    pub fn get_special_event(&self, event: SpecialEvent) -> (r: bool)
        ensures
            r == match event {
                SpecialEvent::BeachEpisode => self.world@.special_events.beach_episode,
            },
    {
        self.world.get_special_event(event)
    }

    /// Give one object a home in the world: mint its instance id, announce
    /// it to everyone, and store it.
    fn add_network_object(&mut self, object: BoxedNetworkObject) -> (r: (
        ObjectId,
        (NotifyTarget, ServerMessage),
    ))
        requires
            spec_server_wf(*old(self)),
            old(self).object_ids.next < u32::MAX,
        ensures
            spec_server_wf(*final(self)),
            r.0.0 == old(self).object_ids.next,
            final(self).object_ids.next == old(self).object_ids.next + 1,
            final(self).world@.network_objects == old(self).world@.network_objects.push(
                (r.0, object),
            ),
            final(self).world@.clients == old(self).world@.clients,
            final(self).world@.special_events == old(self).world@.special_events,
            final(self).connected == old(self).connected,
            final(self).queued_moves == old(self).queued_moves,
            final(self).registry == old(self).registry,
            spec_delivery_view(r.1) == (
                NotifyTarget::All,
                ServerMessageV::NewObject(r.0, spec_enc_boxed(object)),
            ),
    {
        let id = ObjectId::new(&mut self.object_ids);
        let message = (
            NotifyTarget::All,
            ServerMessage::NewObject(id, SerializedNetworkObject::new(&object)),
        );
        let ghost before = self.world.network_objects@;
        self.world.network_objects.push((id, object));
        proof {
            assert forall|a: int, b: int|
                0 <= a < b < self.world@.network_objects.len() implies (
            #[trigger] self.world@.network_objects[a]).0 != (
            #[trigger] self.world@.network_objects[b]).0 by {
                if b == self.world@.network_objects.len() - 1 {
                    assert(self.world@.network_objects[a] == before[a]);
                    assert(before[a].0.0 < id.0);
                } else {
                    assert(self.world@.network_objects[a] == before[a]);
                    assert(self.world@.network_objects[b] == before[b]);
                }
            }
            assert forall|a: int|
                0 <= a < self.world@.network_objects.len() implies (
            #[trigger] self.world@.network_objects[a]).0.0 < self.object_ids.next by {
                if a < self.world@.network_objects.len() - 1 {
                    assert(self.world@.network_objects[a] == before[a]);
                }
            }
        }
        (id, message)
    }

    /// Switch a world-wide event. Turning the beach episode on scatters
    /// beach balls at generator-chosen positions inside a fixed area and
    /// announces each; turning it off removes every beach-ball object and
    /// announces each removal. Either way the new flag value is broadcast
    /// last.
    pub fn set_special_event(&mut self, event: SpecialEvent, active: bool) -> (r: Vec<
        (NotifyTarget, ServerMessage),
    >)
        requires
            spec_server_wf(*old(self)),
            crate::network_object::spec_lookup_id(
                old(self).registry.entries@,
                crate::network_object::NetworkObjectKind::BeachBall,
            ) is Some,
            old(self).object_ids.next + BEACH_BALL_COUNT < u32::MAX,
        ensures
            spec_server_wf(*final(self)),
            final(self).connected == old(self).connected,
            final(self).registry == old(self).registry,
            final(self).queued_moves == old(self).queued_moves,
            final(self).world@.clients == old(self).world@.clients,
            final(self).world@.special_events == match event {
                SpecialEvent::BeachEpisode => crate::world::SpecialEventState {
                    beach_episode: active,
                },
            },
            r@.len() >= 1,
            spec_delivery_view(r@.last()) == (
                NotifyTarget::All,
                ServerMessageV::SpecialEvent { event, active },
            ),
            active ==> {
                &&& final(self).world@.network_objects.len() == old(
                    self,
                ).world@.network_objects.len() + BEACH_BALL_COUNT
                &&& r@.len() == BEACH_BALL_COUNT + 1
                &&& forall|k: int|
                    0 <= k < old(self).world@.network_objects.len()
                        ==> #[trigger] final(self).world@.network_objects[k] == old(
                        self,
                    ).world@.network_objects[k]
                &&& forall|k: int|
                    0 <= k < BEACH_BALL_COUNT as int ==> {
                        let entry = #[trigger] final(self).world@.network_objects[old(
                            self,
                        ).world@.network_objects.len() + k];
                        &&& entry.1.object matches
                            crate::network_object::NetworkObjectValue::BeachBall(b)
                            && b.velocity == (0i64, 0i64) && b.queued_collision is None && -2000
                            <= b.properties.position.x < 2000 && -1000 <= b.properties.position.y
                            < 1000
                        &&& spec_delivery_view(r@[k]) == (
                            NotifyTarget::All,
                            ServerMessageV::NewObject(entry.0, spec_enc_boxed(entry.1)),
                        )
                    }
            },
            !active ==> {
                let kind_id = crate::network_object::spec_lookup_id(
                    old(self).registry.entries@,
                    crate::network_object::NetworkObjectKind::BeachBall,
                )->0;
                &&& final(self).world@.network_objects == spec_objects_without_kind(
                    old(self).world@.network_objects,
                    kind_id,
                )
                &&& spec_deliveries(r@) == spec_delete_msgs(
                    old(self).world@.network_objects,
                    kind_id,
                ).push((NotifyTarget::All, ServerMessageV::SpecialEvent { event, active }))
            },
    {
        let mut out: Vec<(NotifyTarget, ServerMessage)> = Vec::new();
        let ball_id = match crate::network_object::get_network_object_id(
            &self.registry,
            crate::network_object::NetworkObjectKind::BeachBall,
        ) {
            Some(id) => id,
            None => {
                proof {
                    assert(false);
                }
                crate::ids::NetworkObjectId(0)
            },
        };
        if active {
            let mut rng = std_rng_from_seed(0);
            let mut spawned: usize = 0;
            let ghost baseline = self.world@.network_objects;
            let ghost base_next = self.object_ids.next;
            while spawned < BEACH_BALL_COUNT
                invariant
                    spawned <= BEACH_BALL_COUNT,
                    spec_server_wf(*self),
                    crate::network_object::spec_lookup_id(
                        self.registry.entries@,
                        crate::network_object::NetworkObjectKind::BeachBall,
                    ) is Some,
                    self.object_ids.next == base_next + spawned,
                    base_next + BEACH_BALL_COUNT < u32::MAX,
                    self.world@.network_objects.len() == baseline.len() + spawned,
                    self.world@.clients == old(self).world@.clients,
                    self.world@.special_events == old(self).world@.special_events,
                    self.connected == old(self).connected,
                    self.queued_moves == old(self).queued_moves,
                    self.registry == old(self).registry,
                    forall|k: int|
                        0 <= k < baseline.len() ==> #[trigger] self.world@.network_objects[k]
                            == baseline[k],
                    out@.len() == spawned,
                    forall|k: int|
                        0 <= k < spawned as int ==> {
                            let entry = #[trigger] self.world@.network_objects[baseline.len() + k];
                            &&& entry.1.object matches
                                crate::network_object::NetworkObjectValue::BeachBall(b)
                                && b.velocity == (0i64, 0i64) && b.queued_collision is None
                                && -2000 <= b.properties.position.x < 2000 && -1000
                                <= b.properties.position.y < 1000
                            &&& spec_delivery_view(out@[k]) == (
                                NotifyTarget::All,
                                ServerMessageV::NewObject(entry.0, spec_enc_boxed(entry.1)),
                            )
                        },
                decreases BEACH_BALL_COUNT - spawned,
            {
                let x = rng_range(&mut rng, -2000, 2000);
                let y = rng_range(&mut rng, -1000, 1000);
                let ball = crate::beach_ball::BeachBall::new(Position::new(x, y));
                let value = NetworkObjectValue::BeachBall(ball);
                let boxed = match BoxedNetworkObject::new(&self.registry, value) {
                    Some(b) => b,
                    None => {
                        proof {
                            assert(false);
                        }
                        BoxedNetworkObject { id: ball_id, object: value }
                    },
                };
                let ghost preobjs = self.world@.network_objects;
                let ghost preout = out@;
                let (_, message) = self.add_network_object(boxed);
                out.push(message);
                proof {
                    assert forall|k: int|
                        0 <= k < spawned + 1 implies {
                        let entry = #[trigger] self.world@.network_objects[baseline.len() + k];
                        &&& entry.1.object matches
                            crate::network_object::NetworkObjectValue::BeachBall(b)
                            && b.velocity == (0i64, 0i64) && b.queued_collision is None && -2000
                            <= b.properties.position.x < 2000 && -1000 <= b.properties.position.y
                            < 1000
                        &&& spec_delivery_view(out@[k]) == (
                            NotifyTarget::All,
                            ServerMessageV::NewObject(entry.0, spec_enc_boxed(entry.1)),
                        )
                    } by {
                        if k < spawned as int {
                            assert(self.world@.network_objects[baseline.len() + k] == preobjs[
                                baseline.len() + k]);
                            assert(out@[k] == preout[k]);
                        }
                    }
                }
                spawned = spawned + 1;
            }
            self.world.set_special_event(event, active);
            out.push((NotifyTarget::All, ServerMessage::SpecialEvent { event, active }));
        } else {
            let n = self.world.network_objects.len();
            let ghost oldobjs = self.world.network_objects@;
            let mut kept: Vec<(ObjectId, BoxedNetworkObject)> = Vec::new();
            let mut i: usize = 0;
            assert(oldobjs.skip(0) =~= oldobjs);
            while i < n
                invariant
                    i <= n,
                    n == oldobjs.len(),
                    self.world.network_objects@ == oldobjs,
                    kept@ + spec_objects_without_kind(oldobjs.skip(i as int), ball_id)
                        == spec_objects_without_kind(oldobjs, ball_id),
                    spec_deliveries(out@) + spec_delete_msgs(oldobjs.skip(i as int), ball_id)
                        == spec_delete_msgs(oldobjs, ball_id),
                decreases n - i,
            {
                let entry = self.world.network_objects[i];
                assert(oldobjs.skip(i as int)[0] == oldobjs[i as int]);
                assert(oldobjs.skip(i as int).skip(1) =~= oldobjs.skip(i + 1));
                if entry.1.id().as_u64() == ball_id.as_u64() {
                    assert(entry.1.id == ball_id);
                    let ghost preout = out@;
                    out.push((NotifyTarget::All, ServerMessage::DeleteObject(entry.0)));
                    assert(spec_deliveries(out@) =~= spec_deliveries(preout).push(
                        (NotifyTarget::All, ServerMessageV::DeleteObject(entry.0)),
                    ));
                    assert(spec_deliveries(out@) + spec_delete_msgs(oldobjs.skip(i + 1), ball_id)
                        =~= spec_delete_msgs(oldobjs, ball_id));
                } else {
                    assert(entry.1.id != ball_id);
                    kept.push(entry);
                    assert(kept@ + spec_objects_without_kind(oldobjs.skip(i + 1), ball_id)
                        =~= spec_objects_without_kind(oldobjs, ball_id));
                }
                i = i + 1;
            }
            assert(oldobjs.skip(n as int) =~= Seq::<(ObjectId, BoxedNetworkObject)>::empty());
            assert(spec_objects_without_kind(
                Seq::<(ObjectId, BoxedNetworkObject)>::empty(),
                ball_id,
            ) =~= Seq::<(ObjectId, BoxedNetworkObject)>::empty());
            assert(spec_delete_msgs(Seq::<(ObjectId, BoxedNetworkObject)>::empty(), ball_id)
                =~= Seq::<(NotifyTarget, ServerMessageV)>::empty());
            assert(kept@ =~= spec_objects_without_kind(oldobjs, ball_id));
            self.world.network_objects = kept;
            proof {
                lemma_objects_without_kind_wf(oldobjs, ball_id, self.object_ids.next);
            }
            self.world.set_special_event(event, active);
            let ghost preout = out@;
            out.push((NotifyTarget::All, ServerMessage::SpecialEvent { event, active }));
            assert(spec_deliveries(out@) =~= spec_deliveries(preout).push(
                (NotifyTarget::All, ServerMessageV::SpecialEvent { event, active }),
            ));
        }
        out
    }
}

/// Removing a kind keeps the remaining entries unique and below the
/// allocator bound.
proof fn lemma_objects_without_kind_wf(
    objects: Seq<(ObjectId, BoxedNetworkObject)>,
    kind_id: crate::ids::NetworkObjectId,
    bound: u32,
)
    requires
        forall|a: int, b: int|
            0 <= a < b < objects.len() ==> (#[trigger] objects[a]).0 != (#[trigger] objects[b]).0,
        forall|a: int| 0 <= a < objects.len() ==> (#[trigger] objects[a]).0.0 < bound,
    ensures
        ({
            let w = spec_objects_without_kind(objects, kind_id);
            &&& forall|a: int, b: int|
                0 <= a < b < w.len() ==> (#[trigger] w[a]).0 != (#[trigger] w[b]).0
            &&& forall|a: int| 0 <= a < w.len() ==> (#[trigger] w[a]).0.0 < bound
        }),
    decreases objects.len(),
{
    if objects.len() > 0 {
        assert(forall|a: int|
            0 <= a < objects.skip(1).len() ==> #[trigger] objects.skip(1)[a] == objects[a + 1]);
        lemma_objects_without_kind_wf(objects.skip(1), kind_id, bound);
        let wt = spec_objects_without_kind(objects.skip(1), kind_id);
        if objects[0].1.id != kind_id {
            let w = seq![objects[0]] + wt;
            assert forall|a: int, b: int|
                0 <= a < b < w.len() implies (#[trigger] w[a]).0 != (#[trigger] w[b]).0 by {
                if a == 0 {
                    assert(w[b] == wt[b - 1]);
                    lemma_objects_without_kind_member(objects.skip(1), kind_id, b - 1);
                    let j = choose|j: int|
                        0 <= j < objects.skip(1).len() && #[trigger] objects.skip(1)[j] == wt[b
                            - 1];
                    assert(objects[j + 1] == wt[b - 1]);
                } else {
                    assert(w[a] == wt[a - 1] && w[b] == wt[b - 1]);
                }
            }
        }
    }
}

/// Every kept entry stems from the list before the removal.
proof fn lemma_objects_without_kind_member(
    objects: Seq<(ObjectId, BoxedNetworkObject)>,
    kind_id: crate::ids::NetworkObjectId,
    p: int,
)
    requires
        0 <= p < spec_objects_without_kind(objects, kind_id).len(),
    ensures
        exists|j: int|
            0 <= j < objects.len() && #[trigger] objects[j] == spec_objects_without_kind(
                objects,
                kind_id,
            )[p],
    decreases objects.len(),
{
    let w = spec_objects_without_kind(objects, kind_id);
    if objects[0].1.id == kind_id {
        lemma_objects_without_kind_member(objects.skip(1), kind_id, p);
        let wt = spec_objects_without_kind(objects.skip(1), kind_id);
        let j = choose|j: int| 0 <= j < objects.skip(1).len() && #[trigger] objects.skip(1)[j] == wt[p];
        assert(objects[j + 1] == w[p]);
    } else {
        if p > 0 {
            lemma_objects_without_kind_member(objects.skip(1), kind_id, p - 1);
            let wt = spec_objects_without_kind(objects.skip(1), kind_id);
            let j = choose|j: int|
                0 <= j < objects.skip(1).len() && #[trigger] objects.skip(1)[j] == wt[p - 1];
            assert(objects[j + 1] == w[p]);
        } else {
            assert(objects[0] == w[0]);
        }
    }
}

/// Whether a world-wide event is active on this server.
pub fn get_special_event(state: &ServerGameState, event: SpecialEvent) -> (r: bool)
    ensures
        r == match event {
            SpecialEvent::BeachEpisode => state.world@.special_events.beach_episode,
        },
{
    state.get_special_event(event)
}

/// Switch a world-wide event on this server; the returned broadcasts end
/// with the new flag value for everyone.
pub fn set_special_event(
    state: &mut ServerGameState,
    event: SpecialEvent,
    active: bool,
) -> (r: Vec<(NotifyTarget, ServerMessage)>)
    requires
        spec_server_wf(*old(state)),
        crate::network_object::spec_lookup_id(
            old(state).registry.entries@,
            crate::network_object::NetworkObjectKind::BeachBall,
        ) is Some,
        old(state).object_ids.next + BEACH_BALL_COUNT < u32::MAX,
    ensures
        spec_server_wf(*final(state)),
        final(state).world@.special_events == match event {
            SpecialEvent::BeachEpisode => crate::world::SpecialEventState {
                beach_episode: active,
            },
        },
        r@.len() >= 1,
        spec_delivery_view(r@.last()) == (
            NotifyTarget::All,
            ServerMessageV::SpecialEvent { event, active },
        ),
{
    state.set_special_event(event, active)
}

/// The first object index in `objects` carrying `id`, if any.
pub fn find_object_in(
    objects: &Vec<(ObjectId, BoxedNetworkObject)>,
    id: ObjectId,
) -> (r: Option<usize>)
    ensures
        match spec_find_object(objects@, id) {
            Option::Some(i) => r == Some(i as usize),
            Option::None => r is None,
        },
{
    let mut i: usize = 0;
    assert(objects@.skip(0) =~= objects@);
    while i < objects.len()
        invariant
            i <= objects@.len(),
            match spec_find_object(objects@.skip(i as int), id) {
                Option::Some(j) => spec_find_object(objects@, id) == Option::Some(j + i),
                Option::None => spec_find_object(objects@, id) is None,
            },
        decreases objects@.len() - i,
    {
        let ghost q = objects@;
        assert(q.skip(i as int)[0] == q[i as int]);
        assert(q.skip(i as int).skip(1) =~= q.skip(i + 1));
        if objects[i].0.as_u32() == id.as_u32() {
            assert(objects@[i as int].0 == id);
            return Some(i);
        }
        i = i + 1;
    }
    assert(objects@.skip(i as int) =~= Seq::<(ObjectId, BoxedNetworkObject)>::empty());
    None
}

/// The first index in `queued` carrying `id`, if any.
fn find_action(queued: &Vec<(ClientId, ClientAction)>, id: ClientId) -> (r: Option<usize>)
    ensures
        match spec_find_queued(queued@, id) {
            Option::Some(i) => r == Some(i as usize),
            Option::None => r is None,
        },
{
    let mut i: usize = 0;
    assert(queued@.skip(0) =~= queued@);
    while i < queued.len()
        invariant
            i <= queued@.len(),
            match spec_find_queued(queued@.skip(i as int), id) {
                Option::Some(j) => spec_find_queued(queued@, id) == Option::Some(j + i),
                Option::None => spec_find_queued(queued@, id) is None,
            },
        decreases queued@.len() - i,
    {
        let ghost q = queued@;
        assert(q.skip(i as int)[0] == q[i as int]);
        assert(q.skip(i as int).skip(1) =~= q.skip(i + 1));
        if queued[i].0.as_u32() == id.as_u32() {
            assert(queued@[i as int].0 == id);
            return Some(i);
        }
        i = i + 1;
    }
    assert(queued@.skip(i as int) =~= Seq::<(ClientId, ClientAction)>::empty());
    None
}

impl ServerGameState {
    /// One authoritative tick: advance every object against the
    /// start-of-tick snapshot (each overlapping pair sees the other's
    /// pre-tick record on both sides), run every object's own server work
    /// and broadcast what it yields, then — only if any player deltas were
    /// queued since the previous tick — broadcast one batched state update
    /// holding exactly the coalesced entries, apply them, and clear the
    /// queue. With nothing queued, a tick produces no player-state
    /// broadcast at all.
    #[verifier::rlimit(90)]
    #[verifier::spinoff_prover]
    pub fn tick(&mut self, delta_ms: u64) -> (r: Vec<(NotifyTarget, ServerMessage)>)
        requires
            spec_server_wf(*old(self)),
        ensures
            spec_server_wf(*final(self)),
            final(self).connected == old(self).connected,
            final(self).registry == old(self).registry,
            final(self).object_ids == old(self).object_ids,
            final(self).world@.special_events == old(self).world@.special_events,
            final(self).world@.network_objects == spec_phase_b(
                spec_phase_a(old(self).world@.network_objects, delta_ms),
            ),
            final(self).world@.clients == spec_clients_after_actions(
                old(self).world@.clients,
                old(self).queued_moves@,
            ),
            final(self).queued_moves@.len() == 0,
            spec_deliveries(r@) == spec_object_msgs(
                spec_phase_a(old(self).world@.network_objects, delta_ms),
            ) + if old(self).queued_moves@.len() == 0 {
                Seq::<(NotifyTarget, ServerMessageV)>::empty()
            } else {
                seq![
                    (
                        NotifyTarget::All,
                        ServerMessageV::UpdateState(old(self).queued_moves@),
                    ),
                ]
            },
    {
        let ghost oldobjs = self.world.network_objects@;
        let ghost snap_spec = spec_snapshot(oldobjs);
        let n = self.world.network_objects.len();

        let mut snapshot: Vec<(Option<Rect>, CollisionInfo)> = Vec::new();
        let mut s: usize = 0;
        while s < n
            invariant
                s <= n,
                n == self.world.network_objects@.len(),
                self.world.network_objects@ == oldobjs,
                snap_spec == spec_snapshot(oldobjs),
                snapshot@ == snap_spec.take(s as int),
            decreases n - s,
        {
            let ghost pre = snapshot@;
            let hitbox = self.world.network_objects[s].1.hitbox();
            let info = self.world.network_objects[s].1.collision_info();
            snapshot.push((hitbox, info));
            proof {
                assert(snap_spec[s as int] == (hitbox, info));
                assert(snap_spec.take(s + 1) =~= pre.push(snap_spec[s as int]));
            }
            s = s + 1;
        }
        assert(snap_spec.take(n as int) =~= snap_spec);
        assert(snap_spec.len() == n);

        let ghost aspec = spec_phase_a(oldobjs, delta_ms);
        let mut i: usize = 0;
        while i < n
            invariant
                i <= n,
                n == self.world.network_objects@.len(),
                n == oldobjs.len(),
                snapshot@ == snap_spec,
                snap_spec == spec_snapshot(oldobjs),
                snap_spec.len() == n,
                aspec == spec_phase_a(oldobjs, delta_ms),
                forall|k: int|
                    0 <= k < i ==> #[trigger] self.world.network_objects@[k] == aspec[k],
                forall|k: int|
                    i <= k < n ==> #[trigger] self.world.network_objects@[k] == oldobjs[k],
                self.world.clients == old(self).world.clients,
                self.world.special_events == old(self).world.special_events,
                self.connected == old(self).connected,
                self.queued_moves == old(self).queued_moves,
                self.registry == old(self).registry,
                self.object_ids == old(self).object_ids,
            decreases n - i,
        {
            let mut colliders: Vec<CollisionInfo> = Vec::new();
            let mut k: usize = 0;
            while k < n
                invariant
                    k <= n,
                    i < n,
                    snapshot@ == snap_spec,
                    snap_spec.len() == n,
                    colliders@ == spec_collider_idx_upto(snap_spec, i as int, k as int).map(
                        |p: int, j: int| snap_spec[j].1,
                    ),
                decreases n - k,
            {
                let ghost previdx = spec_collider_idx_upto(snap_spec, i as int, k as int);
                let mut hit = false;
                if k != i {
                    match (snapshot[i].0, snapshot[k].0) {
                        (Some(hi), Some(hk)) => {
                            if hi.intersects(&hk) {
                                hit = true;
                            }
                        },
                        _ => {},
                    }
                }
                assert(hit == spec_collides(snap_spec, i as int, k as int));
                if hit {
                    colliders.push(snapshot[k].1);
                    proof {
                        let f = |p: int, j: int| snap_spec[j].1;
                        assert(spec_collider_idx_upto(snap_spec, i as int, k + 1) == previdx.push(
                            k as int,
                        ));
                        assert(previdx.push(k as int).map(f) =~= previdx.map(f).push(
                            snap_spec[k as int].1,
                        ));
                    }
                } else {
                    assert(spec_collider_idx_upto(snap_spec, i as int, k + 1) == previdx);
                }
                k = k + 1;
            }
            assert(colliders@ == spec_colliders(snap_spec, i as int));
            let ghost before = self.world.network_objects@;
            let mut entry = self.world.network_objects[i];
            entry.1.tick(delta_ms, &colliders);
            self.world.network_objects[i] = entry;
            proof {
                assert(before[i as int] == oldobjs[i as int]);
                assert(entry == aspec[i as int]);
                assert forall|kk: int|
                    0 <= kk < i + 1 implies #[trigger] self.world.network_objects@[kk] == aspec[kk]
                by {
                    if kk < i {
                        assert(self.world.network_objects@[kk] == before[kk]);
                    }
                }
            }
            i = i + 1;
        }
        assert(self.world.network_objects@ =~= aspec);

        let mut out: Vec<(NotifyTarget, ServerMessage)> = Vec::new();
        let ghost bspec = spec_phase_b(aspec);
        let mut b: usize = 0;
        while b < n
            invariant
                b <= n,
                n == self.world.network_objects@.len(),
                n == aspec.len(),
                bspec == spec_phase_b(aspec),
                forall|k: int|
                    0 <= k < b ==> #[trigger] self.world.network_objects@[k] == bspec[k],
                forall|k: int|
                    b <= k < n ==> #[trigger] self.world.network_objects@[k] == aspec[k],
                spec_deliveries(out@) == spec_object_msgs(aspec.take(b as int)),
                self.world.clients == old(self).world.clients,
                self.world.special_events == old(self).world.special_events,
                self.connected == old(self).connected,
                self.queued_moves == old(self).queued_moves,
                self.registry == old(self).registry,
                self.object_ids == old(self).object_ids,
            decreases n - b,
        {
            let ghost before = self.world.network_objects@;
            let ghost premsgs = spec_object_msgs(aspec.take(b as int));
            let mut entry = self.world.network_objects[b];
            let oid = entry.0;
            let msg = entry.1.server_tick();
            self.world.network_objects[b] = entry;
            proof {
                assert(before[b as int] == aspec[b as int]);
                assert(entry == bspec[b as int]);
                assert forall|kk: int|
                    0 <= kk < b + 1 implies #[trigger] self.world.network_objects@[kk] == bspec[kk]
                by {
                    if kk < b {
                        assert(self.world.network_objects@[kk] == before[kk]);
                    }
                }
                assert(aspec.take(b + 1) =~= aspec.take(b as int).push(aspec[b as int]));
                lemma_object_msgs_push(aspec.take(b as int), aspec[b as int]);
            }
            match msg {
                Some(bytes) => {
                    let ghost preout = out@;
                    out.push((NotifyTarget::All, ServerMessage::UpdateObject(oid, bytes)));
                    assert(spec_deliveries(out@) =~= spec_deliveries(preout).push(
                        (
                            NotifyTarget::All,
                            ServerMessageV::UpdateObject(aspec[b as int].0, bytes@),
                        ),
                    ));
                    assert(spec_deliveries(out@) =~= spec_object_msgs(aspec.take(b + 1)));
                },
                None => {
                    assert(spec_deliveries(out@) =~= spec_object_msgs(aspec.take(b + 1)));
                },
            }
            b = b + 1;
        }
        assert(aspec.take(n as int) =~= aspec);
        assert(self.world.network_objects@ =~= bspec);
        proof {
            assert forall|a1: int, b1: int|
                0 <= a1 < b1 < self.world@.network_objects.len() implies (
            #[trigger] self.world@.network_objects[a1]).0 != (
            #[trigger] self.world@.network_objects[b1]).0 by {
                assert(oldobjs[a1].0 != oldobjs[b1].0);
                assert(self.world@.network_objects[a1].0 == oldobjs[a1].0);
                assert(self.world@.network_objects[b1].0 == oldobjs[b1].0);
            }
            assert forall|a1: int|
                0 <= a1 < self.world@.network_objects.len() implies (
            #[trigger] self.world@.network_objects[a1]).0.0 < self.object_ids.next by {
                assert(self.world@.network_objects[a1].0 == oldobjs[a1].0);
                assert(oldobjs[a1].0.0 < self.object_ids.next);
            }
        }

        let ghost oldq = self.queued_moves@;
        let ghost oldclients = self.world@.clients;
        if self.queued_moves.len() == 0 {
            proof {
                assert(spec_clients_after_actions(oldclients, oldq) =~= oldclients);
            }
            return out;
        }

        let mut batch: Vec<(ClientId, ClientAction)> = Vec::new();
        let mut q: usize = 0;
        while q < self.queued_moves.len()
            invariant
                q <= self.queued_moves@.len(),
                self.queued_moves@ == oldq,
                batch@ == oldq.take(q as int),
            decreases self.queued_moves@.len() - q,
        {
            let ghost pre = batch@;
            batch.push(self.queued_moves[q]);
            assert(oldq.take(q + 1) =~= pre.push(oldq[q as int]));
            q = q + 1;
        }
        assert(oldq.take(oldq.len() as int) =~= oldq);
        let ghost preout = out@;
        out.push((NotifyTarget::All, ServerMessage::UpdateState(batch)));
        assert(spec_deliveries(out@) =~= spec_deliveries(preout).push(
            (NotifyTarget::All, ServerMessageV::UpdateState(oldq)),
        ));

        let mut new_clients: Vec<Client> = Vec::new();
        let mut c: usize = 0;
        let ghost applied = spec_clients_after_actions(oldclients, oldq);
        while c < self.world.clients.len()
            invariant
                c <= self.world.clients@.len(),
                self.world.clients@.map(|i: int, cl: Client| cl@) == oldclients,
                self.queued_moves@ == oldq,
                applied == spec_clients_after_actions(oldclients, oldq),
                new_clients@.map(|i: int, cl: Client| cl@) == applied.take(c as int),
            decreases self.world.clients@.len() - c,
        {
            let ghost pre = new_clients@.map(|i: int, cl: Client| cl@);
            let mut copy = self.world.clients[c].duplicate();
            let ghost precopy = copy;
            proof {
                lemma_find_queued(oldq, copy@.id);
            }
            let nq = self.queued_moves.len();
            match find_action(&self.queued_moves, copy.id()) {
                Some(idx) => {
                    let action = self.queued_moves[idx].1;
                    copy.apply_action(&action);
                    proof {
                        lemma_applied_view_pub(precopy, action);
                    }
                },
                None => {},
            }
            assert(copy@ == applied[c as int]);
            new_clients.push(copy);
            proof {
                assert(new_clients@.map(|i: int, cl: Client| cl@) =~= pre.push(
                    applied[c as int],
                ));
                assert(applied.take(c + 1) =~= pre.push(applied[c as int]));
            }
            c = c + 1;
        }
        assert(applied.take(applied.len() as int) =~= applied);
        assert(new_clients@.map(|i: int, cl: Client| cl@) =~= applied);
        self.world.clients = new_clients;
        self.queued_moves = Vec::new();
        proof {
            assert forall|a1: int, b1: int|
                0 <= a1 < b1 < self.world@.clients.len() implies (
            #[trigger] self.world@.clients[a1]).id != (#[trigger] self.world@.clients[b1]).id by {
                assert(self.world@.clients[a1].id == oldclients[a1].id);
                assert(self.world@.clients[b1].id == oldclients[b1].id);
            }
        }
        out
    }
}

/// Combining at the found index matches the queueing rule.
proof fn lemma_queue_combined_at(
    queued: Seq<(ClientId, ClientAction)>,
    id: ClientId,
    action: ClientAction,
    i: int,
)
    requires
        spec_find_queued(queued, id) == Option::Some(i),
        forall|a: int, b: int|
            0 <= a < b < queued.len() ==> (#[trigger] queued[a]).0 != (#[trigger] queued[b]).0,
    ensures
        0 <= i < queued.len(),
        queued.update(i, (queued[i].0, spec_combined(queued[i].1, action))) == spec_queue_action(
            queued,
            id,
            action,
        ),
    decreases queued.len(),
{
    lemma_find_queued(queued, id);
    if queued[0].0 == id {
        assert(i == 0);
        assert(queued.update(0, (queued[0].0, spec_combined(queued[0].1, action))) =~= seq![
            (queued[0].0, spec_combined(queued[0].1, action)),
        ] + queued.skip(1));
    } else {
        lemma_queue_combined_at(queued.skip(1), id, action, i - 1);
        assert(queued.skip(1).update(
            i - 1,
            (queued[i].0, spec_combined(queued[i].1, action)),
        ) =~= queued.update(i, (queued[i].0, spec_combined(queued[i].1, action))).skip(1));
        assert(queued.update(i, (queued[i].0, spec_combined(queued[i].1, action))) =~= seq![
            queued[0],
        ] + queued.skip(1).update(i - 1, (queued[i].0, spec_combined(queued[i].1, action))));
    }
}

/// Appending a new client's entry matches the queueing rule.
proof fn lemma_queue_appended(
    queued: Seq<(ClientId, ClientAction)>,
    id: ClientId,
    action: ClientAction,
)
    requires
        spec_find_queued(queued, id) is None,
    ensures
        queued.push((id, action)) == spec_queue_action(queued, id, action),
    decreases queued.len(),
{
    lemma_find_queued(queued, id);
    if queued.len() == 0 {
        assert(queued.push((id, action)) =~= seq![(id, action)]);
    } else {
        lemma_queue_appended(queued.skip(1), id, action);
        assert(queued.push((id, action)).skip(1) =~= queued.skip(1).push((id, action)));
        assert(queued.push((id, action)) =~= seq![queued[0]] + queued.push((id, action)).skip(1));
    }
}

/// Queueing preserves per-client uniqueness.
proof fn lemma_queue_action_unique(
    queued: Seq<(ClientId, ClientAction)>,
    id: ClientId,
    action: ClientAction,
    i: int,
    j: int,
)
    requires
        forall|a: int, b: int|
            0 <= a < b < queued.len() ==> (#[trigger] queued[a]).0 != (#[trigger] queued[b]).0,
        0 <= i < j < spec_queue_action(queued, id, action).len(),
    ensures
        spec_queue_action(queued, id, action)[i].0 != spec_queue_action(queued, id, action)[j].0,
    decreases queued.len(),
{
    let q = spec_queue_action(queued, id, action);
    lemma_find_queued(queued, id);
    if queued.len() == 0 {
    } else if queued[0].0 == id {
        assert(q =~= queued.update(0, (queued[0].0, spec_combined(queued[0].1, action))));
        assert(q[i].0 == queued[i].0 && q[j].0 == queued[j].0);
    } else {
        let qt = spec_queue_action(queued.skip(1), id, action);
        if i == 0 {
            assert(q[0].0 == queued[0].0);
            assert(q[j] == qt[j - 1]);
            lemma_queue_action_ids(queued.skip(1), id, action);
            if qt[j - 1].0 == queued[0].0 {
                if qt[j - 1].0 == id {
                    assert(queued[0].0 != id);
                } else {
                    let w = choose|w: int|
                        0 <= w < queued.skip(1).len() && (#[trigger] queued.skip(1)[w]).0 == qt[
                            j - 1].0;
                    assert(queued[w + 1].0 == queued[0].0);
                }
            }
        } else {
            assert(q[i] == qt[i - 1] && q[j] == qt[j - 1]);
            lemma_queue_action_unique(queued.skip(1), id, action, i - 1, j - 1);
        }
    }
}

} // verus!
