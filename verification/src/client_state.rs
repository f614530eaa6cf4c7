//! The client-side mirror: the player's own state plus a thinned copy of
//! the world, advanced every frame by local prediction and reconciled
//! against server broadcasts.
//!
//! The client moves its own avatar immediately from local input (dead
//! reckoning) and sends its intent to the server. Whether a server echo of
//! the own player is folded back in is an explicit policy chosen at
//! construction: one policy ignores those echoes entirely, the
//! conventional choice reconciles from server truth.

use vstd::prelude::*;

use crate::client::Client;
use crate::client::ClientAction;
use crate::client::ClientMessage;
use crate::client::ClientV;
use crate::client::MoveDirection;
use crate::geometry::Position;
use crate::geometry::Rect;
use crate::geometry::spec_intersects;
use crate::ids::ClientId;
use crate::network_object::NetworkObjectRegistry;
use crate::server::ServerMessage;
use crate::server::SerializedClientGameState;
use crate::server::spec_clients_without;
use crate::world::WorldState;
use crate::world::spec_has_client;

verus! {

/// How many chat lines the local log keeps.
pub const CHAT_LOG_LIMIT: usize = 256;

/// How long a chat bubble stays visible, in milliseconds.
pub const CHAT_VISIBLE_MS: u64 = 5000;

/// The client sends an unconditional state refresh after this many
/// milliseconds without one, to bound staleness if a delta is ever lost.
pub const FORCED_UPDATE_MS: u64 = (1000 / 60) * 15;

/// An input intent the frame loop hands the mirror: a movement key went
/// down or up, or the chat box opened or closed.
#[derive(Clone, Copy, Debug, PartialEq, Eq, Structural)]
pub enum InputEvent {
    Press(MoveDirection),
    Release(MoveDirection),
    OpenChat,
    CloseChat,
}

/// A transient chat bubble over another player's head.
#[derive(Clone, Debug)]
pub struct ChatMessage {
    pub client_id: ClientId,
    pub message: String,
    pub expiry: u64,
}

/// One line of the local chat log.
#[derive(Clone, Debug)]
pub struct ChatLogEntry {
    pub name: String,
    pub message: String,
}

/// Purely local state that never travels: clocks, the chat compose box,
/// bubbles, the log, and the hitboxes of local decorations.
#[derive(Debug)]
pub struct ClientLocalState {
    pub time_ms: u64,
    pub last_tick: u64,
    pub last_message: u64,
    pub chat_open: bool,
    pub other_chat: Vec<ChatMessage>,
    pub chat_log: Vec<ChatLogEntry>,
    pub objects: Vec<Rect>,
}

/// The client-side game state: the own id, the mirrored world with the own
/// player first, the reconciliation policy, the registry decoding object
/// traffic, and the local-only state.
#[derive(Debug)]
pub struct ClientGameState {
    pub own_id: ClientId,
    pub world: WorldState,
    pub reconcile_own: bool,
    pub registry: NetworkObjectRegistry,
    pub local: ClientLocalState,
}

/// The mirror's invariant: the own player sits at the front of the list,
/// and the local clocks never run ahead of the frame clock.
pub open spec fn spec_mirror_wf(s: ClientGameState) -> bool {
    &&& s.world@.clients.len() >= 1
    &&& s.world@.clients[0].id == s.own_id
    &&& s.local.last_tick <= s.local.time_ms
    &&& s.local.last_message <= s.local.time_ms
}

/// Addition of `u64` that stops at the top of the range.
pub open spec fn spec_sat_add_u64(a: int, b: int) -> int {
    if a + b > u64::MAX {
        u64::MAX as int
    } else {
        a + b
    }
}

/// Saturating `u64` addition.
fn sat_add_u64(a: u64, b: u64) -> (r: u64)
    ensures
        r as int == spec_sat_add_u64(a as int, b as int),
{
    if a > u64::MAX - b {
        u64::MAX
    } else {
        a + b
    }
}

/// The movement intent after one input event. `None` is an idle player;
/// `Some(Still)` is an explicit stop that must still be announced. A key
/// going down sets the direction; a key going up stops the player only if
/// it was the most recently set direction, so releasing a stale key cannot
/// cancel a newer press; opening the chat stops the player.
pub open spec fn spec_intent_step(
    state: (Option<MoveDirection>, bool, Option<bool>),
    input: InputEvent,
) -> (Option<MoveDirection>, bool, Option<bool>) {
    let (intent, chat_open, typing) = state;
    if !chat_open {
        match input {
            InputEvent::Press(d) => (Option::Some(d), chat_open, typing),
            InputEvent::Release(d) => if intent == Option::Some(d) {
                (Option::Some(MoveDirection::Still), chat_open, typing)
            } else {
                state
            },
            InputEvent::OpenChat => (
                Option::Some(MoveDirection::Still),
                true,
                Option::Some(true),
            ),
            InputEvent::CloseChat => state,
        }
    } else {
        match input {
            InputEvent::CloseChat => (intent, false, Option::Some(false)),
            _ => state,
        }
    }
}

/// The movement intent after a whole frame of input events.
pub open spec fn spec_intent(
    start: (Option<MoveDirection>, bool, Option<bool>),
    inputs: Seq<InputEvent>,
) -> (Option<MoveDirection>, bool, Option<bool>)
    decreases inputs.len(),
{
    if inputs.len() == 0 {
        start
    } else {
        spec_intent(spec_intent_step(start, inputs[0]), inputs.skip(1))
    }
}

/// The starting intent of a frame: the continuing movement, or idle.
pub open spec fn spec_start_intent(movement: MoveDirection) -> Option<MoveDirection> {
    if movement == MoveDirection::Still {
        Option::None
    } else {
        Option::Some(movement)
    }
}

/// Fold a frame of input events into the movement intent.
fn resolve_inputs(
    movement0: MoveDirection,
    chat_open0: bool,
    inputs: &Vec<InputEvent>,
) -> (r: (Option<MoveDirection>, bool, Option<bool>))
    ensures
        r == spec_intent((spec_start_intent(movement0), chat_open0, Option::<bool>::None), inputs@),
{
    let start: Option<MoveDirection> = match movement0 {
        MoveDirection::Still => None,
        d => Some(d),
    };
    assert(start == spec_start_intent(movement0));
    let mut state: (Option<MoveDirection>, bool, Option<bool>) = (start, chat_open0, None);
    let mut i: usize = 0;
    assert(inputs@.skip(0) =~= inputs@);
    while i < inputs.len()
        invariant
            i <= inputs@.len(),
            spec_intent(state, inputs@.skip(i as int)) == spec_intent(
                (spec_start_intent(movement0), chat_open0, Option::<bool>::None),
                inputs@,
            ),
        decreases inputs@.len() - i,
    {
        let input = inputs[i];
        assert(inputs@.skip(i as int)[0] == inputs@[i as int]);
        assert(inputs@.skip(i as int).skip(1) =~= inputs@.skip(i + 1));
        let (intent, chat_open, typing) = state;
        state = if !chat_open {
            match input {
                InputEvent::Press(d) => (Some(d), chat_open, typing),
                InputEvent::Release(d) => if intent == Some(d) {
                    (Some(MoveDirection::Still), chat_open, typing)
                } else {
                    state
                },
                InputEvent::OpenChat => (Some(MoveDirection::Still), true, Some(true)),
                InputEvent::CloseChat => state,
            }
        } else {
            match input {
                InputEvent::CloseChat => (intent, false, Some(false)),
                _ => state,
            }
        };
        assert(state == spec_intent_step((intent, chat_open, typing), input));
        i = i + 1;
    }
    assert(inputs@.skip(i as int) =~= Seq::<InputEvent>::empty());
    state
}

/// Where dead reckoning puts the player: one pixel per elapsed tick in the
/// movement direction, saturating at the world edge.
pub open spec fn spec_predicted(pos: Position, direction: MoveDirection, ticks: u64) -> Position {
    match direction {
        MoveDirection::Up => Position {
            x: pos.x,
            y: crate::beach_ball::spec_sat_i64(pos.y - ticks) as i64,
        },
        MoveDirection::Down => Position {
            x: pos.x,
            y: crate::beach_ball::spec_sat_i64(pos.y + ticks) as i64,
        },
        MoveDirection::Left => Position {
            x: crate::beach_ball::spec_sat_i64(pos.x - ticks) as i64,
            y: pos.y,
        },
        MoveDirection::Right => Position {
            x: crate::beach_ball::spec_sat_i64(pos.x + ticks) as i64,
            y: pos.y,
        },
        MoveDirection::Still => pos,
    }
}

/// Advance a position by dead reckoning.
fn predict_position(pos: Position, direction: MoveDirection, ticks: u64) -> (r: Position)
    ensures
        r == spec_predicted(pos, direction, ticks),
{
    match direction {
        MoveDirection::Up => Position {
            x: pos.x,
            y: crate::beach_ball::sat_i64(pos.y as i128 - ticks as i128),
        },
        MoveDirection::Down => Position {
            x: pos.x,
            y: crate::beach_ball::sat_i64(pos.y as i128 + ticks as i128),
        },
        MoveDirection::Left => Position {
            x: crate::beach_ball::sat_i64(pos.x as i128 - ticks as i128),
            y: pos.y,
        },
        MoveDirection::Right => Position {
            x: crate::beach_ball::sat_i64(pos.x as i128 + ticks as i128),
            y: pos.y,
        },
        MoveDirection::Still => pos,
    }
}

/// The player's own hitbox at a position.
pub open spec fn spec_own_hitbox(pos: Position) -> Rect {
    Rect {
        min: Position {
            x: crate::beach_ball::spec_sat_i64(pos.x + 2) as i64,
            y: crate::beach_ball::spec_sat_i64(pos.y + 12) as i64,
        },
        max: Position {
            x: crate::beach_ball::spec_sat_i64(pos.x + 30) as i64,
            y: crate::beach_ball::spec_sat_i64(pos.y + 32) as i64,
        },
    }
}

/// Whether some local decoration's hitbox overlaps `hitbox`.
pub open spec fn spec_blocked(objects: Seq<Rect>, hitbox: Rect) -> bool {
    exists|i: int| 0 <= i < objects.len() && spec_intersects(#[trigger] objects[i], hitbox)
}

/// Test a hitbox against every local decoration.
fn blocked(objects: &Vec<Rect>, hitbox: &Rect) -> (r: bool)
    ensures
        r == spec_blocked(objects@, *hitbox),
{
    let mut i: usize = 0;
    while i < objects.len()
        invariant
            i <= objects@.len(),
            forall|k: int| 0 <= k < i ==> !spec_intersects(#[trigger] objects@[k], *hitbox),
        decreases objects@.len() - i,
    {
        if objects[i].intersects(hitbox) {
            return true;
        }
        i = i + 1;
    }
    false
}


impl SerializedClientGameState {
    /// Decode the world handed over at connect time and build the mirror
    /// around it. Fails when the bytes are not a world or the world does
    /// not contain the connecting client.
    pub fn serialize(
        self,
        registry: NetworkObjectRegistry,
        reconcile_own: bool,
    ) -> (r: Option<ClientGameState>)
        ensures
            match crate::world::spec_dec_world(registry.entries@, self.1@) {
                Some(d) => {
                    if spec_has_client(d.0.clients, self.0) {
                        r matches Some(s) && spec_mirror_wf(s) && s.own_id == self.0
                            && s.reconcile_own == reconcile_own && s.world@.special_events
                            == d.0.special_events && s.world@.network_objects
                            == d.0.network_objects
                    } else {
                        r is None
                    }
                },
                None => r is None,
            },
    {
        let bytes = self.1.as_slice();
        assert(bytes@.skip(0) =~= bytes@);
        match crate::world::decode_world(&registry, bytes, 0) {
            None => None,
            Some((world, _)) => ClientGameState::new(self.0, world, registry, reconcile_own),
        }
    }
}

/// The first mirrored player index carrying `id`, if any.
pub open spec fn spec_find_client(clients: Seq<ClientV>, id: ClientId) -> Option<int>
    decreases clients.len(),
{
    if clients.len() == 0 {
        Option::None
    } else if clients[0].id == id {
        Option::Some(0)
    } else {
        match spec_find_client(clients.skip(1), id) {
            Option::Some(i) => Option::Some(i + 1),
            Option::None => Option::None,
        }
    }
}

/// A found index is in range and carries `id`.
pub proof fn lemma_find_client(clients: Seq<ClientV>, id: ClientId)
    ensures
        match spec_find_client(clients, id) {
            Option::Some(i) => 0 <= i < clients.len() && clients[i].id == id,
            Option::None => forall|i: int|
                0 <= i < clients.len() ==> (#[trigger] clients[i]).id != id,
        },
    decreases clients.len(),
{
    if clients.len() > 0 && clients[0].id != id {
        lemma_find_client(clients.skip(1), id);
        let d = spec_find_client(clients.skip(1), id);
        if d is Some {
            assert(clients.skip(1)[d->0] == clients[d->0 + 1]);
        } else {
            assert forall|i: int| 0 <= i < clients.len() implies (#[trigger] clients[i]).id != id
            by {
                if i > 0 {
                    assert(clients.skip(1)[i - 1] == clients[i]);
                }
            }
        }
    }
}

/// The first index in `clients` carrying `id`, if any.
fn find_client(clients: &Vec<Client>, id: ClientId) -> (r: Option<usize>)
    ensures
        match spec_find_client(clients@.map(|i: int, c: Client| c@), id) {
            Option::Some(i) => r == Some(i as usize),
            Option::None => r is None,
        },
{
    let ghost cls = clients@.map(|i: int, c: Client| c@);
    let mut i: usize = 0;
    assert(cls.skip(0) =~= cls);
    while i < clients.len()
        invariant
            i <= cls.len(),
            cls == clients@.map(|i: int, c: Client| c@),
            match spec_find_client(cls.skip(i as int), id) {
                Option::Some(j) => spec_find_client(cls, id) == Option::Some(j + i),
                Option::None => spec_find_client(cls, id) is None,
            },
        decreases cls.len() - i,
    {
        assert(cls.skip(i as int)[0] == cls[i as int]);
        assert(cls.skip(i as int).skip(1) =~= cls.skip(i + 1));
        if clients[i].id().as_u32() == id.as_u32() {
            assert(cls[i as int].id == id);
            return Some(i);
        }
        assert(cls[i as int].id != id);
        i = i + 1;
    }
    assert(cls.skip(i as int) =~= Seq::<ClientV>::empty());
    None
}

/// The mirrored object entries whose instance id is not `oid`.
pub open spec fn spec_objects_without_id(
    objects: Seq<(crate::ids::ObjectId, crate::network_object::BoxedNetworkObject)>,
    oid: crate::ids::ObjectId,
) -> Seq<(crate::ids::ObjectId, crate::network_object::BoxedNetworkObject)>
    decreases objects.len(),
{
    if objects.len() == 0 {
        objects
    } else if objects[0].0 == oid {
        spec_objects_without_id(objects.skip(1), oid)
    } else {
        seq![objects[0]] + spec_objects_without_id(objects.skip(1), oid)
    }
}

/// One entry of a state update folded into the mirror: skipped when it
/// names the own player and the policy ignores echoes, otherwise applied
/// to the matching mirrored player (a missing player is ignored).
pub open spec fn spec_mirror_step(
    clients: Seq<ClientV>,
    entry: (ClientId, ClientAction),
    own: ClientId,
    reconcile: bool,
) -> Seq<ClientV> {
    if entry.0 == own && !reconcile {
        clients
    } else {
        match spec_find_client(clients, entry.0) {
            Option::Some(i) => clients.update(
                i,
                crate::server::spec_applied_v(clients[i], entry.1),
            ),
            Option::None => clients,
        }
    }
}

/// A whole state update folded into the mirror, entry by entry.
pub open spec fn spec_mirror_updates(
    clients: Seq<ClientV>,
    updates: Seq<(ClientId, ClientAction)>,
    own: ClientId,
    reconcile: bool,
) -> Seq<ClientV>
    decreases updates.len(),
{
    if updates.len() == 0 {
        clients
    } else {
        spec_mirror_updates(
            spec_mirror_step(clients, updates[0], own, reconcile),
            updates.skip(1),
            own,
            reconcile,
        )
    }
}

impl ClientGameState {
    /// Build the mirror from the own id and a decoded world. The own player
    /// is moved to the front; the world must contain it. `reconcile_own`
    /// names the policy for server echoes of the own player.
    pub fn new(
        own_id: ClientId,
        world: WorldState,
        registry: NetworkObjectRegistry,
        reconcile_own: bool,
    ) -> (r: Option<ClientGameState>)
        ensures
            match r {
                Some(s) => {
                    &&& spec_has_client(world@.clients, own_id)
                    &&& spec_mirror_wf(s)
                    &&& s.own_id == own_id
                    &&& s.reconcile_own == reconcile_own
                    &&& s.world@.special_events == world@.special_events
                    &&& s.world@.network_objects == world@.network_objects
                    &&& exists|i: int|
                        0 <= i < world@.clients.len() && (#[trigger] world@.clients[i]).id
                            == own_id && s.world@.clients == seq![world@.clients[i]]
                            + world@.clients.remove(i)
                    &&& s.local.time_ms == 0
                    &&& s.local.chat_open == false
                    &&& s.local.chat_log@.len() == 0
                    &&& s.local.other_chat@.len() == 0
                },
                None => !spec_has_client(world@.clients, own_id),
            },
    {
        let mut world = world;
        let mut idx: usize = 0;
        let mut found = false;
        while !found && idx < world.clients.len()
            invariant
                idx <= world.clients@.len(),
                found ==> idx < world.clients@.len() && world@.clients[idx as int].id == own_id,
                !found ==> forall|k: int|
                    0 <= k < idx ==> (#[trigger] world@.clients[k]).id != own_id,
                world@.clients == world.clients@.map(|i: int, c: Client| c@),
            decreases world.clients@.len() - idx + (if found { 0int } else { 1int }),
        {
            if world.clients[idx].id().as_u32() == own_id.as_u32() {
                assert(world@.clients[idx as int].id == own_id);
                found = true;
            } else {
                assert(world@.clients[idx as int].id != own_id);
                idx = idx + 1;
            }
        }
        if !found {
            return None;
        }
        let ghost cls = world@.clients;
        let own = world.clients.remove(idx);
        world.clients.insert(0, own);
        proof {
            let f = |i: int, c: Client| c@;
            assert(world.clients@.map(f) =~= seq![cls[idx as int]] + cls.remove(idx as int));
        }
        Some(
            ClientGameState {
                own_id,
                world,
                reconcile_own,
                registry,
                local: ClientLocalState {
                    time_ms: 0,
                    last_tick: 0,
                    last_message: 0,
                    chat_open: false,
                    other_chat: Vec::new(),
                    chat_log: Vec::new(),
                    objects: Vec::new(),
                },
            },
        )
    }

    /// The own player.
    pub fn client(&self) -> (r: &Client)
        requires
            spec_mirror_wf(*self),
        ensures
            r@ == self.world@.clients[0],
    {
        &self.world.clients[0]
    }

    /// Apply a delta to the own player at once.
    pub fn handle_action(&mut self, action: ClientAction)
        requires
            spec_mirror_wf(*old(self)),
        ensures
            spec_mirror_wf(*final(self)),
            final(self).world@.clients == old(self).world@.clients.update(
                0,
                crate::server::spec_applied_v(old(self).world@.clients[0], action),
            ),
            final(self).world@.special_events == old(self).world@.special_events,
            final(self).world@.network_objects == old(self).world@.network_objects,
            final(self).own_id == old(self).own_id,
            final(self).local == old(self).local,
    {
        let ghost pre = self.world.clients@[0];
        self.world.clients[0].apply_action(&action);
        proof {
            crate::server::lemma_applied_view_pub(pre, action);
            assert(self.world@.clients =~= old(self).world@.clients.update(
                0,
                crate::server::spec_applied_v(old(self).world@.clients[0], action),
            ));
        }
    }

    /// One frame of local prediction: advance the clock, fold the frame's
    /// inputs into the movement intent, move the own avatar by dead
    /// reckoning when the way is clear (otherwise only turn), and say what
    /// to send: the pending delta when it changes anything, a full refresh
    /// when none has gone out for too long, and nothing otherwise. Expired
    /// chat bubbles are dropped.
    pub fn update(&mut self, delta_ms: u64, inputs: &Vec<InputEvent>) -> (r: Option<ClientMessage>)
        requires
            spec_mirror_wf(*old(self)),
        ensures
            spec_mirror_wf(*final(self)),
            final(self).own_id == old(self).own_id,
            final(self).reconcile_own == old(self).reconcile_own,
            final(self).registry == old(self).registry,
            final(self).world@.special_events == old(self).world@.special_events,
            final(self).world@.network_objects == old(self).world@.network_objects,
            ({
                let own = old(self).world@.clients[0];
                let time = spec_sat_add_u64(old(self).local.time_ms as int, delta_ms as int);
                let ticks = ((time - old(self).local.last_tick) as u64 / crate::SERVER_TICK_RATE)
                    as u64;
                let (intent, chat_open, typing) = spec_intent(
                    (
                        spec_start_intent(own.movement),
                        old(self).local.chat_open,
                        Option::<bool>::None,
                    ),
                    inputs@,
                );
                let act0 = ClientAction { movement: Option::None, typing };
                let act = match intent {
                    Option::None => act0,
                    Option::Some(MoveDirection::Still) => ClientAction {
                        movement: Option::Some(
                            crate::client::ClientActionMovement::Move(
                                own.position,
                                MoveDirection::Still,
                            ),
                        ),
                        ..act0
                    },
                    Option::Some(direction) => {
                        let target = spec_predicted(own.position, direction, ticks);
                        if !spec_blocked(old(self).local.objects@, spec_own_hitbox(target)) {
                            ClientAction {
                                movement: Option::Some(
                                    crate::client::ClientActionMovement::Move(target, direction),
                                ),
                                ..act0
                            }
                        } else {
                            ClientAction {
                                movement: Option::Some(
                                    crate::client::ClientActionMovement::Look(direction),
                                ),
                                ..act0
                            }
                        }
                    },
                };
                let forced = time - old(self).local.last_message > FORCED_UPDATE_MS;
                let has = act.movement is Some || act.typing is Some;
                let sent = if has {
                    Option::Some(act)
                } else if forced {
                    Option::Some(
                        ClientAction {
                            movement: Option::Some(
                                crate::client::ClientActionMovement::Move(
                                    own.position,
                                    own.movement,
                                ),
                            ),
                            typing: Option::Some(chat_open),
                        },
                    )
                } else {
                    Option::None
                };
                &&& final(self).local.time_ms as int == time
                &&& final(self).local.last_tick == old(self).local.last_tick + ticks
                    * crate::SERVER_TICK_RATE
                &&& final(self).local.chat_open == chat_open
                &&& final(self).local.last_message == if forced && has == false {
                    time as u64
                } else {
                    old(self).local.last_message
                }
                &&& match sent {
                    Option::Some(a) => r matches Some(m) && m@
                        == crate::client::ClientMessageV::Action(a) && final(self).world@.clients
                        == old(self).world@.clients.update(
                        0,
                        crate::server::spec_applied_v(own, a),
                    ),
                    Option::None => r is None && final(self).world@.clients == old(
                        self,
                    ).world@.clients,
                }
            }),
    {
        let ghost own = self.world@.clients[0];
        let time = sat_add_u64(self.local.time_ms, delta_ms);
        self.local.time_ms = time;
        let ticks = (time - self.local.last_tick) / crate::SERVER_TICK_RATE;
        proof {
            let gap = (time - self.local.last_tick) as u64;
            assert(gap / crate::SERVER_TICK_RATE * crate::SERVER_TICK_RATE <= gap)
                by (nonlinear_arith);
        }
        self.local.last_tick = self.local.last_tick + ticks * crate::SERVER_TICK_RATE;

        let movement0 = self.world.clients[0].movement;
        let (intent, chat_open, typing) = resolve_inputs(
            movement0,
            self.local.chat_open,
            inputs,
        );
        self.local.chat_open = chat_open;

        let pos0 = self.world.clients[0].position;
        let mut act = ClientAction { movement: None, typing };
        match intent {
            None => {},
            Some(MoveDirection::Still) => {
                act.movement(pos0, MoveDirection::Still);
            },
            Some(direction) => {
                let target = predict_position(pos0, direction, ticks);
                let own_hitbox = Rect {
                    min: Position {
                        x: crate::beach_ball::sat_i64(target.x as i128 + 2),
                        y: crate::beach_ball::sat_i64(target.y as i128 + 12),
                    },
                    max: Position {
                        x: crate::beach_ball::sat_i64(target.x as i128 + 30),
                        y: crate::beach_ball::sat_i64(target.y as i128 + 32),
                    },
                };
                if !blocked(&self.local.objects, &own_hitbox) {
                    act.movement(target, direction);
                } else {
                    act.look(direction);
                }
            },
        }

        let forced = time - self.local.last_message > FORCED_UPDATE_MS;
        let has = act.any();
        let sent: Option<ClientAction> = if has {
            Some(act)
        } else if forced {
            let mut refresh = ClientAction { movement: None, typing: None };
            refresh.movement(pos0, movement0);
            refresh.typing(chat_open);
            self.local.last_message = time;
            Some(refresh)
        } else {
            None
        };

        self.drop_expired_chat();

        match sent {
            Some(a) => {
                let ghost pre = self.world.clients@[0];
                self.world.clients[0].apply_action(&a);
                proof {
                    crate::server::lemma_applied_view_pub(pre, a);
                    assert(self.world@.clients =~= old(self).world@.clients.update(
                        0,
                        crate::server::spec_applied_v(own, a),
                    ));
                }
                Some(ClientMessage::Action(a))
            },
            None => None,
        }
    }

    /// Fold one server broadcast into the mirror.
    ///
    /// New players are added and leaving players removed (the own player
    /// never removes itself). A state update applies every entry to its
    /// mirrored player; entries for the own player are skipped unless the
    /// `reconcile_own` policy folds server truth back into the prediction.
    /// Chat marks the sender as no longer typing, logs the line (the log is
    /// capped) and raises a timed bubble. Object broadcasts create, update
    /// or delete mirrored objects; an object that cannot be decoded is
    /// dropped without harming the rest of the mirror. The initial
    /// `FullState` handshake is handled by the connection setup, never
    /// here.
    pub fn handle_message(&mut self, msg: ServerMessage)
        requires
            spec_mirror_wf(*old(self)),
            !(msg@ is FullState),
        ensures
            spec_mirror_wf(*final(self)),
            final(self).own_id == old(self).own_id,
            final(self).reconcile_own == old(self).reconcile_own,
            final(self).registry == old(self).registry,
            final(self).local.time_ms == old(self).local.time_ms,
            final(self).local.last_tick == old(self).local.last_tick,
            final(self).local.last_message == old(self).local.last_message,
            final(self).local.chat_open == old(self).local.chat_open,
            final(self).local.objects == old(self).local.objects,
            match msg@ {
                crate::server::ServerMessageV::NewClient(c) => {
                    &&& final(self).world@.clients == old(self).world@.clients.push(c)
                    &&& final(self).world@.network_objects == old(self).world@.network_objects
                    &&& final(self).world@.special_events == old(self).world@.special_events
                    &&& final(self).local.chat_log == old(self).local.chat_log
                    &&& final(self).local.other_chat == old(self).local.other_chat
                },
                crate::server::ServerMessageV::ClientLeft(id) => {
                    &&& final(self).world@.clients == if id == old(self).own_id {
                        old(self).world@.clients
                    } else {
                        spec_clients_without(old(self).world@.clients, id)
                    }
                    &&& final(self).world@.network_objects == old(self).world@.network_objects
                    &&& final(self).world@.special_events == old(self).world@.special_events
                    &&& final(self).local.chat_log == old(self).local.chat_log
                    &&& final(self).local.other_chat == old(self).local.other_chat
                },
                crate::server::ServerMessageV::UpdateState(updates) => {
                    &&& final(self).world@.clients == spec_mirror_updates(
                        old(self).world@.clients,
                        updates,
                        old(self).own_id,
                        old(self).reconcile_own,
                    )
                    &&& final(self).world@.network_objects == old(self).world@.network_objects
                    &&& final(self).world@.special_events == old(self).world@.special_events
                    &&& final(self).local.chat_log == old(self).local.chat_log
                    &&& final(self).local.other_chat == old(self).local.other_chat
                },
                crate::server::ServerMessageV::SpecialEvent { event, active } => {
                    &&& final(self).world@.clients == old(self).world@.clients
                    &&& final(self).world@.network_objects == old(self).world@.network_objects
                    &&& final(self).world@.special_events == match event {
                        crate::world::SpecialEvent::BeachEpisode => crate::world::SpecialEventState {
                            beach_episode: active,
                        },
                    }
                    &&& final(self).local.chat_log == old(self).local.chat_log
                    &&& final(self).local.other_chat == old(self).local.other_chat
                },
                crate::server::ServerMessageV::DeleteObject(oid) => {
                    &&& final(self).world@.clients == old(self).world@.clients
                    &&& final(self).world@.network_objects == spec_objects_without_id(
                        old(self).world@.network_objects,
                        oid,
                    )
                    &&& final(self).world@.special_events == old(self).world@.special_events
                    &&& final(self).local.chat_log == old(self).local.chat_log
                    &&& final(self).local.other_chat == old(self).local.other_chat
                },
                crate::server::ServerMessageV::NewObject(oid, bytes) => {
                    &&& final(self).world@.clients == old(self).world@.clients
                    &&& final(self).world@.special_events == old(self).world@.special_events
                    &&& final(self).local.chat_log == old(self).local.chat_log
                    &&& final(self).local.other_chat == old(self).local.other_chat
                    &&& match crate::network_object::spec_dec_boxed(
                        old(self).registry.entries@,
                        bytes,
                    ) {
                        Some(d) => match d.0 {
                            Ok(b) => final(self).world@.network_objects == old(
                                self,
                            ).world@.network_objects.push((oid, b)),
                            Err(_) => final(self).world@.network_objects == old(
                                self,
                            ).world@.network_objects,
                        },
                        None => final(self).world@.network_objects == old(
                            self,
                        ).world@.network_objects,
                    }
                },
                crate::server::ServerMessageV::Chat(id, _) => {
                    &&& final(self).world@.clients == match spec_find_client(
                        old(self).world@.clients,
                        id,
                    ) {
                        Option::Some(i) => old(self).world@.clients.update(
                            i,
                            ClientV { typing: false, ..old(self).world@.clients[i] },
                        ),
                        Option::None => old(self).world@.clients,
                    }
                    &&& final(self).world@.network_objects == old(self).world@.network_objects
                    &&& final(self).world@.special_events == old(self).world@.special_events
                },
                crate::server::ServerMessageV::UpdateObject(oid, bytes) => {
                    &&& final(self).world@.clients == old(self).world@.clients
                    &&& final(self).world@.special_events == old(self).world@.special_events
                    &&& final(self).local.chat_log == old(self).local.chat_log
                    &&& final(self).local.other_chat == old(self).local.other_chat
                    &&& final(self).world@.network_objects.len() == old(
                        self,
                    ).world@.network_objects.len()
                },
                crate::server::ServerMessageV::FullState(_, _) => spec_mirror_wf(*final(self)),
            },
    {
        match msg {
            ServerMessage::FullState(_) => {
                proof {
                    assert(false);
                }
            },
            ServerMessage::NewClient(c) => {
                let ghost cv = c@;
                self.world.clients.push(c);
                assert(self.world@.clients =~= old(self).world@.clients.push(cv));
            },
            ServerMessage::ClientLeft(id) => {
                if id.as_u32() != self.own_id.as_u32() {
                    assert(id != self.own_id);
                    let ghost cls = self.world@.clients;
                    let mut kept: Vec<Client> = Vec::new();
                    let mut i: usize = 0;
                    assert(cls.skip(0) =~= cls);
                    while i < self.world.clients.len()
                        invariant
                            i <= self.world.clients@.len(),
                            cls == self.world.clients@.map(|k: int, c: Client| c@),
                            kept@.map(|k: int, c: Client| c@) + spec_clients_without(
                                cls.skip(i as int),
                                id,
                            ) == spec_clients_without(cls, id),
                        decreases self.world.clients@.len() - i,
                    {
                        let ghost pre = kept@.map(|k: int, c: Client| c@);
                        let c = &self.world.clients[i];
                        assert(cls.skip(i as int)[0] == cls[i as int]);
                        assert(cls.skip(i as int).skip(1) =~= cls.skip(i + 1));
                        if c.id().as_u32() != id.as_u32() {
                            let copy = c.duplicate();
                            assert(copy@ == cls[i as int]);
                            kept.push(copy);
                            assert(kept@.map(|k: int, c: Client| c@) =~= pre.push(cls[i as int]));
                            assert(kept@.map(|k: int, c: Client| c@) + spec_clients_without(
                                cls.skip(i + 1),
                                id,
                            ) =~= spec_clients_without(cls, id));
                        } else {
                            assert(cls[i as int].id == id);
                        }
                        i = i + 1;
                    }
                    assert(cls.skip(cls.len() as int) =~= Seq::<ClientV>::empty());
                    assert(spec_clients_without(Seq::<ClientV>::empty(), id) =~= Seq::<
                        ClientV,
                    >::empty());
                    assert(kept@.map(|k: int, c: Client| c@) =~= spec_clients_without(cls, id));
                    self.world.clients = kept;
                    proof {
                        assert(spec_clients_without(cls, id)[0] == cls[0]);
                    }
                }
            },
            ServerMessage::UpdateState(updates) => {
                let ghost oldclients = self.world@.clients;
                let mut u: usize = 0;
                assert(updates@.skip(0) =~= updates@);
                while u < updates.len()
                    invariant
                        u <= updates@.len(),
                        spec_mirror_wf(*self),
                        self.own_id == old(self).own_id,
                        self.reconcile_own == old(self).reconcile_own,
                        self.registry == old(self).registry,
                        self.local == old(self).local,
                        self.world.special_events == old(self).world.special_events,
                        self.world.network_objects == old(self).world.network_objects,
                        spec_mirror_updates(
                            self.world@.clients,
                            updates@.skip(u as int),
                            self.own_id,
                            self.reconcile_own,
                        ) == spec_mirror_updates(
                            oldclients,
                            updates@,
                            self.own_id,
                            self.reconcile_own,
                        ),
                    decreases updates@.len() - u,
                {
                    assert(updates@.skip(u as int)[0] == updates@[u as int]);
                    assert(updates@.skip(u as int).skip(1) =~= updates@.skip(u + 1));
                    let (id, action) = updates[u];
                    let ghost preclients = self.world@.clients;
                    let skip_own = id.as_u32() == self.own_id.as_u32() && !self.reconcile_own;
                    if !skip_own {
                        proof {
                            lemma_find_client(self.world@.clients, id);
                        }
                        let nc = self.world.clients.len();
                        match find_client(&self.world.clients, id) {
                            Some(ci) => {
                                let ghost pre = self.world.clients@[ci as int];
                                self.world.clients[ci].apply_action(&action);
                                proof {
                                    crate::server::lemma_applied_view_pub(pre, action);
                                    assert(self.world@.clients =~= preclients.update(
                                        ci as int,
                                        crate::server::spec_applied_v(
                                            preclients[ci as int],
                                            action,
                                        ),
                                    ));
                                    assert(self.world@.clients == spec_mirror_step(
                                        preclients,
                                        updates@[u as int],
                                        self.own_id,
                                        self.reconcile_own,
                                    ));
                                }
                            },
                            None => {
                                assert(self.world@.clients == spec_mirror_step(
                                    preclients,
                                    updates@[u as int],
                                    self.own_id,
                                    self.reconcile_own,
                                ));
                            },
                        }
                    } else {
                        assert(id == self.own_id && !self.reconcile_own);
                        assert(self.world@.clients == spec_mirror_step(
                            preclients,
                            updates@[u as int],
                            self.own_id,
                            self.reconcile_own,
                        ));
                    }
                    u = u + 1;
                }
                assert(updates@.skip(updates@.len() as int) =~= Seq::<
                    (ClientId, ClientAction),
                >::empty());
            },
            ServerMessage::Chat(id, message) => {
                self.handle_chat(id, message);
            },
            ServerMessage::SpecialEvent { event, active } => {
                self.world.set_special_event(event, active);
            },
            ServerMessage::NewObject(oid, serialized) => {
                match serialized.serialize(&self.registry) {
                    Ok(boxed) => {
                        self.world.network_objects.push((oid, boxed));
                        assert(self.world@.network_objects =~= old(
                            self,
                        ).world@.network_objects.push((oid, boxed)));
                    },
                    Err(_) => {},
                }
            },
            ServerMessage::UpdateObject(oid, bytes) => {
                self.handle_object_update(oid, bytes);
            },
            ServerMessage::DeleteObject(oid) => {
                let ghost objs = self.world@.network_objects;
                let mut kept: Vec<(crate::ids::ObjectId, crate::network_object::BoxedNetworkObject)> =
                    Vec::new();
                let mut i: usize = 0;
                assert(objs.skip(0) =~= objs);
                while i < self.world.network_objects.len()
                    invariant
                        i <= self.world.network_objects@.len(),
                        objs == self.world.network_objects@,
                        kept@ + spec_objects_without_id(objs.skip(i as int), oid)
                            == spec_objects_without_id(objs, oid),
                    decreases self.world.network_objects@.len() - i,
                {
                    let entry = self.world.network_objects[i];
                    assert(objs.skip(i as int)[0] == objs[i as int]);
                    assert(objs.skip(i as int).skip(1) =~= objs.skip(i + 1));
                    if entry.0.as_u32() != oid.as_u32() {
                        assert(entry.0 != oid);
                        kept.push(entry);
                        assert(kept@ + spec_objects_without_id(objs.skip(i + 1), oid)
                            =~= spec_objects_without_id(objs, oid));
                    } else {
                        assert(entry.0 == oid);
                    }
                    i = i + 1;
                }
                assert(objs.skip(objs.len() as int) =~= Seq::<
                    (crate::ids::ObjectId, crate::network_object::BoxedNetworkObject),
                >::empty());
                assert(spec_objects_without_id(
                    Seq::<
                        (crate::ids::ObjectId, crate::network_object::BoxedNetworkObject),
                    >::empty(),
                    oid,
                ) =~= Seq::<
                    (crate::ids::ObjectId, crate::network_object::BoxedNetworkObject),
                >::empty());
                assert(kept@ =~= spec_objects_without_id(objs, oid));
                self.world.network_objects = kept;
            },
        }
    }

    /// Mark the sender as no longer typing, log the line, raise a bubble.
    fn handle_chat(&mut self, id: ClientId, message: String)
        requires
            spec_mirror_wf(*old(self)),
        ensures
            spec_mirror_wf(*final(self)),
            final(self).own_id == old(self).own_id,
            final(self).reconcile_own == old(self).reconcile_own,
            final(self).registry == old(self).registry,
            final(self).world@.network_objects == old(self).world@.network_objects,
            final(self).world@.special_events == old(self).world@.special_events,
            final(self).local.time_ms == old(self).local.time_ms,
            final(self).local.last_tick == old(self).local.last_tick,
            final(self).local.last_message == old(self).local.last_message,
            final(self).local.chat_open == old(self).local.chat_open,
            final(self).local.objects == old(self).local.objects,
            final(self).world@.clients == match spec_find_client(old(self).world@.clients, id) {
                Option::Some(i) => old(self).world@.clients.update(
                    i,
                    ClientV { typing: false, ..old(self).world@.clients[i] },
                ),
                Option::None => old(self).world@.clients,
            },
    {
        let ghost cls = self.world@.clients;
        proof {
            lemma_find_client(cls, id);
        }
        let nc = self.world.clients.len();
        let name: String = match find_client(&self.world.clients, id) {
            Some(ci) => {
                let name = self.world.clients[ci].name_string();
                self.world.clients[ci].typing = false;
                proof {
                    assert(self.world@.clients =~= cls.update(
                        spec_find_client(cls, id)->0,
                        ClientV { typing: false, ..cls[spec_find_client(cls, id)->0] },
                    ));
                }
                name
            },
            None => {
                if id.as_u32() == self.own_id.as_u32() {
                    let you = "You";
                    you.to_owned()
                } else {
                    let unknown = "Unknown";
                    unknown.to_owned()
                }
            },
        };
        let entry = ChatLogEntry { name, message: message.clone() };
        self.local.chat_log.push(entry);
        if self.local.chat_log.len() > CHAT_LOG_LIMIT {
            self.local.chat_log.remove(0);
        }
        let expiry = sat_add_u64(self.local.time_ms, CHAT_VISIBLE_MS);
        self.local.other_chat.push(ChatMessage { client_id: id, message, expiry });
    }

    /// Fold a server object broadcast into the matching mirrored object.
    fn handle_object_update(&mut self, oid: crate::ids::ObjectId, bytes: Vec<u8>)
        requires
            spec_mirror_wf(*old(self)),
        ensures
            spec_mirror_wf(*final(self)),
            final(self).own_id == old(self).own_id,
            final(self).reconcile_own == old(self).reconcile_own,
            final(self).registry == old(self).registry,
            final(self).local == old(self).local,
            final(self).world@.clients == old(self).world@.clients,
            final(self).world@.special_events == old(self).world@.special_events,
            match crate::server::spec_find_object(old(self).world@.network_objects, oid) {
                Option::None => final(self).world@.network_objects == old(
                    self,
                ).world@.network_objects,
                Option::Some(i) => {
                    let entry = old(self).world@.network_objects[i];
                    match crate::beach_ball::spec_dec_ball_state(bytes@) {
                        Option::Some(_) => final(self).world@.network_objects.len() == old(
                            self,
                        ).world@.network_objects.len() && final(self).world@.network_objects[i].0
                            == entry.0 && forall|k: int|
                            0 <= k < old(self).world@.network_objects.len() && k != i
                                ==> #[trigger] final(self).world@.network_objects[k] == old(
                                self,
                            ).world@.network_objects[k],
                        Option::None => final(self).world@.network_objects == old(
                            self,
                        ).world@.network_objects,
                    }
                },
            },
    {
        proof {
            crate::server::lemma_find_object(self.world.network_objects@, oid);
        }
        let ghost objs = self.world@.network_objects;
        let n = self.world.network_objects.len();
        match crate::server::find_object_in(&self.world.network_objects, oid) {
            None => {},
            Some(i) => {
                let mut entry = self.world.network_objects[i];
                match entry.1.client_message(bytes.as_slice()) {
                    Ok(()) => {
                        self.world.network_objects[i] = entry;
                    },
                    Err(_) => {
                        assert(self.world@.network_objects =~= objs);
                    },
                }
            },
        }
    }

    /// Drop chat bubbles whose time is up.
    fn drop_expired_chat(&mut self)
        ensures
            final(self).own_id == old(self).own_id,
            final(self).world == old(self).world,
            final(self).reconcile_own == old(self).reconcile_own,
            final(self).registry == old(self).registry,
            final(self).local.time_ms == old(self).local.time_ms,
            final(self).local.last_tick == old(self).local.last_tick,
            final(self).local.last_message == old(self).local.last_message,
            final(self).local.chat_open == old(self).local.chat_open,
            final(self).local.chat_log == old(self).local.chat_log,
            final(self).local.objects == old(self).local.objects,
    {
        let mut kept: Vec<ChatMessage> = Vec::new();
        let mut i: usize = 0;
        while i < self.local.other_chat.len()
            invariant
                i <= self.local.other_chat@.len(),
            decreases self.local.other_chat@.len() - i,
        {
            let entry = &self.local.other_chat[i];
            if entry.expiry > self.local.time_ms {
                let copy = ChatMessage {
                    client_id: entry.client_id,
                    message: entry.message.clone(),
                    expiry: entry.expiry,
                };
                kept.push(copy);
            }
            i = i + 1;
        }
        self.local.other_chat = kept;
    }
}

} // verus!
