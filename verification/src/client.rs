//! The player entity, the sparse per-tick delta a player sends
//! (`ClientAction`), and the client-to-server wire messages.

use vstd::prelude::*;

use crate::codec::DecodeError;
use crate::codec::spec_dec_bool;
use crate::codec::spec_dec_str;
use crate::codec::spec_dec_u32;
use crate::codec::spec_enc_bool;
use crate::codec::spec_enc_str;
use crate::codec::spec_enc_varint;
use crate::codec::spec_enc_bytes;
use crate::codec::spec_dec_bytes;
use crate::codec::decode_bool;
use crate::codec::decode_string;
use crate::codec::decode_u32;
use crate::codec::encode_bool;
use crate::codec::encode_string;
use crate::codec::encode_varint_u64;
use crate::codec::lemma_bool_roundtrip;
use crate::codec::lemma_str_roundtrip;
use crate::codec::lemma_u32_roundtrip;
use crate::geometry::Position;
use crate::geometry::spec_enc_position;
use crate::geometry::spec_dec_position;
use crate::geometry::encode_position;
use crate::geometry::decode_position;
use crate::geometry::lemma_position_roundtrip;
use crate::ids::ClientId;
use crate::ids::ObjectId;

verus! {

/// The direction a player moves or faces.
#[derive(Clone, Copy, Debug, PartialEq, Eq, Structural)]
pub enum MoveDirection {
    Up,
    Down,
    Left,
    Right,
    Still,
}

impl Default for MoveDirection {
    fn default() -> (r: MoveDirection)
        ensures
            r == MoveDirection::Still,
    {
        MoveDirection::Still
    }
}

/// The movement part of a delta: either a full move (new position plus
/// movement direction) or a change of facing alone.
#[derive(Clone, Copy, Debug, PartialEq, Eq, Structural)]
pub enum ClientActionMovement {
    Move(Position, MoveDirection),
    Look(MoveDirection),
}

/// A sparse delta to one player's state. `None` fields mean "no change".
#[derive(Clone, Copy, Debug, PartialEq, Eq, Structural)]
pub struct ClientAction {
    pub movement: Option<ClientActionMovement>,
    pub typing: Option<bool>,
}

/// One connected player, as the server owns it and as mirrors copy it.
#[derive(Clone, Debug)]
pub struct Client {
    pub id: ClientId,
    pub name: String,
    pub typing: bool,
    pub position: Position,
    pub movement: MoveDirection,
    pub look_direction: MoveDirection,
}

/// How `combine` folds a newer delta into an older one: any field set in the
/// newer delta overwrites the same field of the older one, except that a
/// bare change of facing keeps an already pending move's target position.
pub open spec fn spec_combined(base: ClientAction, newer: ClientAction) -> ClientAction {
    let movement = match newer.movement {
        Option::Some(ClientActionMovement::Move(p, d)) => Option::Some(
            ClientActionMovement::Move(p, d),
        ),
        Option::Some(ClientActionMovement::Look(d)) => match base.movement {
            Option::Some(ClientActionMovement::Move(p, _)) => Option::Some(
                ClientActionMovement::Move(p, d),
            ),
            _ => Option::Some(ClientActionMovement::Look(d)),
        },
        Option::None => base.movement,
    };
    let typing = if newer.typing is Some {
        newer.typing
    } else {
        base.typing
    };
    ClientAction { movement, typing }
}

/// Folding a whole sequence of deltas into `base`, oldest first.
pub open spec fn spec_combine_all(base: ClientAction, actions: Seq<ClientAction>) -> ClientAction
    decreases actions.len(),
{
    if actions.len() == 0 {
        base
    } else {
        spec_combine_all(spec_combined(base, actions[0]), actions.skip(1))
    }
}

/// `actions` with every delta that changes nothing removed.
pub open spec fn spec_drop_empty(actions: Seq<ClientAction>) -> Seq<ClientAction>
    decreases actions.len(),
{
    if actions.len() == 0 {
        actions
    } else if actions[0].movement is None && actions[0].typing is None {
        spec_drop_empty(actions.skip(1))
    } else {
        seq![actions[0]] + spec_drop_empty(actions.skip(1))
    }
}

/// A delta with no `Some` field leaves the fold where it was.
pub proof fn lemma_combine_empty_identity(base: ClientAction, empty: ClientAction)
    requires
        empty.movement is None,
        empty.typing is None,
    ensures
        spec_combined(base, empty) == base,
{
}

/// Coalescing ignores deltas that change nothing: however many of them are
/// interleaved, the folded result is the fold of the remaining deltas alone.
pub proof fn lemma_combine_all_drops_empty(base: ClientAction, actions: Seq<ClientAction>)
    ensures
        spec_combine_all(base, actions) == spec_combine_all(base, spec_drop_empty(actions)),
    decreases actions.len(),
{
    if actions.len() > 0 {
        let first = actions[0];
        if first.movement is None && first.typing is None {
            lemma_combine_all_drops_empty(base, actions.skip(1));
        } else {
            lemma_combine_all_drops_empty(spec_combined(base, first), actions.skip(1));
            let kept = seq![first] + spec_drop_empty(actions.skip(1));
            assert(kept.skip(1) =~= spec_drop_empty(actions.skip(1)));
        }
    }
}

/// Folding decomposes at the back: folding `s` then one more delta equals
/// folding `s.push(a)`.
pub proof fn lemma_combine_all_push(base: ClientAction, actions: Seq<ClientAction>, a: ClientAction)
    ensures
        spec_combine_all(base, actions.push(a)) == spec_combined(spec_combine_all(base, actions), a),
    decreases actions.len(),
{
    let snoc = actions.push(a);
    if actions.len() == 0 {
        assert(snoc[0] == a);
        assert(snoc.skip(1) =~= Seq::<ClientAction>::empty());
        assert(spec_combine_all(base, snoc) == spec_combine_all(spec_combined(base, a), snoc.skip(1)));
        assert(spec_combine_all(spec_combined(base, a), snoc.skip(1)) == spec_combined(base, a));
    } else {
        assert(snoc[0] == actions[0]);
        assert(snoc.skip(1) =~= actions.skip(1).push(a));
        lemma_combine_all_push(spec_combined(base, actions[0]), actions.skip(1), a);
        assert(spec_combine_all(base, snoc) == spec_combine_all(
            spec_combined(base, actions[0]),
            snoc.skip(1),
        ));
    }
}

/// The `typing` value carried by the latest delta that sets it, or `base` if
/// none does.
pub open spec fn spec_last_typing(actions: Seq<ClientAction>) -> Option<bool>
    decreases actions.len(),
{
    if actions.len() == 0 {
        Option::None
    } else if actions.last().typing is Some {
        actions.last().typing
    } else {
        spec_last_typing(actions.drop_last())
    }
}

/// Only the last `Some` value of the `typing` field survives coalescing.
pub proof fn lemma_combine_all_typing(base: ClientAction, actions: Seq<ClientAction>)
    ensures
        spec_combine_all(base, actions).typing == match spec_last_typing(actions) {
            Option::Some(t) => Option::Some(t),
            Option::None => base.typing,
        },
    decreases actions.len(),
{
    if actions.len() > 0 {
        let prefix = actions.drop_last();
        assert(prefix.push(actions.last()) =~= actions);
        lemma_combine_all_push(base, prefix, actions.last());
        lemma_combine_all_typing(base, prefix);
    }
}

/// The movement carried by the latest delta that sets one, if it is a full
/// move.
pub open spec fn spec_last_movement(actions: Seq<ClientAction>) -> Option<ClientActionMovement>
    decreases actions.len(),
{
    if actions.len() == 0 {
        Option::None
    } else if actions.last().movement is Some {
        actions.last().movement
    } else {
        spec_last_movement(actions.drop_last())
    }
}

/// When the latest delta that sets a movement is a full move, that move is
/// exactly what survives coalescing.
pub proof fn lemma_combine_all_movement(
    base: ClientAction,
    actions: Seq<ClientAction>,
    p: Position,
    d: MoveDirection,
)
    requires
        spec_last_movement(actions) == Option::Some(ClientActionMovement::Move(p, d)),
    ensures
        spec_combine_all(base, actions).movement == Option::Some(ClientActionMovement::Move(p, d)),
    decreases actions.len(),
{
    let prefix = actions.drop_last();
    assert(prefix.push(actions.last()) =~= actions);
    lemma_combine_all_push(base, prefix, actions.last());
    if actions.last().movement is None {
        lemma_combine_all_movement(base, prefix, p, d);
    }
}

impl ClientAction {
    /// The delta that changes nothing.
    pub fn new() -> (r: ClientAction)
        ensures
            r.movement is None,
            r.typing is None,
    {
        ClientAction { movement: Option::None, typing: Option::None }
    }

    /// Record a full move: the player stands at `movement` and moves on in
    /// `direction`.
    pub fn movement(&mut self, movement: Position, direction: MoveDirection)
        ensures
            final(self).movement == Option::Some(ClientActionMovement::Move(movement, direction)),
            final(self).typing == old(self).typing,
    {
        self.movement = Option::Some(ClientActionMovement::Move(movement, direction));
    }

    /// Record a change of facing. A pending full move keeps its target
    /// position and only turns.
    pub fn look(&mut self, direction: MoveDirection)
        ensures
            final(self).typing == old(self).typing,
            final(self).movement == match old(self).movement {
                Option::Some(ClientActionMovement::Move(p, _)) => Option::Some(
                    ClientActionMovement::Move(p, direction),
                ),
                _ => Option::Some(ClientActionMovement::Look(direction)),
            },
    {
        match &mut self.movement {
            Option::Some(ClientActionMovement::Move(_, d)) => {
                *d = direction;
            },
            _ => {
                self.movement = Option::Some(ClientActionMovement::Look(direction));
            },
        }
    }

    /// Record whether the player is composing a chat message.
    pub fn typing(&mut self, typing: bool)
        ensures
            final(self).typing == Option::Some(typing),
            final(self).movement == old(self).movement,
    {
        self.typing = Option::Some(typing);
    }

    /// Whether this delta changes anything at all.
    pub fn any(&self) -> (r: bool)
        ensures
            r == (self.movement is Some || self.typing is Some),
    {
        self.movement.is_some() || self.typing.is_some()
    }

    /// Fold the newer delta `action` into `self`, keeping the most recent
    /// value of each independent field.
    pub fn combine(&mut self, action: &ClientAction)
        ensures
            *final(self) == spec_combined(*old(self), *action),
    {
        match &action.movement {
            Option::Some(ClientActionMovement::Move(p, d)) => {
                self.movement(*p, *d);
            },
            Option::Some(ClientActionMovement::Look(d)) => {
                self.look(*d);
            },
            Option::None => {},
        }
        if action.typing.is_some() {
            self.typing = action.typing;
        }
    }
}

impl Client {
    /// A freshly connected player: not typing, standing still, facing
    /// nowhere in particular.
    pub fn new(id: ClientId, name: String, position: Position) -> (r: Client)
        ensures
            r.id == id,
            r.name@ == name@,
            r.typing == false,
            r.position == position,
            r.movement == MoveDirection::Still,
            r.look_direction == MoveDirection::Still,
    {
        Client {
            id,
            name,
            typing: false,
            position,
            movement: MoveDirection::Still,
            look_direction: MoveDirection::Still,
        }
    }

    /// The id this player connected under.
    pub fn id(&self) -> (r: ClientId)
        ensures
            r == self.id,
    {
        self.id
    }

    /// The id, for use in contracts.
    pub open spec fn spec_id(&self) -> ClientId {
        self.id
    }

    /// The display name.
    pub fn name(&self) -> (r: &str)
        ensures
            r@ == self.name@,
    {
        self.name.as_str()
    }

    /// The display name, for use in contracts.
    pub open spec fn spec_name(&self) -> Seq<char> {
        self.name@
    }

    /// An owned copy of the display name.
    pub fn name_string(&self) -> (r: String)
        ensures
            r@ == self.name@,
    {
        self.name.clone()
    }

    /// An owned copy of this player with the same abstract value.
    pub fn duplicate(&self) -> (r: Client)
        ensures
            r@ == self@,
    {
        Client {
            id: self.id,
            name: self.name.clone(),
            typing: self.typing,
            position: self.position,
            movement: self.movement,
            look_direction: self.look_direction,
        }
    }

    /// The player after `action`: a full move replaces position and movement
    /// and, when the move direction is a real direction, also the facing; a
    /// bare look only turns; a typing change replaces the typing flag.
    pub open spec fn spec_applied(self, action: ClientAction) -> Client {
        let mid = match action.movement {
            Option::Some(ClientActionMovement::Move(p, d)) => Client {
                position: p,
                movement: d,
                look_direction: if d != MoveDirection::Still {
                    d
                } else {
                    self.look_direction
                },
                ..self
            },
            Option::Some(ClientActionMovement::Look(d)) => Client { look_direction: d, ..self },
            Option::None => self,
        };
        match action.typing {
            Option::Some(t) => Client { typing: t, ..mid },
            Option::None => mid,
        }
    }

    /// Apply a delta to this player.
    pub fn apply_action(&mut self, action: &ClientAction)
        ensures
            *final(self) == old(self).spec_applied(*action),
    {
        match &action.movement {
            Option::Some(ClientActionMovement::Move(p, d)) => {
                self.position = *p;
                self.movement = *d;
                match d {
                    MoveDirection::Still => {},
                    _ => {
                        self.look_direction = *d;
                    },
                }
            },
            Option::Some(ClientActionMovement::Look(d)) => {
                self.look_direction = *d;
            },
            Option::None => {},
        }
        if let Option::Some(typing) = action.typing {
            self.typing = typing;
        }
    }
}

/// The abstract value of a `Client`: its fields with text as a character
/// sequence.
pub ghost struct ClientV {
    pub id: ClientId,
    pub name: Seq<char>,
    pub typing: bool,
    pub position: Position,
    pub movement: MoveDirection,
    pub look_direction: MoveDirection,
}

impl View for Client {
    type V = ClientV;

    open spec fn view(&self) -> ClientV {
        ClientV {
            id: self.id,
            name: self.name@,
            typing: self.typing,
            position: self.position,
            movement: self.movement,
            look_direction: self.look_direction,
        }
    }
}

/// The wire tag of a direction: the index of its variant.
pub open spec fn spec_direction_tag(d: MoveDirection) -> nat {
    match d {
        MoveDirection::Up => 0,
        MoveDirection::Down => 1,
        MoveDirection::Left => 2,
        MoveDirection::Right => 3,
        MoveDirection::Still => 4,
    }
}

/// A direction travels as its variant index.
pub open spec fn spec_enc_direction(d: MoveDirection) -> Seq<u8> {
    spec_enc_varint(spec_direction_tag(d))
}

pub open spec fn spec_dec_direction(bytes: Seq<u8>) -> Option<(MoveDirection, int)> {
    match spec_dec_u32(bytes) {
        None => None,
        Some(d) => if d.0 == 0 {
            Some((MoveDirection::Up, d.1))
        } else if d.0 == 1 {
            Some((MoveDirection::Down, d.1))
        } else if d.0 == 2 {
            Some((MoveDirection::Left, d.1))
        } else if d.0 == 3 {
            Some((MoveDirection::Right, d.1))
        } else if d.0 == 4 {
            Some((MoveDirection::Still, d.1))
        } else {
            None
        },
    }
}

pub proof fn lemma_direction_roundtrip(d: MoveDirection, rest: Seq<u8>)
    ensures
        spec_dec_direction(spec_enc_direction(d) + rest) == Some(
            (d, spec_enc_direction(d).len() as int),
        ),
{
    lemma_u32_roundtrip(spec_direction_tag(d) as u32, rest);
}

pub proof fn lemma_dec_direction_bounds(bytes: Seq<u8>)
    ensures
        spec_dec_direction(bytes) matches Some(d) ==> 1 <= d.1 <= bytes.len(),
{
    crate::codec::lemma_dec_u32_bounds(bytes);
}

/// Appends the encoding of `d` to `out`.
pub fn encode_direction(out: &mut Vec<u8>, d: MoveDirection)
    ensures
        final(out)@ == old(out)@ + spec_enc_direction(d),
{
    let tag: u64 = match d {
        MoveDirection::Up => 0,
        MoveDirection::Down => 1,
        MoveDirection::Left => 2,
        MoveDirection::Right => 3,
        MoveDirection::Still => 4,
    };
    encode_varint_u64(out, tag);
}

/// Reads one direction starting at `pos`.
pub fn decode_direction(bytes: &[u8], pos: usize) -> (r: Option<(MoveDirection, usize)>)
    requires
        pos <= bytes@.len(),
    ensures
        match spec_dec_direction(bytes@.skip(pos as int)) {
            None => r is None,
            Some(d) => r == Some((d.0, (pos + d.1) as usize)),
        },
{
    match decode_u32(bytes, pos) {
        None => None,
        Some((tag, p)) => {
            if tag == 0 {
                Some((MoveDirection::Up, p))
            } else if tag == 1 {
                Some((MoveDirection::Down, p))
            } else if tag == 2 {
                Some((MoveDirection::Left, p))
            } else if tag == 3 {
                Some((MoveDirection::Right, p))
            } else if tag == 4 {
                Some((MoveDirection::Still, p))
            } else {
                None
            }
        },
    }
}

/// An optional movement: an absence byte, or a presence byte followed by the
/// variant index and its fields.
pub open spec fn spec_enc_opt_movement(m: Option<ClientActionMovement>) -> Seq<u8> {
    match m {
        Option::None => seq![0u8],
        Option::Some(ClientActionMovement::Move(p, d)) => seq![1u8] + spec_enc_varint(0)
            + spec_enc_position(p) + spec_enc_direction(d),
        Option::Some(ClientActionMovement::Look(d)) => seq![1u8] + spec_enc_varint(1)
            + spec_enc_direction(d),
    }
}

pub open spec fn spec_dec_opt_movement(bytes: Seq<u8>) -> Option<
    (Option<ClientActionMovement>, int),
> {
    if bytes.len() == 0 {
        None
    } else if bytes[0] == 0 {
        Some((Option::None, 1))
    } else if bytes[0] == 1 {
        match spec_dec_u32(bytes.skip(1)) {
            None => None,
            Some(dt) => if dt.0 == 0 {
                match spec_dec_position(bytes.skip(1 + dt.1)) {
                    None => None,
                    Some(dp) => match spec_dec_direction(bytes.skip(1 + dt.1 + dp.1)) {
                        None => None,
                        Some(dd) => Some(
                            (
                                Option::Some(ClientActionMovement::Move(dp.0, dd.0)),
                                1 + dt.1 + dp.1 + dd.1,
                            ),
                        ),
                    },
                }
            } else if dt.0 == 1 {
                match spec_dec_direction(bytes.skip(1 + dt.1)) {
                    None => None,
                    Some(dd) => Some(
                        (Option::Some(ClientActionMovement::Look(dd.0)), 1 + dt.1 + dd.1),
                    ),
                }
            } else {
                None
            },
        }
    } else {
        None
    }
}

pub proof fn lemma_opt_movement_roundtrip(m: Option<ClientActionMovement>, rest: Seq<u8>)
    ensures
        spec_dec_opt_movement(spec_enc_opt_movement(m) + rest) == Some(
            (m, spec_enc_opt_movement(m).len() as int),
        ),
{
    let whole = spec_enc_opt_movement(m) + rest;
    match m {
        Option::None => {
            assert(whole[0] == 0u8);
        },
        Option::Some(ClientActionMovement::Move(p, d)) => {
            let et = spec_enc_varint(0);
            let ep = spec_enc_position(p);
            let ed = spec_enc_direction(d);
            assert(whole[0] == 1u8);
            assert(whole.skip(1) =~= et + (ep + (ed + rest)));
            lemma_u32_roundtrip(0, ep + (ed + rest));
            assert(whole.skip((1 + et.len()) as int) =~= ep + (ed + rest));
            lemma_position_roundtrip(p, ed + rest);
            assert(whole.skip((1 + et.len() + ep.len()) as int) =~= ed + rest);
            lemma_direction_roundtrip(d, rest);
        },
        Option::Some(ClientActionMovement::Look(d)) => {
            let et = spec_enc_varint(1);
            let ed = spec_enc_direction(d);
            assert(whole[0] == 1u8);
            assert(whole.skip(1) =~= et + (ed + rest));
            lemma_u32_roundtrip(1, ed + rest);
            assert(whole.skip((1 + et.len()) as int) =~= ed + rest);
            lemma_direction_roundtrip(d, rest);
        },
    }
}

pub proof fn lemma_dec_opt_movement_bounds(bytes: Seq<u8>)
    ensures
        spec_dec_opt_movement(bytes) matches Some(d) ==> 1 <= d.1 <= bytes.len(),
{
    if bytes.len() > 0 && bytes[0] == 1 {
        crate::codec::lemma_dec_u32_bounds(bytes.skip(1));
        let dt = spec_dec_u32(bytes.skip(1));
        if dt is Some {
            let lt = dt->Some_0.1;
            assert(bytes.skip(1).skip(lt) =~= bytes.skip(1 + lt));
            crate::geometry::lemma_dec_position_bounds(bytes.skip(1 + lt));
            lemma_dec_direction_bounds(bytes.skip(1 + lt));
            let dp = spec_dec_position(bytes.skip(1 + lt));
            if dp is Some {
                let lp = dp->Some_0.1;
                lemma_dec_direction_bounds(bytes.skip(1 + lt + lp));
            }
        }
    }
}

/// Appends the encoding of `m` to `out`.
pub fn encode_opt_movement(out: &mut Vec<u8>, m: &Option<ClientActionMovement>)
    ensures
        final(out)@ == old(out)@ + spec_enc_opt_movement(*m),
{
    match m {
        Option::None => {
            out.push(0);
            assert(out@ =~= old(out)@ + spec_enc_opt_movement(*m));
        },
        Option::Some(ClientActionMovement::Move(p, d)) => {
            out.push(1);
            encode_varint_u64(out, 0);
            encode_position(out, p);
            encode_direction(out, *d);
            assert(out@ =~= old(out)@ + spec_enc_opt_movement(*m));
        },
        Option::Some(ClientActionMovement::Look(d)) => {
            out.push(1);
            encode_varint_u64(out, 1);
            encode_direction(out, *d);
            assert(out@ =~= old(out)@ + spec_enc_opt_movement(*m));
        },
    }
}

/// Reads one optional movement starting at `pos`.
pub fn decode_opt_movement(bytes: &[u8], pos: usize) -> (r: Option<
    (Option<ClientActionMovement>, usize),
>)
    requires
        pos <= bytes@.len(),
    ensures
        match spec_dec_opt_movement(bytes@.skip(pos as int)) {
            None => r is None,
            Some(d) => r == Some((d.0, (pos + d.1) as usize)),
        },
{
    let total = bytes.len();
    if pos >= total {
        return None;
    }
    let flag = *vstd::slice::slice_index_get(bytes, pos);
    if flag == 0 {
        Some((None, pos + 1))
    } else if flag == 1 {
        assert(bytes@.skip(pos as int).skip(1) =~= bytes@.skip(pos as int + 1));
        proof {
            crate::codec::lemma_dec_u32_bounds(bytes@.skip(pos as int + 1));
        }
        match decode_u32(bytes, pos + 1) {
            None => None,
            Some((tag, p1)) => {
                assert(bytes@.skip(pos as int + 1).skip(p1 - pos - 1) =~= bytes@.skip(p1 as int));
                assert(bytes@.skip(pos as int).skip(p1 - pos) =~= bytes@.skip(p1 as int));
                if tag == 0 {
                    proof {
                        crate::geometry::lemma_dec_position_bounds(bytes@.skip(p1 as int));
                    }
                    match decode_position(bytes, p1) {
                        None => None,
                        Some((p, p2)) => {
                            assert(bytes@.skip(p1 as int).skip(p2 - p1) =~= bytes@.skip(
                                p2 as int,
                            ));
                            assert(bytes@.skip(pos as int).skip(p2 - pos) =~= bytes@.skip(
                                p2 as int,
                            ));
                            match decode_direction(bytes, p2) {
                                None => None,
                                Some((d, p3)) => Some(
                                    (Some(ClientActionMovement::Move(p, d)), p3),
                                ),
                            }
                        },
                    }
                } else if tag == 1 {
                    match decode_direction(bytes, p1) {
                        None => None,
                        Some((d, p2)) => Some((Some(ClientActionMovement::Look(d)), p2)),
                    }
                } else {
                    None
                }
            },
        }
    } else {
        None
    }
}

/// An optional `bool`: an absence byte, or a presence byte and the value.
pub open spec fn spec_enc_opt_bool(t: Option<bool>) -> Seq<u8> {
    match t {
        Option::None => seq![0u8],
        Option::Some(b) => seq![1u8] + spec_enc_bool(b),
    }
}

pub open spec fn spec_dec_opt_bool(bytes: Seq<u8>) -> Option<(Option<bool>, int)> {
    if bytes.len() == 0 {
        None
    } else if bytes[0] == 0 {
        Some((Option::None, 1))
    } else if bytes[0] == 1 {
        match spec_dec_bool(bytes.skip(1)) {
            None => None,
            Some(d) => Some((Option::Some(d.0), 1 + d.1)),
        }
    } else {
        None
    }
}

pub proof fn lemma_opt_bool_roundtrip(t: Option<bool>, rest: Seq<u8>)
    ensures
        spec_dec_opt_bool(spec_enc_opt_bool(t) + rest) == Some(
            (t, spec_enc_opt_bool(t).len() as int),
        ),
{
    let whole = spec_enc_opt_bool(t) + rest;
    match t {
        Option::None => {
            assert(whole[0] == 0u8);
        },
        Option::Some(b) => {
            assert(whole[0] == 1u8);
            assert(whole.skip(1) =~= spec_enc_bool(b) + rest);
            lemma_bool_roundtrip(b, rest);
        },
    }
}

pub proof fn lemma_dec_opt_bool_bounds(bytes: Seq<u8>)
    ensures
        spec_dec_opt_bool(bytes) matches Some(d) ==> 1 <= d.1 <= bytes.len(),
{
    if bytes.len() > 0 && bytes[0] == 1 {
        crate::codec::lemma_dec_bool_bounds(bytes.skip(1));
    }
}

/// Appends the encoding of `t` to `out`.
pub fn encode_opt_bool(out: &mut Vec<u8>, t: &Option<bool>)
    ensures
        final(out)@ == old(out)@ + spec_enc_opt_bool(*t),
{
    match t {
        Option::None => {
            out.push(0);
            assert(out@ =~= old(out)@ + spec_enc_opt_bool(*t));
        },
        Option::Some(b) => {
            out.push(1);
            encode_bool(out, *b);
            assert(out@ =~= old(out)@ + spec_enc_opt_bool(*t));
        },
    }
}

/// Reads one optional `bool` starting at `pos`.
pub fn decode_opt_bool(bytes: &[u8], pos: usize) -> (r: Option<(Option<bool>, usize)>)
    requires
        pos <= bytes@.len(),
    ensures
        match spec_dec_opt_bool(bytes@.skip(pos as int)) {
            None => r is None,
            Some(d) => r == Some((d.0, (pos + d.1) as usize)),
        },
{
    let total = bytes.len();
    if pos >= total {
        return None;
    }
    let flag = *vstd::slice::slice_index_get(bytes, pos);
    if flag == 0 {
        Some((None, pos + 1))
    } else if flag == 1 {
        assert(bytes@.skip(pos as int).skip(1) =~= bytes@.skip(pos as int + 1));
        match decode_bool(bytes, pos + 1) {
            None => None,
            Some((b, p)) => Some((Some(b), p)),
        }
    } else {
        None
    }
}

/// A delta travels as its optional movement, then its optional typing flag.
pub open spec fn spec_enc_action(a: ClientAction) -> Seq<u8> {
    spec_enc_opt_movement(a.movement) + spec_enc_opt_bool(a.typing)
}

pub open spec fn spec_dec_action(bytes: Seq<u8>) -> Option<(ClientAction, int)> {
    match spec_dec_opt_movement(bytes) {
        None => None,
        Some(dm) => match spec_dec_opt_bool(bytes.skip(dm.1)) {
            None => None,
            Some(dt) => Some((ClientAction { movement: dm.0, typing: dt.0 }, dm.1 + dt.1)),
        },
    }
}

pub proof fn lemma_action_roundtrip(a: ClientAction, rest: Seq<u8>)
    ensures
        spec_dec_action(spec_enc_action(a) + rest) == Some((a, spec_enc_action(a).len() as int)),
{
    let em = spec_enc_opt_movement(a.movement);
    let et = spec_enc_opt_bool(a.typing);
    assert(spec_enc_action(a) + rest =~= em + (et + rest));
    lemma_opt_movement_roundtrip(a.movement, et + rest);
    assert((em + (et + rest)).skip(em.len() as int) =~= et + rest);
    lemma_opt_bool_roundtrip(a.typing, rest);
}

pub proof fn lemma_dec_action_bounds(bytes: Seq<u8>)
    ensures
        spec_dec_action(bytes) matches Some(d) ==> 1 <= d.1 <= bytes.len(),
{
    lemma_dec_opt_movement_bounds(bytes);
    let dm = spec_dec_opt_movement(bytes);
    if dm is Some {
        lemma_dec_opt_bool_bounds(bytes.skip(dm->Some_0.1));
    }
}

/// Appends the encoding of `a` to `out`.
pub fn encode_action(out: &mut Vec<u8>, a: &ClientAction)
    ensures
        final(out)@ == old(out)@ + spec_enc_action(*a),
{
    encode_opt_movement(out, &a.movement);
    encode_opt_bool(out, &a.typing);
    assert(out@ =~= old(out)@ + spec_enc_action(*a));
}

/// Reads one delta starting at `pos`.
pub fn decode_action(bytes: &[u8], pos: usize) -> (r: Option<(ClientAction, usize)>)
    requires
        pos <= bytes@.len(),
    ensures
        match spec_dec_action(bytes@.skip(pos as int)) {
            None => r is None,
            Some(d) => r == Some((d.0, (pos + d.1) as usize)),
        },
{
    let total = bytes.len();
    proof {
        lemma_dec_opt_movement_bounds(bytes@.skip(pos as int));
    }
    match decode_opt_movement(bytes, pos) {
        None => None,
        Some((movement, p1)) => {
            assert(bytes@.skip(pos as int).skip(p1 - pos) =~= bytes@.skip(p1 as int));
            match decode_opt_bool(bytes, p1) {
                None => None,
                Some((typing, p2)) => Some((ClientAction { movement, typing }, p2)),
            }
        },
    }
}

/// A player travels as id, name, typing flag, position, movement and facing,
/// in that order.
pub open spec fn spec_enc_client(c: ClientV) -> Seq<u8> {
    spec_enc_varint(c.id.0 as nat) + spec_enc_str(c.name) + spec_enc_bool(c.typing)
        + spec_enc_position(c.position) + spec_enc_direction(c.movement) + spec_enc_direction(
        c.look_direction,
    )
}

pub open spec fn spec_dec_client(bytes: Seq<u8>) -> Option<(ClientV, int)> {
    match spec_dec_u32(bytes) {
        None => None,
        Some(d1) => match spec_dec_str(bytes.skip(d1.1)) {
            None => None,
            Some(d2) => match spec_dec_bool(bytes.skip(d1.1 + d2.1)) {
                None => None,
                Some(d3) => match spec_dec_position(bytes.skip(d1.1 + d2.1 + d3.1)) {
                    None => None,
                    Some(d4) => match spec_dec_direction(bytes.skip(d1.1 + d2.1 + d3.1 + d4.1)) {
                        None => None,
                        Some(d5) => match spec_dec_direction(
                            bytes.skip(d1.1 + d2.1 + d3.1 + d4.1 + d5.1),
                        ) {
                            None => None,
                            Some(d6) => Some(
                                (
                                    ClientV {
                                        id: ClientId(d1.0),
                                        name: d2.0,
                                        typing: d3.0,
                                        position: d4.0,
                                        movement: d5.0,
                                        look_direction: d6.0,
                                    },
                                    d1.1 + d2.1 + d3.1 + d4.1 + d5.1 + d6.1,
                                ),
                            ),
                        },
                    },
                },
            },
        },
    }
}

#[verifier::rlimit(90)]
pub proof fn lemma_client_roundtrip(c: ClientV, rest: Seq<u8>)
    ensures
        spec_dec_client(spec_enc_client(c) + rest) == Some((c, spec_enc_client(c).len() as int)),
{
    let e1 = spec_enc_varint(c.id.0 as nat);
    let e2 = spec_enc_str(c.name);
    let e3 = spec_enc_bool(c.typing);
    let e4 = spec_enc_position(c.position);
    let e5 = spec_enc_direction(c.movement);
    let e6 = spec_enc_direction(c.look_direction);
    let t5 = e6 + rest;
    let t4 = e5 + t5;
    let t3 = e4 + t4;
    let t2 = e3 + t3;
    let t1 = e2 + t2;
    let whole = spec_enc_client(c) + rest;
    let l1 = e1.len() as int;
    let l2 = e2.len() as int;
    let l3 = e3.len() as int;
    let l4 = e4.len() as int;
    let l5 = e5.len() as int;
    assert(whole =~= e1 + t1);
    lemma_u32_roundtrip(c.id.0, t1);
    lemma_str_roundtrip(c.name, t2);
    lemma_bool_roundtrip(c.typing, t3);
    lemma_position_roundtrip(c.position, t4);
    lemma_direction_roundtrip(c.movement, t5);
    lemma_direction_roundtrip(c.look_direction, rest);
    assert(whole.skip(l1) =~= t1);
    assert(whole.skip(l1 + l2) =~= t1.skip(l2));
    assert(t1.skip(l2) =~= t2);
    assert(whole.skip(l1 + l2 + l3) =~= t2.skip(l3));
    assert(t2.skip(l3) =~= t3);
    assert(whole.skip(l1 + l2 + l3 + l4) =~= t3.skip(l4));
    assert(t3.skip(l4) =~= t4);
    assert(whole.skip(l1 + l2 + l3 + l4 + l5) =~= t4.skip(l5));
    assert(t4.skip(l5) =~= t5);
}

pub proof fn lemma_dec_client_bounds(bytes: Seq<u8>)
    ensures
        spec_dec_client(bytes) matches Some(d) ==> 1 <= d.1 <= bytes.len(),
{
    crate::codec::lemma_dec_u32_bounds(bytes);
    let d1 = spec_dec_u32(bytes);
    if d1 is Some {
        let l1 = d1->Some_0.1;
        crate::codec::lemma_dec_str_bounds(bytes.skip(l1));
        let d2 = spec_dec_str(bytes.skip(l1));
        if d2 is Some {
            let l2 = l1 + d2->Some_0.1;
            crate::codec::lemma_dec_bool_bounds(bytes.skip(l2));
            let d3 = spec_dec_bool(bytes.skip(l2));
            if d3 is Some {
                let l3 = l2 + d3->Some_0.1;
                crate::geometry::lemma_dec_position_bounds(bytes.skip(l3));
                let d4 = spec_dec_position(bytes.skip(l3));
                if d4 is Some {
                    let l4 = l3 + d4->Some_0.1;
                    lemma_dec_direction_bounds(bytes.skip(l4));
                    let d5 = spec_dec_direction(bytes.skip(l4));
                    if d5 is Some {
                        let l5 = l4 + d5->Some_0.1;
                        lemma_dec_direction_bounds(bytes.skip(l5));
                    }
                }
            }
        }
    }
}

/// Appends the encoding of `c` to `out`.
pub fn encode_client(out: &mut Vec<u8>, c: &Client)
    ensures
        final(out)@ == old(out)@ + spec_enc_client(c@),
{
    encode_varint_u64(out, c.id.0 as u64);
    encode_string(out, c.name.as_str());
    encode_bool(out, c.typing);
    encode_position(out, &c.position);
    encode_direction(out, c.movement);
    encode_direction(out, c.look_direction);
    assert(out@ =~= old(out)@ + spec_enc_client(c@));
}

/// Reads one player starting at `pos`.
#[verifier::rlimit(90)]
pub fn decode_client(bytes: &[u8], pos: usize) -> (r: Option<(Client, usize)>)
    requires
        pos <= bytes@.len(),
    ensures
        match spec_dec_client(bytes@.skip(pos as int)) {
            None => r is None,
            Some(d) => r matches Some(rv) && rv.0@ == d.0 && rv.1 == pos + d.1,
        },
{
    let total = bytes.len();
    proof {
        crate::codec::lemma_dec_u32_bounds(bytes@.skip(pos as int));
    }
    match decode_u32(bytes, pos) {
        None => None,
        Some((id, p1)) => {
            assert(bytes@.skip(pos as int).skip(p1 - pos) =~= bytes@.skip(p1 as int));
            proof {
                crate::codec::lemma_dec_str_bounds(bytes@.skip(p1 as int));
            }
            match decode_string(bytes, p1) {
                None => None,
                Some((name, p2)) => {
                    assert(bytes@.skip(p1 as int).skip(p2 - p1) =~= bytes@.skip(p2 as int));
                    assert(bytes@.skip(pos as int).skip(p2 - pos) =~= bytes@.skip(p2 as int));
                    proof {
                        crate::codec::lemma_dec_bool_bounds(bytes@.skip(p2 as int));
                    }
                    match decode_bool(bytes, p2) {
                        None => None,
                        Some((typing, p3)) => {
                            assert(bytes@.skip(p2 as int).skip(p3 - p2) =~= bytes@.skip(
                                p3 as int,
                            ));
                            assert(bytes@.skip(pos as int).skip(p3 - pos) =~= bytes@.skip(
                                p3 as int,
                            ));
                            proof {
                                crate::geometry::lemma_dec_position_bounds(bytes@.skip(p3 as int));
                            }
                            match decode_position(bytes, p3) {
                                None => None,
                                Some((position, p4)) => {
                                    assert(bytes@.skip(p3 as int).skip(p4 - p3) =~= bytes@.skip(
                                        p4 as int,
                                    ));
                                    assert(bytes@.skip(pos as int).skip(p4 - pos) =~= bytes@.skip(
                                        p4 as int,
                                    ));
                                    proof {
                                        lemma_dec_direction_bounds(bytes@.skip(p4 as int));
                                    }
                                    match decode_direction(bytes, p4) {
                                        None => None,
                                        Some((movement, p5)) => {
                                            assert(bytes@.skip(p4 as int).skip(p5 - p4)
                                                =~= bytes@.skip(p5 as int));
                                            assert(bytes@.skip(pos as int).skip(p5 - pos)
                                                =~= bytes@.skip(p5 as int));
                                            proof {
                                                lemma_dec_direction_bounds(
                                                    bytes@.skip(p5 as int),
                                                );
                                            }
                                            match decode_direction(bytes, p5) {
                                                None => None,
                                                Some((look_direction, p6)) => Some(
                                                    (
                                                        Client {
                                                            id: ClientId(id),
                                                            name,
                                                            typing,
                                                            position,
                                                            movement,
                                                            look_direction,
                                                        },
                                                        p6,
                                                    ),
                                                ),
                                            }
                                        },
                                    }
                                },
                            }
                        },
                    }
                },
            }
        },
    }
}

/// A message from a client to the server.
#[derive(Clone, Debug)]
pub enum ClientMessage {
    /// Ask to join under the given display name.
    Connect { name: String },
    /// A movement or typing delta for this client's player.
    Action(ClientAction),
    /// A chat line.
    Chat(String),
    /// An opaque payload for one network object.
    UpdateObject(ObjectId, Vec<u8>),
}

/// The abstract value of a `ClientMessage`.
pub ghost enum ClientMessageV {
    Connect { name: Seq<char> },
    Action(ClientAction),
    Chat(Seq<char>),
    UpdateObject(ObjectId, Seq<u8>),
}

impl View for ClientMessage {
    type V = ClientMessageV;

    open spec fn view(&self) -> ClientMessageV {
        match self {
            ClientMessage::Connect { name } => ClientMessageV::Connect { name: name@ },
            ClientMessage::Action(a) => ClientMessageV::Action(*a),
            ClientMessage::Chat(s) => ClientMessageV::Chat(s@),
            ClientMessage::UpdateObject(id, data) => ClientMessageV::UpdateObject(*id, data@),
        }
    }
}

/// A client message travels as its variant index, then its fields in order.
pub open spec fn spec_enc_client_message(m: ClientMessageV) -> Seq<u8> {
    match m {
        ClientMessageV::Connect { name } => spec_enc_varint(0) + spec_enc_str(name),
        ClientMessageV::Action(a) => spec_enc_varint(1) + spec_enc_action(a),
        ClientMessageV::Chat(s) => spec_enc_varint(2) + spec_enc_str(s),
        ClientMessageV::UpdateObject(id, data) => spec_enc_varint(3) + spec_enc_varint(
            id.0 as nat,
        ) + spec_enc_bytes(data),
    }
}

pub open spec fn spec_dec_client_message(bytes: Seq<u8>) -> Option<(ClientMessageV, int)> {
    match spec_dec_u32(bytes) {
        None => None,
        Some(dt) => if dt.0 == 0 {
            match spec_dec_str(bytes.skip(dt.1)) {
                None => None,
                Some(d) => Some((ClientMessageV::Connect { name: d.0 }, dt.1 + d.1)),
            }
        } else if dt.0 == 1 {
            match spec_dec_action(bytes.skip(dt.1)) {
                None => None,
                Some(d) => Some((ClientMessageV::Action(d.0), dt.1 + d.1)),
            }
        } else if dt.0 == 2 {
            match spec_dec_str(bytes.skip(dt.1)) {
                None => None,
                Some(d) => Some((ClientMessageV::Chat(d.0), dt.1 + d.1)),
            }
        } else if dt.0 == 3 {
            match spec_dec_u32(bytes.skip(dt.1)) {
                None => None,
                Some(di) => match spec_dec_bytes(bytes.skip(dt.1 + di.1)) {
                    None => None,
                    Some(d) => Some(
                        (
                            ClientMessageV::UpdateObject(ObjectId(di.0), d.0),
                            dt.1 + di.1 + d.1,
                        ),
                    ),
                },
            }
        } else {
            None
        },
    }
}

#[verifier::rlimit(60)]
pub proof fn lemma_client_message_roundtrip(m: ClientMessageV, rest: Seq<u8>)
    ensures
        spec_dec_client_message(spec_enc_client_message(m) + rest) == Some(
            (m, spec_enc_client_message(m).len() as int),
        ),
{
    let whole = spec_enc_client_message(m) + rest;
    match m {
        ClientMessageV::Connect { name } => {
            let et = spec_enc_varint(0);
            let en = spec_enc_str(name);
            assert(whole =~= et + (en + rest));
            lemma_u32_roundtrip(0, en + rest);
            assert(whole.skip(et.len() as int) =~= en + rest);
            lemma_str_roundtrip(name, rest);
        },
        ClientMessageV::Action(a) => {
            let et = spec_enc_varint(1);
            let ea = spec_enc_action(a);
            assert(whole =~= et + (ea + rest));
            lemma_u32_roundtrip(1, ea + rest);
            assert(whole.skip(et.len() as int) =~= ea + rest);
            lemma_action_roundtrip(a, rest);
        },
        ClientMessageV::Chat(s) => {
            let et = spec_enc_varint(2);
            let es = spec_enc_str(s);
            assert(whole =~= et + (es + rest));
            lemma_u32_roundtrip(2, es + rest);
            assert(whole.skip(et.len() as int) =~= es + rest);
            lemma_str_roundtrip(s, rest);
        },
        ClientMessageV::UpdateObject(id, data) => {
            let et = spec_enc_varint(3);
            let ei = spec_enc_varint(id.0 as nat);
            let ed = spec_enc_bytes(data);
            assert(whole =~= et + (ei + (ed + rest)));
            lemma_u32_roundtrip(3, ei + (ed + rest));
            assert(whole.skip(et.len() as int) =~= ei + (ed + rest));
            lemma_u32_roundtrip(id.0, ed + rest);
            assert(whole.skip((et.len() + ei.len()) as int) =~= ed + rest);
            crate::codec::lemma_bytes_roundtrip(data, rest);
        },
    }
}

impl ClientMessage {
    /// Encode this message for the wire.
    pub fn to_bytes(&self) -> (r: Vec<u8>)
        ensures
            r@ == spec_enc_client_message(self@),
    {
        let mut out: Vec<u8> = Vec::new();
        match self {
            ClientMessage::Connect { name } => {
                encode_varint_u64(&mut out, 0);
                encode_string(&mut out, name.as_str());
            },
            ClientMessage::Action(a) => {
                encode_varint_u64(&mut out, 1);
                encode_action(&mut out, a);
            },
            ClientMessage::Chat(s) => {
                encode_varint_u64(&mut out, 2);
                encode_string(&mut out, s.as_str());
            },
            ClientMessage::UpdateObject(id, data) => {
                encode_varint_u64(&mut out, 3);
                encode_varint_u64(&mut out, id.0 as u64);
                crate::codec::encode_bytes(&mut out, data);
            },
        }
        assert(out@ =~= spec_enc_client_message(self@));
        out
    }

    /// Decode one message from the front of `bytes`. Trailing bytes after
    /// the message are ignored, as the transport frames messages itself.
    pub fn from_bytes(bytes: &[u8]) -> (r: Result<ClientMessage, DecodeError>)
        ensures
            match spec_dec_client_message(bytes@) {
                Some(d) => r matches Ok(m) && m@ == d.0,
                None => r matches Err(e) && e == DecodeError::Malformed,
            },
    {
        let total = bytes.len();
        assert(bytes@.skip(0) =~= bytes@);
        proof {
            crate::codec::lemma_dec_u32_bounds(bytes@);
        }
        match decode_u32(bytes, 0) {
            None => Err(DecodeError::Malformed),
            Some((tag, p1)) => {
                assert(bytes@.skip(p1 as int) =~= bytes@.skip(0).skip(p1 as int));
                if tag == 0 {
                    match decode_string(bytes, p1) {
                        None => Err(DecodeError::Malformed),
                        Some((name, _)) => Ok(ClientMessage::Connect { name }),
                    }
                } else if tag == 1 {
                    match decode_action(bytes, p1) {
                        None => Err(DecodeError::Malformed),
                        Some((a, _)) => Ok(ClientMessage::Action(a)),
                    }
                } else if tag == 2 {
                    match decode_string(bytes, p1) {
                        None => Err(DecodeError::Malformed),
                        Some((s, _)) => Ok(ClientMessage::Chat(s)),
                    }
                } else if tag == 3 {
                    proof {
                        crate::codec::lemma_dec_u32_bounds(bytes@.skip(p1 as int));
                    }
                    match decode_u32(bytes, p1) {
                        None => Err(DecodeError::Malformed),
                        Some((id, p2)) => {
                            assert(bytes@.skip(p1 as int).skip(p2 - p1) =~= bytes@.skip(
                                p2 as int,
                            ));
                            match crate::codec::decode_bytes(bytes, p2) {
                                None => Err(DecodeError::Malformed),
                                Some((data, _)) => Ok(
                                    ClientMessage::UpdateObject(ObjectId(id), data),
                                ),
                            }
                        },
                    }
                } else {
                    Err(DecodeError::Malformed)
                }
            },
        }
    }
}

} // verus!
