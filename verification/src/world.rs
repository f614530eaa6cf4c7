//! The authoritative world: every connected player, the world-wide special
//! event flags, and every live network object, with the codec that carries
//! a whole world over the wire.
//!
//! Decoding a world tolerates objects it cannot decode: an object whose
//! kind tag has no registered decoder, or whose payload its decoder
//! rejects, is dropped from the decoded world while every other client and
//! object still comes through.

use vstd::prelude::*;

use crate::client::Client;
use crate::client::ClientV;
use crate::client::decode_client;
use crate::client::encode_client;
use crate::client::lemma_client_roundtrip;
use crate::client::lemma_dec_client_bounds;
use crate::client::spec_dec_client;
use crate::client::spec_enc_client;
use crate::codec::decode_bool;
use crate::codec::decode_varint_u64;
use crate::codec::encode_bool;
use crate::codec::encode_varint_u64;
use crate::codec::lemma_bool_roundtrip;
use crate::codec::lemma_dec_bool_bounds;
use crate::codec::lemma_seq_assoc;
use crate::codec::lemma_skip_concat;
use crate::codec::lemma_skip_two;
use crate::codec::lemma_u64_roundtrip;
use crate::codec::spec_dec_bool;
use crate::codec::spec_dec_u64;
use crate::codec::spec_enc_bool;
use crate::codec::spec_enc_varint;
use crate::ids::NetworkObjectId;
use crate::ids::ObjectId;
use crate::network_object::BoxedNetworkObject;
use crate::network_object::NetworkObjectKind;
use crate::network_object::NetworkObjectRegistry;
use crate::network_object::decode_boxed;
use crate::network_object::encode_boxed;
use crate::network_object::lemma_dec_boxed_bounds;
use crate::network_object::spec_dec_boxed;
use crate::network_object::spec_enc_boxed;

verus! {

/// A world-wide mode an administrator can toggle.
#[derive(Clone, Copy, Debug, PartialEq, Eq, Structural)]
pub enum SpecialEvent {
    BeachEpisode,
}

/// Which special events are active.
#[derive(Clone, Copy, Debug, PartialEq, Eq, Structural)]
pub struct SpecialEventState {
    pub beach_episode: bool,
}

impl Default for SpecialEventState {
    fn default() -> (r: SpecialEventState)
        ensures
            r.beach_episode == false,
    {
        SpecialEventState { beach_episode: false }
    }
}

/// The authoritative world data.
#[derive(Clone, Debug)]
pub struct WorldState {
    pub clients: Vec<Client>,
    pub special_events: SpecialEventState,
    pub network_objects: Vec<(ObjectId, BoxedNetworkObject)>,
}

/// The abstract value of a world.
pub ghost struct WorldStateV {
    pub clients: Seq<ClientV>,
    pub special_events: SpecialEventState,
    pub network_objects: Seq<(ObjectId, BoxedNetworkObject)>,
}

impl View for WorldState {
    type V = WorldStateV;

    open spec fn view(&self) -> WorldStateV {
        WorldStateV {
            clients: self.clients@.map(|i: int, c: Client| c@),
            special_events: self.special_events,
            network_objects: self.network_objects@,
        }
    }
}

/// No two players share an id and no two objects share an id.
pub open spec fn spec_world_wf(w: WorldStateV) -> bool {
    &&& forall|i: int, j: int|
        0 <= i < j < w.clients.len() ==> (#[trigger] w.clients[i]).id != (
        #[trigger] w.clients[j]).id
    &&& forall|i: int, j: int|
        0 <= i < j < w.network_objects.len() ==> (#[trigger] w.network_objects[i]).0 != (
        #[trigger] w.network_objects[j]).0
}

/// Whether some player carries `id`.
pub open spec fn spec_has_client(clients: Seq<ClientV>, id: crate::ids::ClientId) -> bool {
    exists|i: int| 0 <= i < clients.len() && (#[trigger] clients[i]).id == id
}

impl WorldState {
    /// An empty world with no active events.
    pub fn new() -> (r: WorldState)
        ensures
            r@.clients.len() == 0,
            r@.network_objects.len() == 0,
            r@.special_events.beach_episode == false,
            spec_world_wf(r@),
    {
        WorldState {
            clients: Vec::new(),
            special_events: SpecialEventState { beach_episode: false },
            network_objects: Vec::new(),
        }
    }

    /// Whether the given event is active.
    pub fn get_special_event(&self, event: SpecialEvent) -> (r: bool)
        ensures
            r == match event {
                SpecialEvent::BeachEpisode => self.special_events.beach_episode,
            },
    {
        match event {
            SpecialEvent::BeachEpisode => self.special_events.beach_episode,
        }
    }

    /// Switch the given event on or off.
    pub fn set_special_event(&mut self, event: SpecialEvent, active: bool)
        ensures
            final(self).clients == old(self).clients,
            final(self).network_objects == old(self).network_objects,
            final(self).special_events == match event {
                SpecialEvent::BeachEpisode => SpecialEventState { beach_episode: active },
            },
    {
        match event {
            SpecialEvent::BeachEpisode => {
                self.special_events.beach_episode = active;
            },
        }
    }
}

/// The players, one after the other.
pub open spec fn spec_enc_clients(clients: Seq<ClientV>) -> Seq<u8>
    decreases clients.len(),
{
    if clients.len() == 0 {
        Seq::<u8>::empty()
    } else {
        spec_enc_client(clients[0]) + spec_enc_clients(clients.skip(1))
    }
}

/// Reads exactly `n` players.
pub open spec fn spec_dec_clients(bytes: Seq<u8>, n: nat) -> Option<(Seq<ClientV>, int)>
    decreases n,
{
    if n == 0 {
        Some((Seq::<ClientV>::empty(), 0))
    } else {
        match spec_dec_client(bytes) {
            None => None,
            Some(d) => match spec_dec_clients(bytes.skip(d.1), (n - 1) as nat) {
                None => None,
                Some(dr) => Some((seq![d.0] + dr.0, d.1 + dr.1)),
            },
        }
    }
}

pub proof fn lemma_clients_roundtrip(clients: Seq<ClientV>, rest: Seq<u8>)
    ensures
        spec_dec_clients(spec_enc_clients(clients) + rest, clients.len() as nat) == Some(
            (clients, spec_enc_clients(clients).len() as int),
        ),
    decreases clients.len(),
{
    if clients.len() == 0 {
        assert(spec_enc_clients(clients) + rest =~= rest);
        assert(seq![] + Seq::<ClientV>::empty() =~= Seq::<ClientV>::empty());
        assert(spec_dec_clients(rest, 0) == Some((Seq::<ClientV>::empty(), 0int)));
        assert(clients =~= Seq::<ClientV>::empty());
    } else {
        let e0 = spec_enc_client(clients[0]);
        let etail = spec_enc_clients(clients.skip(1));
        lemma_seq_assoc(e0, etail, rest);
        lemma_client_roundtrip(clients[0], etail + rest);
        lemma_skip_concat(e0, etail + rest);
        lemma_clients_roundtrip(clients.skip(1), rest);
        assert(seq![clients[0]] + clients.skip(1) =~= clients);
    }
}

pub proof fn lemma_dec_clients_bounds(bytes: Seq<u8>, n: nat)
    ensures
        spec_dec_clients(bytes, n) matches Some(d) ==> 0 <= d.1 <= bytes.len(),
    decreases n,
{
    if n > 0 {
        lemma_dec_client_bounds(bytes);
        let d = spec_dec_client(bytes);
        if d is Some {
            lemma_dec_clients_bounds(bytes.skip(d->Some_0.1), (n - 1) as nat);
        }
    }
}

/// Appends the encodings of all players in `clients` to `out`.
pub fn encode_clients(out: &mut Vec<u8>, clients: &Vec<Client>)
    ensures
        final(out)@ == old(out)@ + spec_enc_clients(clients@.map(|i: int, c: Client| c@)),
{
    let ghost cv = clients@.map(|i: int, c: Client| c@);
    let mut i: usize = 0;
    while i < clients.len()
        invariant
            i <= clients@.len(),
            cv == clients@.map(|i: int, c: Client| c@),
            out@ == old(out)@ + spec_enc_clients(cv.take(i as int)),
        decreases clients@.len() - i,
    {
        let ghost pre = cv.take(i as int);
        encode_client(out, &clients[i]);
        proof {
            assert(cv.take(i + 1) =~= pre.push(cv[i as int]));
            lemma_enc_clients_push(pre, cv[i as int]);
        }
        i = i + 1;
    }
    assert(cv.take(cv.len() as int) =~= cv);
}

/// Encoding one more player appends that player's bytes.
proof fn lemma_enc_clients_push(clients: Seq<ClientV>, c: ClientV)
    ensures
        spec_enc_clients(clients.push(c)) == spec_enc_clients(clients) + spec_enc_client(c),
    decreases clients.len(),
{
    let snoc = clients.push(c);
    if clients.len() == 0 {
        assert(snoc[0] == c);
        assert(snoc.skip(1) =~= Seq::<ClientV>::empty());
        assert(spec_enc_clients(Seq::<ClientV>::empty()) =~= Seq::<u8>::empty());
        assert(spec_enc_clients(snoc) =~= spec_enc_client(c));
        assert(spec_enc_clients(clients) + spec_enc_client(c) =~= spec_enc_client(c));
    } else {
        assert(snoc[0] == clients[0]);
        assert(snoc.skip(1) =~= clients.skip(1).push(c));
        lemma_enc_clients_push(clients.skip(1), c);
        lemma_seq_assoc(spec_enc_client(clients[0]), spec_enc_clients(clients.skip(1)),
            spec_enc_client(c));
    }
}

/// Reads `n` players starting at `pos`.
pub fn decode_clients(bytes: &[u8], pos: usize, n: u64) -> (r: Option<(Vec<Client>, usize)>)
    requires
        pos <= bytes@.len(),
    ensures
        match spec_dec_clients(bytes@.skip(pos as int), n as nat) {
            None => r is None,
            Some(d) => r matches Some(rv) && rv.0@.map(|i: int, c: Client| c@) == d.0 && rv.1
                == pos + d.1,
        },
    decreases n,
{
    let total = bytes.len();
    if n == 0 {
        let empty: Vec<Client> = Vec::new();
        assert(empty@.map(|i: int, c: Client| c@) =~= Seq::<ClientV>::empty());
        return Some((empty, pos));
    }
    proof {
        lemma_dec_client_bounds(bytes@.skip(pos as int));
    }
    match decode_client(bytes, pos) {
        None => None,
        Some((first, p1)) => {
            proof {
                lemma_skip_two(bytes@, pos as int, p1 - pos);
            }
            match decode_clients(bytes, p1, n - 1) {
                None => None,
                Some((mut rest, p2)) => {
                    let ghost restv = rest@;
                    rest.insert(0, first);
                    assert(rest@ =~= seq![first] + restv);
                    proof {
                        let f = |i: int, c: Client| c@;
                        assert(rest@.map(f) =~= seq![first@] + restv.map(f));
                    }
                    Some((rest, p2))
                },
            }
        },
    }
}

/// The object entries, one after the other: instance id, then the boxed
/// object.
pub open spec fn spec_enc_objects(objects: Seq<(ObjectId, BoxedNetworkObject)>) -> Seq<u8>
    decreases objects.len(),
{
    if objects.len() == 0 {
        Seq::<u8>::empty()
    } else {
        spec_enc_varint(objects[0].0.0 as nat) + spec_enc_boxed(objects[0].1) + spec_enc_objects(
            objects.skip(1),
        )
    }
}

/// Reads exactly `n` object entries, dropping each one whose boxed object
/// cannot be decoded (unknown kind or rejected payload).
pub open spec fn spec_dec_objects(
    entries: Seq<(NetworkObjectId, NetworkObjectKind)>,
    bytes: Seq<u8>,
    n: nat,
) -> Option<(Seq<(ObjectId, BoxedNetworkObject)>, int)>
    decreases n,
{
    if n == 0 {
        Some((Seq::<(ObjectId, BoxedNetworkObject)>::empty(), 0))
    } else {
        match crate::codec::spec_dec_u32(bytes) {
            None => None,
            Some(did) => match spec_dec_boxed(entries, bytes.skip(did.1)) {
                None => None,
                Some(db) => match spec_dec_objects(
                    entries,
                    bytes.skip(did.1 + db.1),
                    (n - 1) as nat,
                ) {
                    None => None,
                    Some(dr) => {
                        let here = match db.0 {
                            Ok(b) => seq![(ObjectId(did.0), b)],
                            Err(_) => Seq::<(ObjectId, BoxedNetworkObject)>::empty(),
                        };
                        Some((here + dr.0, did.1 + db.1 + dr.1))
                    },
                },
            },
        }
    }
}

pub proof fn lemma_dec_objects_bounds(
    entries: Seq<(NetworkObjectId, NetworkObjectKind)>,
    bytes: Seq<u8>,
    n: nat,
)
    ensures
        spec_dec_objects(entries, bytes, n) matches Some(d) ==> 0 <= d.1 <= bytes.len(),
    decreases n,
{
    if n > 0 {
        crate::codec::lemma_dec_u32_bounds(bytes);
        let did = crate::codec::spec_dec_u32(bytes);
        if did is Some {
            let l1 = did->Some_0.1;
            lemma_dec_boxed_bounds(entries, bytes.skip(l1));
            let db = spec_dec_boxed(entries, bytes.skip(l1));
            if db is Some {
                lemma_dec_objects_bounds(entries, bytes.skip(l1 + db->Some_0.1), (n - 1) as nat);
            }
        }
    }
}

/// Appends the encodings of all object entries to `out`.
pub fn encode_objects(out: &mut Vec<u8>, objects: &Vec<(ObjectId, BoxedNetworkObject)>)
    ensures
        final(out)@ == old(out)@ + spec_enc_objects(objects@),
{
    let ghost ov = objects@;
    let mut i: usize = 0;
    while i < objects.len()
        invariant
            i <= ov.len(),
            objects@ == ov,
            out@ == old(out)@ + spec_enc_objects(ov.take(i as int)),
        decreases ov.len() - i,
    {
        let ghost pre = ov.take(i as int);
        let entry = &objects[i];
        encode_varint_u64(out, entry.0.as_u32() as u64);
        encode_boxed(out, &entry.1);
        proof {
            assert(ov.take(i + 1) =~= pre.push(ov[i as int]));
            lemma_enc_objects_push(pre, ov[i as int]);
        }
        i = i + 1;
    }
    assert(ov.take(ov.len() as int) =~= ov);
}

/// Encoding one more object entry appends that entry's bytes.
proof fn lemma_enc_objects_push(
    objects: Seq<(ObjectId, BoxedNetworkObject)>,
    entry: (ObjectId, BoxedNetworkObject),
)
    ensures
        spec_enc_objects(objects.push(entry)) == spec_enc_objects(objects) + (spec_enc_varint(
            entry.0.0 as nat,
        ) + spec_enc_boxed(entry.1)),
    decreases objects.len(),
{
    let snoc = objects.push(entry);
    let e = spec_enc_varint(entry.0.0 as nat) + spec_enc_boxed(entry.1);
    if objects.len() == 0 {
        assert(snoc[0] == entry);
        assert(snoc.skip(1) =~= Seq::<(ObjectId, BoxedNetworkObject)>::empty());
        assert(spec_enc_objects(Seq::<(ObjectId, BoxedNetworkObject)>::empty()) =~= Seq::<
            u8,
        >::empty());
        assert(spec_enc_objects(snoc) =~= e);
        assert(spec_enc_objects(objects) + e =~= e);
    } else {
        assert(snoc[0] == objects[0]);
        assert(snoc.skip(1) =~= objects.skip(1).push(entry));
        lemma_enc_objects_push(objects.skip(1), entry);
        let e0 = spec_enc_varint(objects[0].0.0 as nat) + spec_enc_boxed(objects[0].1);
        lemma_seq_assoc(e0, spec_enc_objects(objects.skip(1)), e);
    }
}

/// Reads `n` object entries starting at `pos`, dropping undecodable ones.
#[verifier::rlimit(90)]
#[verifier::spinoff_prover]
pub fn decode_objects(
    registry: &NetworkObjectRegistry,
    bytes: &[u8],
    pos: usize,
    n: u64,
) -> (r: Option<(Vec<(ObjectId, BoxedNetworkObject)>, usize)>)
    requires
        pos <= bytes@.len(),
    ensures
        match spec_dec_objects(registry.entries@, bytes@.skip(pos as int), n as nat) {
            None => r is None,
            Some(d) => r matches Some(rv) && rv.0@ == d.0 && rv.1 == pos + d.1,
        },
    decreases n,
{
    let total = bytes.len();
    if n == 0 {
        let empty: Vec<(ObjectId, BoxedNetworkObject)> = Vec::new();
        return Some((empty, pos));
    }
    proof {
        crate::codec::lemma_dec_u32_bounds(bytes@.skip(pos as int));
    }
    match crate::codec::decode_u32(bytes, pos) {
        None => None,
        Some((raw_id, p1)) => {
            proof {
                lemma_skip_two(bytes@, pos as int, p1 - pos);
                lemma_dec_boxed_bounds(registry.entries@, bytes@.skip(p1 as int));
            }
            match decode_boxed(registry, bytes, p1) {
                None => None,
                Some((decoded, p2)) => {
                    proof {
                        lemma_skip_two(bytes@, p1 as int, p2 - p1);
                        lemma_skip_two(bytes@, pos as int, p2 - pos);
                    }
                    match decode_objects(registry, bytes, p2, n - 1) {
                        None => None,
                        Some((mut rest, p3)) => {
                            let ghost here = match decoded {
                                Ok(b) => seq![(ObjectId(raw_id), b)],
                                Err(_) => Seq::<(ObjectId, BoxedNetworkObject)>::empty(),
                            };
                            let ghost restv = rest@;
                            match decoded {
                                Ok(b) => {
                                    rest.insert(0, (ObjectId::from_u32(raw_id), b));
                                },
                                Err(_) => {},
                            }
                            assert(rest@ =~= here + restv);
                            Some((rest, p3))
                        },
                    }
                },
            }
        },
    }
}

/// A world travels as its player count and players, the event flags, and
/// its object count and object entries.
pub open spec fn spec_enc_world(w: WorldStateV) -> Seq<u8> {
    spec_enc_varint(w.clients.len() as nat) + spec_enc_clients(w.clients) + spec_enc_bool(
        w.special_events.beach_episode,
    ) + spec_enc_varint(w.network_objects.len() as nat) + spec_enc_objects(w.network_objects)
}

/// Reads one world. Objects that cannot be decoded are dropped; everything
/// else must decode.
pub open spec fn spec_dec_world(
    entries: Seq<(NetworkObjectId, NetworkObjectKind)>,
    bytes: Seq<u8>,
) -> Option<(WorldStateV, int)> {
    match spec_dec_u64(bytes) {
        None => None,
        Some(dn) => match spec_dec_clients(bytes.skip(dn.1), dn.0 as nat) {
            None => None,
            Some(dc) => match spec_dec_bool(bytes.skip(dn.1 + dc.1)) {
                None => None,
                Some(ds) => match spec_dec_u64(bytes.skip(dn.1 + dc.1 + ds.1)) {
                    None => None,
                    Some(dm) => match spec_dec_objects(
                        entries,
                        bytes.skip(dn.1 + dc.1 + ds.1 + dm.1),
                        dm.0 as nat,
                    ) {
                        None => None,
                        Some(dobj) => Some(
                            (
                                WorldStateV {
                                    clients: dc.0,
                                    special_events: SpecialEventState { beach_episode: ds.0 },
                                    network_objects: dobj.0,
                                },
                                dn.1 + dc.1 + ds.1 + dm.1 + dobj.1,
                            ),
                        ),
                    },
                },
            },
        },
    }
}

/// Object entries whose tags are registered for their kinds, whose values
/// are bounded and which carry no transient state come back from their own
/// encoding unchanged, in order and without losses.
pub proof fn lemma_objects_roundtrip(
    entries: Seq<(NetworkObjectId, NetworkObjectKind)>,
    objects: Seq<(ObjectId, BoxedNetworkObject)>,
    rest: Seq<u8>,
)
    requires
        forall|i: int|
            0 <= i < objects.len() ==> crate::network_object::spec_boxed_wf(
                entries,
                (#[trigger] objects[i]).1,
            ) && crate::network_object::spec_value_bounded(objects[i].1.object)
                && crate::network_object::spec_value_transient_free(objects[i].1.object),
    ensures
        spec_dec_objects(entries, spec_enc_objects(objects) + rest, objects.len() as nat) == Some(
            (objects, spec_enc_objects(objects).len() as int),
        ),
    decreases objects.len(),
{
    if objects.len() == 0 {
        assert(spec_enc_objects(objects) + rest =~= rest);
        assert(objects =~= Seq::<(ObjectId, BoxedNetworkObject)>::empty());
    } else {
        let ei = spec_enc_varint(objects[0].0.0 as nat);
        let eb = spec_enc_boxed(objects[0].1);
        let etail = spec_enc_objects(objects.skip(1));
        let whole = spec_enc_objects(objects) + rest;
        crate::codec::lemma_seq_assoc(ei + eb, etail, rest);
        crate::codec::lemma_seq_assoc(ei, eb, etail + rest);
        assert(whole == ei + (eb + (etail + rest)));
        crate::codec::lemma_u32_roundtrip(objects[0].0.0, eb + (etail + rest));
        crate::codec::lemma_skip_concat(ei, eb + (etail + rest));
        assert(objects[0] == (objects[0].0, objects[0].1));
        crate::network_object::lemma_object_round_trip(entries, objects[0].1, etail + rest);
        crate::codec::lemma_skip_concat(eb, etail + rest);
        crate::codec::lemma_skip_two(whole, ei.len() as int, eb.len() as int);
        assert(forall|i: int|
            0 <= i < objects.skip(1).len() ==> #[trigger] objects.skip(1)[i] == objects[i + 1]);
        lemma_objects_roundtrip(entries, objects.skip(1), rest);
        assert(seq![objects[0]] + objects.skip(1) =~= objects);
        assert(ObjectId(objects[0].0.0) == objects[0].0);
    }
}

/// Any world whose objects all carry registered tags, bounded values and no
/// transient state comes back from its own encoding unchanged.
#[verifier::rlimit(90)]
pub proof fn lemma_world_roundtrip(
    entries: Seq<(NetworkObjectId, NetworkObjectKind)>,
    w: WorldStateV,
    rest: Seq<u8>,
)
    requires
        w.clients.len() <= u64::MAX,
        w.network_objects.len() <= u64::MAX,
        forall|i: int|
            0 <= i < w.network_objects.len() ==> crate::network_object::spec_boxed_wf(
                entries,
                (#[trigger] w.network_objects[i]).1,
            ) && crate::network_object::spec_value_bounded(w.network_objects[i].1.object)
                && crate::network_object::spec_value_transient_free(
                w.network_objects[i].1.object,
            ),
    ensures
        spec_dec_world(entries, spec_enc_world(w) + rest) == Some(
            (w, spec_enc_world(w).len() as int),
        ),
{
    let e1 = spec_enc_varint(w.clients.len() as nat);
    let e2 = spec_enc_clients(w.clients);
    let e3 = spec_enc_bool(w.special_events.beach_episode);
    let e4 = spec_enc_varint(w.network_objects.len() as nat);
    let e5 = spec_enc_objects(w.network_objects);
    let t4 = e5 + rest;
    let t3 = e4 + t4;
    let t2 = e3 + t3;
    let t1 = e2 + t2;
    let whole = spec_enc_world(w) + rest;
    let l1 = e1.len() as int;
    let l2 = e2.len() as int;
    let l3 = e3.len() as int;
    let l4 = e4.len() as int;
    crate::codec::lemma_seq_assoc(e1 + e2 + e3 + e4, e5, rest);
    crate::codec::lemma_seq_assoc(e1 + e2 + e3, e4, t4);
    crate::codec::lemma_seq_assoc(e1 + e2, e3, t3);
    crate::codec::lemma_seq_assoc(e1, e2, t2);
    assert(whole == e1 + t1);
    lemma_u64_roundtrip(w.clients.len() as u64, t1);
    lemma_clients_roundtrip(w.clients, t2);
    lemma_bool_roundtrip(w.special_events.beach_episode, t3);
    lemma_u64_roundtrip(w.network_objects.len() as u64, t4);
    lemma_objects_roundtrip(entries, w.network_objects, rest);
    crate::codec::lemma_skip_concat(e1, t1);
    crate::codec::lemma_skip_concat(e2, t2);
    crate::codec::lemma_skip_concat(e3, t3);
    crate::codec::lemma_skip_concat(e4, t4);
    crate::codec::lemma_skip_two(whole, l1, l2);
    crate::codec::lemma_skip_two(whole, l1 + l2, l3);
    crate::codec::lemma_skip_two(whole, l1 + l2 + l3, l4);
    assert(whole.skip(l1) == t1);
    assert(whole.skip(l1 + l2) == t2);
    assert(whole.skip(l1 + l2 + l3) == t3);
    assert(whole.skip(l1 + l2 + l3 + l4) == t4);
    assert(SpecialEventState { beach_episode: w.special_events.beach_episode }
        == w.special_events);
}

/// Appends the encoding of the whole world to `out`.
pub fn encode_world(out: &mut Vec<u8>, w: &WorldState)
    ensures
        final(out)@ == old(out)@ + spec_enc_world(w@),
{
    encode_varint_u64(out, w.clients.len() as u64);
    encode_clients(out, &w.clients);
    encode_bool(out, w.special_events.beach_episode);
    encode_varint_u64(out, w.network_objects.len() as u64);
    encode_objects(out, &w.network_objects);
    proof {
        assert(w@.clients.len() == w.clients@.len());
        assert(out@ =~= old(out)@ + spec_enc_world(w@));
    }
}

/// Reads one world starting at `pos`, under the given registry.
#[verifier::rlimit(90)]
#[verifier::spinoff_prover]
pub fn decode_world(registry: &NetworkObjectRegistry, bytes: &[u8], pos: usize) -> (r: Option<
    (WorldState, usize),
>)
    requires
        pos <= bytes@.len(),
    ensures
        match spec_dec_world(registry.entries@, bytes@.skip(pos as int)) {
            None => r is None,
            Some(d) => r matches Some(rv) && rv.0@ == d.0 && rv.1 == pos + d.1,
        },
{
    let total = bytes.len();
    proof {
        crate::codec::lemma_dec_u64_bounds(bytes@.skip(pos as int));
    }
    match decode_varint_u64(bytes, pos) {
        None => None,
        Some((ncli, p1)) => {
            proof {
                lemma_skip_two(bytes@, pos as int, p1 - pos);
                lemma_dec_clients_bounds(bytes@.skip(p1 as int), ncli as nat);
            }
            match decode_clients(bytes, p1, ncli) {
                None => None,
                Some((clients, p2)) => {
                    proof {
                        lemma_skip_two(bytes@, p1 as int, p2 - p1);
                        lemma_skip_two(bytes@, pos as int, p2 - pos);
                        lemma_dec_bool_bounds(bytes@.skip(p2 as int));
                    }
                    match decode_bool(bytes, p2) {
                        None => None,
                        Some((beach_episode, p3)) => {
                            proof {
                                lemma_skip_two(bytes@, p2 as int, p3 - p2);
                                lemma_skip_two(bytes@, pos as int, p3 - pos);
                                crate::codec::lemma_dec_u64_bounds(bytes@.skip(p3 as int));
                            }
                            match decode_varint_u64(bytes, p3) {
                                None => None,
                                Some((nobj, p4)) => {
                                    proof {
                                        lemma_skip_two(bytes@, p3 as int, p4 - p3);
                                        lemma_skip_two(bytes@, pos as int, p4 - pos);
                                        lemma_dec_objects_bounds(
                                            registry.entries@,
                                            bytes@.skip(p4 as int),
                                            nobj as nat,
                                        );
                                    }
                                    match decode_objects(registry, bytes, p4, nobj) {
                                        None => None,
                                        Some((network_objects, p5)) => Some(
                                            (
                                                WorldState {
                                                    clients,
                                                    special_events: SpecialEventState {
                                                        beach_episode,
                                                    },
                                                    network_objects,
                                                },
                                                p5,
                                            ),
                                        ),
                                    }
                                },
                            }
                        },
                    }
                },
            }
        },
    }
}

} // verus!
