//! The authoritative simulation: where every player stands, and how the held
//! controls move them each tick.

use crate::decimal::bounded;
use crate::gameplay::play::{Controls, PacketView};
use crate::networking::server::Server;
use crate::table::{index_is, push_keeps_places, Table};
use crate::wire::{decode_packet, text_packet};
use vstd::prelude::*;

verus! {

/// Movement speed in world units per second. One nanosecond of a held axis moves a
/// player by this many billionths of a unit.
pub const SPEED: u64 = 200;

/// A place in the world. Each coordinate counts billionths of a world unit.
#[derive(Clone, Copy, Debug, PartialEq, Eq, Structural)]
pub struct Position {
    pub x: i64,
    pub y: i64,
}

/// The world as the server reports it: the position of every known player.
pub struct Returnable {
    pub players_data: Table<Position>,
}

/// The mathematical value of a snapshot: player ids, oldest first, and the position
/// of each.
pub struct World {
    pub ids: Seq<Seq<char>>,
    pub positions: Seq<Position>,
}

impl View for Returnable {
    type V = World;

    open spec fn view(&self) -> World {
        World { ids: self.players_data.keys(), positions: self.players_data.values() }
    }
}

impl World {
    /// One position for each id, and no id twice.
    pub open spec fn wf(self) -> bool {
        self.ids.len() == self.positions.len() && self.ids.no_duplicates()
    }

    /// Whether `id` is a player of this world.
    pub open spec fn has(self, id: Seq<char>) -> bool {
        self.ids.contains(id)
    }

    /// The position of the player `id`; meaningful only where `has(id)`.
    pub open spec fn position(self, id: Seq<char>) -> Position {
        self.positions[self.ids.index_of(id)]
    }
}

/// The server's game state.
pub struct ServerGameLogic {
    pub returnable: Returnable,
}

/// How far a held axis moves a player in `delta_time` nanoseconds.
pub open spec fn travel(delta_time: u64) -> int {
    SPEED * delta_time
}

/// Where a player at `p` stands after holding `c` for `delta_time` nanoseconds. The
/// axes are independent and every held axis applies: right, then left, on `x`; up,
/// then down, on `y`. A coordinate stops at the end of its range.
pub open spec fn moved(p: Position, c: Controls, delta_time: u64) -> Position {
    let d = travel(delta_time);
    let x1 = if c.right { bounded(p.x + d) } else { p.x as int };
    let x2 = if c.left { bounded(x1 - d) } else { x1 };
    let y1 = if c.up { bounded(p.y - d) } else { p.y as int };
    let y2 = if c.down { bounded(y1 + d) } else { y1 };
    Position { x: x2 as i64, y: y2 as i64 }
}

/// The world after one stored packet is applied: a known player moves, an unknown
/// one appears at the origin and does not move in that tick.
pub open spec fn applied(w: World, packet: PacketView, delta_time: u64) -> World {
    if w.has(packet.id) {
        let at = w.ids.index_of(packet.id);
        World { ids: w.ids, positions: w.positions.update(at, moved(w.positions[at], packet.controls, delta_time)) }
    } else {
        World { ids: w.ids.push(packet.id), positions: w.positions.push(Position { x: 0, y: 0 }) }
    }
}

/// The world after the stored payloads are applied in order. A payload that holds no
/// input packet changes nothing.
pub open spec fn simulated(w: World, payloads: Seq<Seq<char>>, delta_time: u64) -> World
    decreases payloads.len(),
{
    if payloads.len() == 0 {
        w
    } else {
        let before = simulated(w, payloads.drop_last(), delta_time);
        match text_packet(payloads.last()) {
            Some(packet) => applied(before, packet, delta_time),
            None => before,
        }
    }
}

/// The places among `payloads` of those that hold no input packet, in order.
pub open spec fn unreadable(payloads: Seq<Seq<char>>) -> Seq<usize>
    decreases payloads.len(),
{
    if payloads.len() == 0 {
        Seq::empty()
    } else {
        let before = unreadable(payloads.drop_last());
        if text_packet(payloads.last()) is None {
            before.push((payloads.len() - 1) as usize)
        } else {
            before
        }
    }
}

fn shifted(v: i64, by: i128) -> (r: i64)
    requires
        -(SPEED * u64::MAX) <= by <= SPEED * u64::MAX,
    ensures
        r == bounded(v + by),
{
    let sum: i128 = v as i128 + by;
    if sum < i64::MIN as i128 {
        i64::MIN
    } else if sum > i64::MAX as i128 {
        i64::MAX
    } else {
        sum as i64
    }
}

/// Moves a position by the held controls for `delta_time` nanoseconds.
pub fn advance(p: Position, c: Controls, delta_time: u64) -> (q: Position)
    ensures
        q == moved(p, c, delta_time),
{
    assert(0 <= SPEED * delta_time <= SPEED * u64::MAX) by (nonlinear_arith)
        requires
            0 <= delta_time <= u64::MAX,
            SPEED == 200,
    ;
    let d: i128 = (SPEED as i128) * (delta_time as i128);
    let mut x = p.x;
    let mut y = p.y;
    if c.right {
        x = shifted(x, d);
    }
    if c.left {
        x = shifted(x, -d);
    }
    if c.up {
        y = shifted(y, -d);
    }
    if c.down {
        y = shifted(y, d);
    }
    Position { x, y }
}

impl Returnable {
    /// What holds of every snapshot: no player twice.
    pub open spec fn wf(self) -> bool {
        self.players_data.wf()
    }

    /// The value of a snapshot is a well-formed world.
    pub proof fn holds_a_world(self)
        requires
            self.wf(),
        ensures
            self@.wf(),
    {
        self.players_data.shape();
    }
}

impl ServerGameLogic {
    /// What holds of every game state: no player twice.
    pub open spec fn wf(self) -> bool {
        self.returnable.wf()
    }

    /// A world without players.
    pub fn new() -> (logic: ServerGameLogic)
        ensures
            logic.wf(),
            logic.returnable@.ids == Seq::<Seq<char>>::empty(),
            logic.returnable@.positions == Seq::<Position>::empty(),
    {
        ServerGameLogic { returnable: Returnable { players_data: Table::new() } }
    }

    /// Simulates one tick: applies the payload stored for each connection, in table
    /// order, for the time `server.time.delta_time`. Returns the places in the
    /// connection table of the payloads that hold no input packet.
    pub fn update(&mut self, server: &Server) -> (rejected: Vec<usize>)
        requires
            old(self).wf(),
            server.wf(),
        ensures
            final(self).wf(),
            final(self).returnable@ == simulated(old(self).returnable@, server.payloads(), server.time.delta_time),
            rejected@ == unreadable(server.payloads()),
    {
        let delta_time = server.time.delta_time;
        let n = server.connections.len();
        let mut rejected: Vec<usize> = Vec::new();
        let mut i: usize = 0;
        let ghost payloads = server.payloads();
        proof {
            assert(payloads.take(0) =~= Seq::<Seq<char>>::empty());
        }
        while i < n
            invariant
                i <= n,
                n == payloads.len(),
                n == server.connections.values().len(),
                payloads == server.payloads(),
                server.wf(),
                self.wf(),
                delta_time == server.time.delta_time,
                self.returnable@ == simulated(old(self).returnable@, payloads.take(i as int), delta_time),
                rejected@ == unreadable(payloads.take(i as int)),
            decreases n - i,
        {
            let payload = server.connections.value(i);
            proof {
                assert(payloads.take(i + 1).drop_last() =~= payloads.take(i as int));
                assert(payloads.take(i + 1).last() == payload@);
                self.returnable.players_data.shape();
            }
            match decode_packet(payload.as_str()) {
                Some(packet) => {
                    match self.returnable.players_data.find(&packet.id) {
                        Some(at) => {
                            let p = *self.returnable.players_data.value(at);
                            self.returnable.players_data.replace(at, advance(p, packet.controls, delta_time));
                        },
                        None => {
                            self.returnable.players_data.append(packet.id, Position { x: 0, y: 0 });
                        },
                    }
                },
                None => {
                    rejected.push(i);
                },
            }
            i += 1;
        }
        proof {
            assert(payloads.take(n as int) =~= payloads);
        }
        rejected
    }
}

/// What one packet does to a world: the packet's player is in the world afterwards,
/// moved if it was known and at the origin if it was not; every other player stays
/// where it was; nobody else appears.
pub proof fn applied_one(w: World, packet: PacketView, delta_time: u64)
    requires
        w.wf(),
    ensures
        applied(w, packet, delta_time).wf(),
        applied(w, packet, delta_time).has(packet.id),
        applied(w, packet, delta_time).position(packet.id) == if w.has(packet.id) {
            moved(w.position(packet.id), packet.controls, delta_time)
        } else {
            Position { x: 0, y: 0 }
        },
        forall|id: Seq<char>| id != packet.id ==> applied(w, packet, delta_time).has(id) == w.has(id),
        forall|id: Seq<char>|
            id != packet.id && w.has(id) ==> #[trigger] applied(w, packet, delta_time).position(id) == w.position(id),
{
    let after = applied(w, packet, delta_time);
    if w.has(packet.id) {
        assert(after.ids == w.ids);
    } else {
        assert forall|id: Seq<char>| id != packet.id implies after.has(id) == w.has(id) by {
            if w.has(id) {
                push_keeps_places(w.ids, packet.id, id);
            }
            if after.has(id) {
                let i = after.ids.index_of(id);
                assert(after.ids[i] == id);
                assert(w.ids[i] == id);
            }
        }
        assert forall|id: Seq<char>| id != packet.id && w.has(id) implies #[trigger] after.position(id)
            == w.position(id) by {
            push_keeps_places(w.ids, packet.id, id);
        }
        assert(after.ids[w.ids.len() as int] == packet.id);
        assert(after.ids.no_duplicates()) by {
            assert forall|i: int, j: int| 0 <= i < after.ids.len() && 0 <= j < after.ids.len() && i != j implies after.ids[i]
                != after.ids[j] by {
                if i < w.ids.len() && j < w.ids.len() {
                } else if i < w.ids.len() {
                    assert(w.ids.contains(w.ids[i]));
                } else {
                    assert(w.ids.contains(w.ids[j]));
                }
            }
        }
        index_is(after.ids, w.ids.len() as int);
    }
}

/// Whether `payload` holds an input packet of the player `id`.
pub open spec fn names(payload: Seq<char>, id: Seq<char>) -> bool {
    match text_packet(payload) {
        Some(p) => p.id == id,
        None => false,
    }
}

/// Whether one of `payloads` holds an input packet of the player `id`.
pub open spec fn announced(payloads: Seq<Seq<char>>, id: Seq<char>) -> bool {
    exists|i: int| 0 <= i < payloads.len() && #[trigger] names(payloads[i], id)
}

/// A tick keeps the world well-formed, and the players after it are exactly those
/// known before together with those whose input packet is stored: nobody is ever
/// removed, and nobody appears without a packet.
pub proof fn players_after_tick(w: World, payloads: Seq<Seq<char>>, delta_time: u64)
    requires
        w.wf(),
    ensures
        simulated(w, payloads, delta_time).wf(),
        forall|id: Seq<char>| #[trigger]
            simulated(w, payloads, delta_time).has(id) <==> w.has(id) || announced(payloads, id),
    decreases payloads.len(),
{
    let after = simulated(w, payloads, delta_time);
    if payloads.len() == 0 {
    } else {
        let shorter = payloads.drop_last();
        let before = simulated(w, shorter, delta_time);
        players_after_tick(w, shorter, delta_time);
        let last = text_packet(payloads.last());
        if last is Some {
            applied_one(before, last->0, delta_time);
        }
        assert forall|id: Seq<char>| #[trigger] after.has(id) <==> w.has(id) || announced(payloads, id) by {
            let here = names(payloads.last(), id);
            assert(before.has(id) <==> w.has(id) || announced(shorter, id));
            assert(announced(payloads, id) <==> announced(shorter, id) || here) by {
                if announced(shorter, id) {
                    let i = choose|i: int| 0 <= i < shorter.len() && #[trigger] names(shorter[i], id);
                    assert(payloads[i] == shorter[i]);
                    assert(names(payloads[i], id));
                }
                if announced(payloads, id) {
                    let i = choose|i: int| 0 <= i < payloads.len() && #[trigger] names(payloads[i], id);
                    if i < shorter.len() {
                        assert(payloads[i] == shorter[i]);
                        assert(names(shorter[i], id));
                    } else {
                        assert(payloads[i] == payloads.last());
                    }
                }
                if here {
                    assert(names(payloads[payloads.len() - 1], id));
                }
            }
            match last {
                Some(p) => {
                    assert(after == applied(before, p, delta_time));
                    if id == p.id {
                        assert(here);
                    } else {
                        assert(!here);
                        assert(after.has(id) == before.has(id));
                    }
                },
                None => {
                    assert(after == before);
                    assert(!here);
                },
            }
        }
    }
}

/// Whether the payload at `i` is the only one among `payloads` that holds an input
/// packet of the player `id`.
pub open spec fn sole(payloads: Seq<Seq<char>>, i: int, id: Seq<char>) -> bool {
    &&& 0 <= i < payloads.len()
    &&& names(payloads[i], id)
    &&& forall|j: int| 0 <= j < payloads.len() && j != i ==> !#[trigger] names(payloads[j], id)
}

/// A player that no stored packet names stays where it is.
pub proof fn unnamed_player_rests(w: World, payloads: Seq<Seq<char>>, delta_time: u64, id: Seq<char>)
    requires
        w.wf(),
        w.has(id),
        forall|j: int| 0 <= j < payloads.len() ==> !#[trigger] names(payloads[j], id),
    ensures
        simulated(w, payloads, delta_time).has(id),
        simulated(w, payloads, delta_time).position(id) == w.position(id),
    decreases payloads.len(),
{
    if payloads.len() > 0 {
        let shorter = payloads.drop_last();
        assert forall|j: int| 0 <= j < shorter.len() implies !#[trigger] names(shorter[j], id) by {
            assert(shorter[j] == payloads[j]);
        }
        unnamed_player_rests(w, shorter, delta_time, id);
        players_after_tick(w, shorter, delta_time);
        assert(!names(payloads[payloads.len() - 1], id));
        match text_packet(payloads.last()) {
            Some(p) => {
                applied_one(simulated(w, shorter, delta_time), p, delta_time);
            },
            None => {},
        }
    }
}

/// The spawn tick is motionless: a player that only one stored packet names, and
/// that is not known yet, stands at the origin after the tick, whatever it holds.
pub proof fn new_player_spawns_at_origin(w: World, payloads: Seq<Seq<char>>, delta_time: u64, i: int, id: Seq<char>)
    requires
        w.wf(),
        !w.has(id),
        sole(payloads, i, id),
    ensures
        simulated(w, payloads, delta_time).has(id),
        simulated(w, payloads, delta_time).position(id) == (Position { x: 0, y: 0 }),
    decreases payloads.len(),
{
    let shorter = payloads.drop_last();
    let before = simulated(w, shorter, delta_time);
    players_after_tick(w, shorter, delta_time);
    if i == payloads.len() - 1 {
        assert(!announced(shorter, id)) by {
            if announced(shorter, id) {
                let j = choose|j: int| 0 <= j < shorter.len() && #[trigger] names(shorter[j], id);
                assert(shorter[j] == payloads[j]);
                assert(names(payloads[j], id));
            }
        }
        assert(!before.has(id));
        applied_one(before, text_packet(payloads.last())->0, delta_time);
    } else {
        assert(shorter[i] == payloads[i]);
        assert forall|j: int| 0 <= j < shorter.len() && j != i implies !#[trigger] names(shorter[j], id) by {
            assert(shorter[j] == payloads[j]);
        }
        new_player_spawns_at_origin(w, shorter, delta_time, i, id);
        assert(!names(payloads[payloads.len() - 1], id));
        match text_packet(payloads.last()) {
            Some(p) => {
                applied_one(before, p, delta_time);
            },
            None => {},
        }
    }
}

/// A known player that only one stored packet names moves in a tick as that packet's
/// controls say, once.
pub proof fn sole_packet_moves_once(w: World, payloads: Seq<Seq<char>>, delta_time: u64, i: int, id: Seq<char>)
    requires
        w.wf(),
        w.has(id),
        sole(payloads, i, id),
    ensures
        simulated(w, payloads, delta_time).wf(),
        simulated(w, payloads, delta_time).has(id),
        simulated(w, payloads, delta_time).position(id) == moved(
            w.position(id),
            text_packet(payloads[i])->0.controls,
            delta_time,
        ),
    decreases payloads.len(),
{
    let shorter = payloads.drop_last();
    let before = simulated(w, shorter, delta_time);
    players_after_tick(w, shorter, delta_time);
    players_after_tick(w, payloads, delta_time);
    if i == payloads.len() - 1 {
        assert forall|j: int| 0 <= j < shorter.len() implies !#[trigger] names(shorter[j], id) by {
            assert(shorter[j] == payloads[j]);
        }
        unnamed_player_rests(w, shorter, delta_time, id);
        applied_one(before, text_packet(payloads.last())->0, delta_time);
    } else {
        assert(shorter[i] == payloads[i]);
        assert forall|j: int| 0 <= j < shorter.len() && j != i implies !#[trigger] names(shorter[j], id) by {
            assert(shorter[j] == payloads[j]);
        }
        sole_packet_moves_once(w, shorter, delta_time, i, id);
        assert(!names(payloads[payloads.len() - 1], id));
        match text_packet(payloads.last()) {
            Some(p) => {
                applied_one(before, p, delta_time);
            },
            None => {},
        }
    }
}

/// The world after a run of ticks over the same stored payloads, one tick for each
/// of `deltas`.
pub open spec fn ticked(w: World, payloads: Seq<Seq<char>>, deltas: Seq<u64>) -> World
    decreases deltas.len(),
{
    if deltas.len() == 0 {
        w
    } else {
        simulated(ticked(w, payloads, deltas.drop_last()), payloads, deltas.last())
    }
}

/// The time that a run of ticks covers.
pub open spec fn total(deltas: Seq<u64>) -> int
    decreases deltas.len(),
{
    if deltas.len() == 0 {
        0
    } else {
        total(deltas.drop_last()) + deltas.last()
    }
}

/// The speed is exact: a known player whose only stored packet holds right and not
/// left moves right by `SPEED` times the time covered, over any run of ticks, as long
/// as it stays in the range of a coordinate. With sixty equal ticks a second that is
/// `SPEED / 60` units a tick.
pub proof fn held_right_moves_at_speed(w: World, payloads: Seq<Seq<char>>, deltas: Seq<u64>, i: int, id: Seq<char>)
    requires
        w.wf(),
        w.has(id),
        sole(payloads, i, id),
        text_packet(payloads[i])->0.controls.right,
        !text_packet(payloads[i])->0.controls.left,
        w.position(id).x + SPEED * total(deltas) <= i64::MAX,
    ensures
        ticked(w, payloads, deltas).wf(),
        ticked(w, payloads, deltas).has(id),
        ticked(w, payloads, deltas).position(id).x == w.position(id).x + SPEED * total(deltas),
    decreases deltas.len(),
{
    if deltas.len() > 0 {
        let earlier = deltas.drop_last();
        let d = deltas.last();
        assert(SPEED * total(deltas) == SPEED * total(earlier) + SPEED * d) by (nonlinear_arith)
            requires
                total(deltas) == total(earlier) + d,
        ;
        total_is_positive(earlier);
        assert(SPEED * total(earlier) >= 0 && SPEED * d >= 0) by (nonlinear_arith)
            requires
                total(earlier) >= 0,
                d >= 0,
                SPEED == 200,
        ;
        held_right_moves_at_speed(w, payloads, earlier, i, id);
        sole_packet_moves_once(ticked(w, payloads, earlier), payloads, d, i, id);
    }
}

/// A run of ticks covers no negative time.
pub proof fn total_is_positive(deltas: Seq<u64>)
    ensures
        total(deltas) >= 0,
    decreases deltas.len(),
{
    if deltas.len() > 0 {
        total_is_positive(deltas.drop_last());
    }
}

} // verus!
