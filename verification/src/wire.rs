//! The wire codec: one JSON message per datagram, in both directions.

use crate::decimal::{decimal_round_trip, decimal_text, decimal_value, format_decimal, parse_decimal};
use crate::gameplay::play::{Controls, Packet, PacketView};
use crate::gameplay::server_game_logic::{Position, Returnable, World};
use crate::json::{
    json_of_text, member, member_of, members_view, object_view, parse_json, render_json, text_of_json, Json, JsonView,
};
use crate::table::Table;
use vstd::prelude::*;
use vstd::string::*;

verus! {

/// The handshake a client sends once when it starts. It is deliberately not JSON.
pub open spec fn handshake() -> Seq<char> {
    "Connected"@
}

/// The acknowledgement the server sends back for every datagram it receives.
pub open spec fn handshake_ack() -> Seq<char> {
    "Ok"@
}

/// The handshake as text to send.
pub fn handshake_text() -> (text: String)
    ensures
        text@ == handshake(),
{
    String::from_str("Connected")
}

/// The acknowledgement as text to send.
pub fn ack_text() -> (text: String)
    ensures
        text@ == handshake_ack(),
{
    String::from_str("Ok")
}

/// The tree of a [`Controls`] record: one boolean member per axis.
pub open spec fn controls_tree(c: Controls) -> JsonView {
    JsonView::Object(
        seq![
            ("left"@, JsonView::Bool(c.left)),
            ("right"@, JsonView::Bool(c.right)),
            ("up"@, JsonView::Bool(c.up)),
            ("down"@, JsonView::Bool(c.down)),
        ],
    )
}

/// The tree of an input packet: `{"controls":{...},"id":"..."}`.
pub open spec fn packet_tree(p: PacketView) -> JsonView {
    JsonView::Object(seq![("controls"@, controls_tree(p.controls)), ("id"@, JsonView::Text(p.id))])
}

/// The boolean stored under `key`, where there is one.
pub open spec fn bool_member(members: Seq<(Seq<char>, JsonView)>, key: Seq<char>) -> Option<bool> {
    match member_of(members, key) {
        Some(JsonView::Bool(b)) => Some(b),
        _ => None,
    }
}

/// The controls that a tree holds: an object with a boolean under each of the four
/// axis names. Other members are ignored.
pub open spec fn tree_controls(tree: JsonView) -> Option<Controls> {
    match tree {
        JsonView::Object(members) => match (
            bool_member(members, "left"@),
            bool_member(members, "right"@),
            bool_member(members, "up"@),
            bool_member(members, "down"@),
        ) {
            (Some(left), Some(right), Some(up), Some(down)) => Some(Controls { left, right, up, down }),
            _ => None,
        },
        _ => None,
    }
}

/// The input packet that a tree holds: an object with controls under `controls` and
/// a string under `id`. Other members are ignored.
pub open spec fn tree_packet(tree: JsonView) -> Option<PacketView> {
    match tree {
        JsonView::Object(members) => match (member_of(members, "controls"@), member_of(members, "id"@)) {
            (Some(controls), Some(JsonView::Text(id))) => match tree_controls(controls) {
                Some(c) => Some(PacketView { controls: c, id }),
                None => None,
            },
            _ => None,
        },
        _ => None,
    }
}

/// The input packet that a datagram's text holds, if it holds one.
pub open spec fn text_packet(text: Seq<char>) -> Option<PacketView> {
    match json_of_text(text) {
        Some(tree) => tree_packet(tree),
        None => None,
    }
}

/// Builds the tree of an input packet.
pub fn packet_to_tree(packet: &Packet) -> (tree: Json)
    ensures
        tree@ == packet_tree(packet@),
{
    let c = packet.controls;
    let mut axes: Vec<(String, Json)> = Vec::new();
    axes.push((String::from_str("left"), Json::Bool(c.left)));
    axes.push((String::from_str("right"), Json::Bool(c.right)));
    axes.push((String::from_str("up"), Json::Bool(c.up)));
    axes.push((String::from_str("down"), Json::Bool(c.down)));
    let mut members: Vec<(String, Json)> = Vec::new();
    proof {
        object_view(axes);
        assert(members_view(axes@) =~= controls_tree(c)->Object_0);
    }
    members.push((String::from_str("controls"), Json::Object(axes)));
    members.push((String::from_str("id"), Json::Text(packet.id.clone())));
    proof {
        object_view(members);
        assert(members_view(members@) =~= packet_tree(packet@)->Object_0);
    }
    Json::Object(members)
}

fn read_bool(members: &Vec<(String, Json)>, key: &str) -> (b: Option<bool>)
    ensures
        b == bool_member(members_view(members@), key@),
{
    match member(members, &String::from_str(key)) {
        Some(Json::Bool(b)) => Some(*b),
        _ => None,
    }
}

/// Reads the controls out of a tree.
pub fn controls_from_tree(tree: &Json) -> (c: Option<Controls>)
    ensures
        c == tree_controls(tree@),
{
    match tree {
        Json::Object(members) => {
            proof {
                object_view(*members);
            }
            let left = read_bool(members, "left");
            let right = read_bool(members, "right");
            let up = read_bool(members, "up");
            let down = read_bool(members, "down");
            match (left, right, up, down) {
                (Some(left), Some(right), Some(up), Some(down)) => Some(Controls { left, right, up, down }),
                _ => None,
            }
        },
        _ => None,
    }
}

/// Reads an input packet out of a tree.
pub fn packet_from_tree(tree: &Json) -> (packet: Option<Packet>)
    ensures
        packet is Some == tree_packet(tree@) is Some,
        packet matches Some(p) ==> tree_packet(tree@) == Some(p@),
{
    match tree {
        Json::Object(members) => {
            proof {
                object_view(*members);
            }
            let controls = member(members, &String::from_str("controls"));
            let id = member(members, &String::from_str("id"));
            match (controls, id) {
                (Some(controls), Some(Json::Text(id))) => match controls_from_tree(controls) {
                    Some(c) => Some(Packet { controls: c, id: id.clone() }),
                    None => None,
                },
                _ => None,
            }
        },
        _ => None,
    }
}

/// The tree of a position: `{"x":..,"y":..}`, each coordinate a number in world units.
pub open spec fn position_tree(p: Position) -> JsonView {
    JsonView::Object(
        seq![
            ("x"@, JsonView::Number(decimal_text(p.x as int))),
            ("y"@, JsonView::Number(decimal_text(p.y as int))),
        ],
    )
}

/// The members of `players_data`: one per player, in the order of the ids.
pub open spec fn players_members(w: World) -> Seq<(Seq<char>, JsonView)> {
    Seq::new(w.ids.len(), |i: int| (w.ids[i], position_tree(w.positions[i])))
}

/// The tree of a snapshot: `{"players_data":{"<id>":{"x":..,"y":..},..}}`.
pub open spec fn snapshot_tree(w: World) -> JsonView {
    JsonView::Object(seq![("players_data"@, JsonView::Object(players_members(w)))])
}

/// The text of a snapshot, as `serde_json` writes its tree.
pub open spec fn snapshot_text(w: World) -> Option<Seq<char>> {
    text_of_json(snapshot_tree(w))
}

/// Builds the tree of a position.
pub fn position_to_tree(p: Position) -> (tree: Json)
    ensures
        tree@ == position_tree(p),
{
    let mut members: Vec<(String, Json)> = Vec::new();
    members.push((String::from_str("x"), Json::Number(format_decimal(p.x))));
    members.push((String::from_str("y"), Json::Number(format_decimal(p.y))));
    proof {
        object_view(members);
        assert(members_view(members@) =~= position_tree(p)->Object_0);
    }
    Json::Object(members)
}

/// Builds the tree of a snapshot.
pub fn snapshot_to_tree(snapshot: &Returnable) -> (tree: Json)
    requires
        snapshot.wf(),
    ensures
        tree@ == snapshot_tree(snapshot@),
{
    let n = snapshot.players_data.len();
    let mut players: Vec<(String, Json)> = Vec::new();
    let mut i: usize = 0;
    while i < n
        invariant
            i <= n,
            snapshot.wf(),
            n == snapshot@.ids.len(),
            n == snapshot@.positions.len(),
            players@.len() == i,
            forall|j: int| 0 <= j < i ==> (#[trigger] players@[j]).0@ == snapshot@.ids[j] && players@[j].1@ == position_tree(
                snapshot@.positions[j],
            ),
        decreases n - i,
    {
        let id = snapshot.players_data.key(i).clone();
        let place = position_to_tree(*snapshot.players_data.value(i));
        players.push((id, place));
        i += 1;
    }
    let mut members: Vec<(String, Json)> = Vec::new();
    proof {
        object_view(players);
        assert(members_view(players@) =~= players_members(snapshot@));
    }
    members.push((String::from_str("players_data"), Json::Object(players)));
    proof {
        object_view(members);
        assert(members_view(members@) =~= snapshot_tree(snapshot@)->Object_0);
    }
    Json::Object(members)
}

/// Serializes a snapshot for broadcasting.
pub fn encode_snapshot(snapshot: &Returnable) -> (text: Option<String>)
    requires
        snapshot.wf(),
    ensures
        text is Some == snapshot_text(snapshot@) is Some,
        text matches Some(t) ==> snapshot_text(snapshot@) == Some(t@),
{
    let tree = snapshot_to_tree(snapshot);
    render_json(&tree)
}

/// The coordinate stored under `key`, where there is a number.
pub open spec fn coordinate_member(members: Seq<(Seq<char>, JsonView)>, key: Seq<char>) -> Option<int> {
    match member_of(members, key) {
        Some(JsonView::Number(text)) => decimal_value(text),
        _ => None,
    }
}

/// The position that a tree holds: an object with a number under `x` and under `y`.
pub open spec fn tree_position(tree: JsonView) -> Option<Position> {
    match tree {
        JsonView::Object(members) => match (coordinate_member(members, "x"@), coordinate_member(members, "y"@)) {
            (Some(x), Some(y)) => Some(Position { x: x as i64, y: y as i64 }),
            _ => None,
        },
        _ => None,
    }
}

/// The world with `id` standing at `p`: an id that is known keeps its place among
/// the ids, a new one goes to the end.
pub open spec fn placed(w: World, id: Seq<char>, p: Position) -> World {
    if w.has(id) {
        World { ids: w.ids, positions: w.positions.update(w.ids.index_of(id), p) }
    } else {
        World { ids: w.ids.push(id), positions: w.positions.push(p) }
    }
}

/// The world that the members of `players_data` hold: every member has to hold a
/// position, and the last member of an id counts.
pub open spec fn members_world(members: Seq<(Seq<char>, JsonView)>) -> Option<World>
    decreases members.len(),
{
    if members.len() == 0 {
        Some(World { ids: Seq::empty(), positions: Seq::empty() })
    } else {
        match (members_world(members.drop_last()), tree_position(members.last().1)) {
            (Some(w), Some(p)) => Some(placed(w, members.last().0, p)),
            _ => None,
        }
    }
}

/// The snapshot that a tree holds: an object with, under `players_data`, an object
/// that gives each player a position.
pub open spec fn tree_snapshot(tree: JsonView) -> Option<World> {
    match tree {
        JsonView::Object(members) => match member_of(members, "players_data"@) {
            Some(JsonView::Object(players)) => members_world(players),
            _ => None,
        },
        _ => None,
    }
}

/// The snapshot that a datagram's text holds, if it holds one.
pub open spec fn text_snapshot(text: Seq<char>) -> Option<World> {
    match json_of_text(text) {
        Some(tree) => tree_snapshot(tree),
        None => None,
    }
}

fn read_coordinate(members: &Vec<(String, Json)>, key: &str) -> (v: Option<i64>)
    ensures
        v is Some == coordinate_member(members_view(members@), key@) is Some,
        v matches Some(x) ==> coordinate_member(members_view(members@), key@) == Some(x as int),
{
    match member(members, &String::from_str(key)) {
        Some(Json::Number(text)) => parse_decimal(text.as_str()),
        _ => None,
    }
}

/// Reads a position out of a tree.
pub fn position_from_tree(tree: &Json) -> (p: Option<Position>)
    ensures
        p == tree_position(tree@),
{
    match tree {
        Json::Object(members) => {
            proof {
                object_view(*members);
            }
            let x = read_coordinate(members, "x");
            let y = read_coordinate(members, "y");
            match (x, y) {
                (Some(x), Some(y)) => Some(Position { x, y }),
                _ => None,
            }
        },
        _ => None,
    }
}

/// Reads a snapshot out of a tree.
pub fn snapshot_from_tree(tree: &Json) -> (snapshot: Option<Returnable>)
    ensures
        snapshot is Some == tree_snapshot(tree@) is Some,
        snapshot matches Some(s) ==> s.wf() && tree_snapshot(tree@) == Some(s@),
{
    match tree {
        Json::Object(members) => {
            proof {
                object_view(*members);
            }
            match member(members, &String::from_str("players_data")) {
                Some(Json::Object(players)) => {
                    proof {
                        object_view(*players);
                    }
                    let ghost all = members_view(players@);
                    let n = players.len();
                    let mut table: Table<Position> = Table::new();
                    let mut i: usize = 0;
                    proof {
                        assert(all.take(0) =~= Seq::<(Seq<char>, JsonView)>::empty());
                    }
                    while i < n
                        invariant
                            i <= n,
                            n == players@.len(),
                            all == members_view(players@),
                            tree_snapshot(tree@) == members_world(all),
                            table.wf(),
                            members_world(all.take(i as int)) == Some(
                                World { ids: table.keys(), positions: table.values() },
                            ),
                        decreases n - i,
                    {
                        proof {
                            assert(all.take(i + 1).drop_last() =~= all.take(i as int));
                            assert(all.take(i + 1).last() == all[i as int]);
                            table.shape();
                        }
                        match position_from_tree(&players[i].1) {
                            Some(p) => {
                                match table.find(&players[i].0) {
                                    Some(at) => {
                                        table.replace(at, p);
                                    },
                                    None => {
                                        table.append(players[i].0.clone(), p);
                                    },
                                }
                            },
                            None => {
                                proof {
                                    missing_position_spoils(all, i as int);
                                }
                                return None;
                            },
                        }
                        i += 1;
                    }
                    proof {
                        assert(all.take(n as int) =~= all);
                    }
                    Some(Returnable { players_data: table })
                },
                _ => None,
            }
        },
        _ => None,
    }
}

/// Where one member holds no position, the members hold no world.
pub proof fn missing_position_spoils(members: Seq<(Seq<char>, JsonView)>, i: int)
    requires
        0 <= i < members.len(),
        tree_position(members[i].1) is None,
    ensures
        members_world(members) is None,
    decreases members.len(),
{
    if i < members.len() - 1 {
        missing_position_spoils(members.drop_last(), i);
    }
}

/// Parses a datagram's text as a snapshot. Text that is not JSON, or JSON of another
/// shape, gives `None`.
pub fn decode_snapshot(text: &str) -> (snapshot: Option<Returnable>)
    ensures
        snapshot is Some == text_snapshot(text@) is Some,
        snapshot matches Some(s) ==> s.wf() && text_snapshot(text@) == Some(s@),
{
    match parse_json(text) {
        Some(tree) => snapshot_from_tree(&tree),
        None => None,
    }
}

/// The text of an input packet, as `serde_json` writes its tree.
pub open spec fn packet_text(p: PacketView) -> Option<Seq<char>> {
    text_of_json(packet_tree(p))
}

/// Serializes an input packet for sending.
pub fn encode_packet(packet: &Packet) -> (text: Option<String>)
    ensures
        text is Some == packet_text(packet@) is Some,
        text matches Some(t) ==> packet_text(packet@) == Some(t@),
{
    let tree = packet_to_tree(packet);
    render_json(&tree)
}

/// Parses a datagram's text as an input packet. Text that is not JSON, or JSON of
/// another shape, gives `None`.
pub fn decode_packet(text: &str) -> (packet: Option<Packet>)
    ensures
        packet is Some == text_packet(text@) is Some,
        packet matches Some(p) ==> text_packet(text@) == Some(p@),
{
    match parse_json(text) {
        Some(tree) => packet_from_tree(&tree),
        None => None,
    }
}

/// Reading the tree of an input packet gives the packet back.
pub proof fn packet_tree_round_trip(p: PacketView)
    ensures
        tree_packet(packet_tree(p)) == Some(p),
{
    reveal_strlit("left");
    reveal_strlit("right");
    reveal_strlit("up");
    reveal_strlit("down");
    reveal_strlit("controls");
    reveal_strlit("id");
    let axes = controls_tree(p.controls)->Object_0;
    reveal_with_fuel(crate::json::first_place, 5);
    assert("left"@[0] == 'l' && "right"@[0] == 'r' && "down"@[0] == 'd' && "up"@[0] == 'u');
    assert(bool_member(axes, "left"@) == Some(p.controls.left));
    assert(bool_member(axes, "right"@) == Some(p.controls.right));
    assert(bool_member(axes, "up"@) == Some(p.controls.up));
    assert(bool_member(axes, "down"@) == Some(p.controls.down));
    assert(tree_controls(controls_tree(p.controls)) == Some(p.controls));
    let members = packet_tree(p)->Object_0;
    assert("controls"@[0] == 'c' && "id"@[0] == 'i');
    assert(member_of(members, "controls"@) == Some(controls_tree(p.controls)));
    assert(member_of(members, "id"@) == Some(JsonView::Text(p.id)));
}

/// Reading the tree of a position gives the position back.
pub proof fn position_tree_round_trip(p: Position)
    ensures
        tree_position(position_tree(p)) == Some(p),
{
    reveal_strlit("x");
    reveal_strlit("y");
    reveal_with_fuel(crate::json::first_place, 3);
    decimal_round_trip(p.x);
    decimal_round_trip(p.y);
    let members = position_tree(p)->Object_0;
    assert("x"@[0] == 'x' && "y"@[0] == 'y');
    assert(coordinate_member(members, "x"@) == Some(p.x as int));
    assert(coordinate_member(members, "y"@) == Some(p.y as int));
}

/// Reading the members written for a world gives the world back.
pub proof fn players_members_round_trip(w: World)
    requires
        w.wf(),
    ensures
        members_world(players_members(w)) == Some(w),
    decreases w.ids.len(),
{
    let members = players_members(w);
    if w.ids.len() == 0 {
        assert(w.ids =~= Seq::<Seq<char>>::empty());
        assert(w.positions =~= Seq::<Position>::empty());
    } else {
        let less = World { ids: w.ids.drop_last(), positions: w.positions.drop_last() };
        let last = w.ids.len() - 1;
        assert(members.drop_last() =~= players_members(less));
        players_members_round_trip(less);
        position_tree_round_trip(w.positions[last]);
        assert(!less.has(w.ids[last])) by {
            if less.ids.contains(w.ids[last]) {
                let i = less.ids.index_of(w.ids[last]);
                assert(less.ids[i] == w.ids[last]);
                assert(w.ids[i] == w.ids[last]);
            }
        }
        let back = placed(less, w.ids[last], w.positions[last]);
        assert(back.ids =~= w.ids);
        assert(back.positions =~= w.positions);
    }
}

/// Reading the tree of a snapshot gives the snapshot back.
pub proof fn snapshot_tree_round_trip(w: World)
    requires
        w.wf(),
    ensures
        tree_snapshot(snapshot_tree(w)) == Some(w),
{
    reveal_strlit("players_data");
    reveal_with_fuel(crate::json::first_place, 2);
    players_members_round_trip(w);
    let members = snapshot_tree(w)->Object_0;
    assert(member_of(members, "players_data"@) == Some(JsonView::Object(players_members(w))));
}

} // verus!
