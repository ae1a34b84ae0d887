use netsandbox::gameplay::server_game_logic::{Position, Returnable};
use netsandbox::json::{member, Json};
use netsandbox::table::Table;
use netsandbox::wire::{
    ack_text, controls_from_tree, decode_packet, decode_snapshot, encode_snapshot, handshake_text, packet_from_tree,
    position_from_tree, position_to_tree, snapshot_from_tree, snapshot_to_tree,
};

fn world(players: &[(&str, i64, i64)]) -> Returnable {
    let mut table = Table::new();
    for (id, x, y) in players {
        table.append(id.to_string(), Position { x: *x, y: *y });
    }
    Returnable { players_data: table }
}

fn listed(snapshot: &Returnable) -> Vec<(String, i64, i64)> {
    let players = &snapshot.players_data;
    (0..players.len()).map(|i| (players.key(i).clone(), players.value(i).x, players.value(i).y)).collect()
}

fn row(id: &str, x: i64, y: i64) -> (String, i64, i64) {
    (id.to_string(), x, y)
}

#[test]
fn the_protocol_tokens_are_fixed() {
    assert_eq!(handshake_text(), "Connected");
    assert_eq!(ack_text(), "Ok");
}

#[test]
fn an_empty_world_has_the_wire_text() {
    assert_eq!(encode_snapshot(&world(&[])).unwrap(), "{\"players_data\":{}}");
}

#[test]
fn a_snapshot_lists_its_players_in_order() {
    let text = encode_snapshot(&world(&[("B", 1_500_000_000, -250_000_000), ("A", 0, 3_333_333_400)])).unwrap();
    assert_eq!(text, "{\"players_data\":{\"B\":{\"x\":1.5,\"y\":-0.25},\"A\":{\"x\":0.0,\"y\":3.3333334}}}");
}

#[test]
fn snapshot_text_round_trips() {
    let before = world(&[("ABCDEFGHIJ", 196_666_670_600, 0), ("q\"uo\\te", -1, 999_999_999_999), ("é", 123_456_789_012_345, 7)]);
    let after = decode_snapshot(&encode_snapshot(&before).unwrap()).unwrap();
    assert_eq!(listed(&after), listed(&before));
}

#[test]
fn a_snapshot_of_another_server_is_read() {
    let text = " { \"players_data\" : { \"a\" : { \"y\" : 2, \"x\" : 196.66667, \"z\": [1, null] }, \"b\": {\"x\": 2.3841858e-7, \"y\": -1E1} }, \"tick\": 5 } ";
    assert_eq!(listed(&decode_snapshot(text).unwrap()), vec![row("a", 196_666_670_000, 2_000_000_000), row("b", 238, -10_000_000_000)]);
}

#[test]
fn a_repeated_player_counts_once_with_its_last_position() {
    let text = "{\"players_data\":{\"a\":{\"x\":1,\"y\":1},\"b\":{\"x\":2,\"y\":2},\"a\":{\"x\":3,\"y\":3}}}";
    assert_eq!(listed(&decode_snapshot(text).unwrap()), vec![row("a", 3_000_000_000, 3_000_000_000), row("b", 2_000_000_000, 2_000_000_000)]);
    let members = vec![
        ("a".to_string(), position_to_tree(Position { x: 1, y: 1 })),
        ("b".to_string(), position_to_tree(Position { x: 2, y: 2 })),
        ("a".to_string(), position_to_tree(Position { x: 3, y: 3 })),
    ];
    let tree = Json::Object(vec![("players_data".to_string(), Json::Object(members))]);
    assert_eq!(listed(&snapshot_from_tree(&tree).unwrap()), vec![row("a", 3, 3), row("b", 2, 2)]);
}

#[test]
fn text_that_is_no_snapshot_is_refused() {
    for text in [
        "Ok",
        "",
        "{}",
        "[]",
        "{\"players_data\":[]}",
        "{\"players_data\":null}",
        "{\"players\":{}}",
        "{\"players_data\":{\"a\":{\"x\":1}}}",
        "{\"players_data\":{\"a\":{\"x\":\"1\",\"y\":2}}}",
        "{\"players_data\":{\"a\":[1,2]}}",
        "{\"players_data\":{\"a\":{\"x\":1,\"y\":2},\"b\":7}}",
        "{\"players_data\":{}",
        "{\"controls\":{\"left\":false,\"right\":false,\"up\":false,\"down\":false},\"id\":\"A\"}",
    ] {
        assert!(decode_snapshot(text).is_none(), "{:?}", text);
    }
}

#[test]
fn text_that_is_no_packet_is_refused() {
    for text in [
        "Connected",
        "{}",
        "null",
        "{\"controls\":{\"left\":false,\"right\":false,\"up\":false},\"id\":\"A\"}",
        "{\"controls\":{\"left\":false,\"right\":false,\"up\":false,\"down\":0},\"id\":\"A\"}",
        "{\"controls\":{\"left\":false,\"right\":false,\"up\":false,\"down\":false}}",
        "{\"controls\":{\"left\":false,\"right\":false,\"up\":false,\"down\":false},\"id\":7}",
        "{\"controls\":[false,false,false,false],\"id\":\"A\"}",
        "{\"players_data\":{}}",
        "{\"controls\":{\"left\":false,\"right\":false,\"up\":false,\"down\":false},\"id\":\"A\"",
    ] {
        assert!(decode_packet(text).is_none(), "{:?}", text);
    }
}

#[test]
fn a_packet_may_carry_more_than_it_needs_in_any_order() {
    let text = "{\"seq\":4,\"id\":\"A\",\"controls\":{\"down\":true,\"jump\":true,\"up\":false,\"right\":true,\"left\":false}}";
    let packet = decode_packet(text).unwrap();
    assert_eq!(packet.id, "A");
    assert!(packet.controls.down && packet.controls.right && !packet.controls.up && !packet.controls.left);
}

#[test]
fn trees_are_read_member_by_member() {
    let members = vec![
        ("x".to_string(), Json::Number("1.5".to_string())),
        ("y".to_string(), Json::Number("-2".to_string())),
        ("x".to_string(), Json::Number("9".to_string())),
    ];
    assert!(matches!(member(&members, &"x".to_string()), Some(Json::Number(n)) if n == "1.5"));
    assert!(member(&members, &"z".to_string()).is_none());
    let tree = Json::Object(members);
    assert_eq!(position_from_tree(&tree), Some(Position { x: 1_500_000_000, y: -2_000_000_000 }));
    assert_eq!(position_from_tree(&Json::Null), None);
    assert_eq!(position_from_tree(&Json::Object(vec![("x".to_string(), Json::Text("1".to_string()))])), None);
    assert!(controls_from_tree(&Json::Array(vec![Json::Bool(true)])).is_none());
    assert!(packet_from_tree(&Json::Text("id".to_string())).is_none());
    assert!(snapshot_from_tree(&Json::Bool(false)).is_none());
}

#[test]
fn a_snapshot_tree_has_one_member_per_player() {
    let tree = snapshot_to_tree(&world(&[("a", 1, 2), ("b", 3, 4)]));
    let Json::Object(members) = tree else { panic!("not an object") };
    assert_eq!(members.len(), 1);
    assert_eq!(members[0].0, "players_data");
    let Json::Object(players) = &members[0].1 else { panic!("not an object") };
    assert_eq!(players.len(), 2);
    assert_eq!(players[1].0, "b");
    assert_eq!(position_from_tree(&players[1].1), Some(Position { x: 3, y: 4 }));
}
