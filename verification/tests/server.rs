use netsandbox::gameplay::server_game_logic::{advance, Position, ServerGameLogic, SPEED};
use netsandbox::gameplay::play::Controls;
use netsandbox::networking::server::{Inbound, Outgoing, Server, Tick, MAX_DATAGRAM};

const STEP: u64 = 16_666_667;

const IDLE_A: &str = "{\"controls\":{\"left\":false,\"right\":false,\"up\":false,\"down\":false},\"id\":\"AAAAAAAAAA\"}";
const IDLE_B: &str = "{\"controls\":{\"left\":false,\"right\":false,\"up\":false,\"down\":false},\"id\":\"BBBBBBBBBB\"}";
const DOWN_A: &str = "{\"controls\":{\"left\":false,\"right\":false,\"up\":false,\"down\":true},\"id\":\"AAAAAAAAAA\"}";
const IDLE_J: &str = "{\"controls\":{\"left\":false,\"right\":false,\"up\":false,\"down\":false},\"id\":\"ABCDEFGHIJ\"}";
const RIGHT_J: &str = "{\"controls\":{\"left\":false,\"right\":true,\"up\":false,\"down\":false},\"id\":\"ABCDEFGHIJ\"}";

struct Bench {
    server: Server,
    logic: ServerGameLogic,
    now: u64,
}

impl Bench {
    fn start() -> Bench {
        Bench { server: Server::new(), logic: ServerGameLogic::new(), now: 0 }
    }

    fn tick(&mut self, inbound: Inbound) -> Tick {
        self.now += STEP;
        assert!(self.server.due(self.now));
        self.server.tick(&mut self.logic, self.now, inbound)
    }

    fn quiet(&mut self) -> Tick {
        self.tick(Inbound::Silent)
    }

    fn hear(&mut self, source: &str, payload: &str) -> Tick {
        self.tick(Inbound::Datagram { source: source.to_string(), payload: payload.to_string() })
    }

    fn place(&self, id: &str) -> Option<Position> {
        let players = &self.logic.returnable.players_data;
        players.find(&id.to_string()).map(|at| *players.value(at))
    }
}

fn pairs(sent: &Vec<Outgoing>) -> Vec<(String, String)> {
    sent.iter().map(|o| (o.to.clone(), o.payload.clone())).collect()
}

fn snapshots(sent: &Vec<Outgoing>) -> Vec<(String, String)> {
    pairs(sent).into_iter().filter(|p| p.1 != "Ok").collect()
}

fn pair(to: &str, payload: &str) -> (String, String) {
    (to.to_string(), payload.to_string())
}

#[test]
fn a_new_server_knows_nobody() {
    let server = Server::new();
    assert_eq!(server.connections.len(), 0);
    assert_eq!(server.last_data_sent, "");
    assert_eq!(server.time.last_tick, 0);
    let logic = ServerGameLogic::new();
    assert_eq!(logic.returnable.players_data.len(), 0);
    assert_eq!(MAX_DATAGRAM, 1024);
}

#[test]
fn single_client_spawn() {
    let mut bench = Bench::start();
    bench.quiet();
    let first = bench.hear("10.0.0.1:5000", IDLE_J);
    assert!(first.joined);
    assert_eq!(pairs(&first.sent), vec![pair("10.0.0.1:5000", "Ok")]);
    let second = bench.quiet();
    assert_eq!(
        pairs(&second.sent),
        vec![pair("10.0.0.1:5000", "{\"players_data\":{\"ABCDEFGHIJ\":{\"x\":0.0,\"y\":0.0}}}")]
    );
    assert_eq!(bench.place("ABCDEFGHIJ"), Some(Position { x: 0, y: 0 }));
}

#[test]
fn the_first_datagram_of_all_is_answered_with_the_empty_world() {
    let mut bench = Bench::start();
    let first = bench.hear("10.0.0.1:5000", IDLE_J);
    assert_eq!(
        pairs(&first.sent),
        vec![pair("10.0.0.1:5000", "Ok"), pair("10.0.0.1:5000", "{\"players_data\":{}}")]
    );
    assert_eq!(bench.server.last_data_sent, "{\"players_data\":{}}");
}

#[test]
fn right_movement() {
    let mut bench = Bench::start();
    bench.quiet();
    bench.hear("10.0.0.1:5000", IDLE_J);
    bench.quiet();
    let mut last = bench.hear("10.0.0.1:5000", RIGHT_J);
    assert_eq!(bench.place("ABCDEFGHIJ"), Some(Position { x: 0, y: 0 }));
    for _ in 1..60 {
        last = bench.quiet();
    }
    let x = 59 * SPEED as i64 * STEP as i64;
    assert_eq!(x, 196_666_670_600);
    assert_eq!(bench.place("ABCDEFGHIJ"), Some(Position { x, y: 0 }));
    assert_eq!(
        snapshots(&last.sent),
        vec![pair("10.0.0.1:5000", "{\"players_data\":{\"ABCDEFGHIJ\":{\"x\":196.6666706,\"y\":0.0}}}")]
    );
}

#[test]
fn two_clients() {
    let mut bench = Bench::start();
    bench.quiet();
    bench.hear("10.0.0.1:5000", IDLE_A);
    bench.hear("10.0.0.2:6000", IDLE_B);
    let both = bench.quiet();
    let world = "{\"players_data\":{\"AAAAAAAAAA\":{\"x\":0.0,\"y\":0.0},\"BBBBBBBBBB\":{\"x\":0.0,\"y\":0.0}}}";
    assert_eq!(pairs(&both.sent), vec![pair("10.0.0.1:5000", world), pair("10.0.0.2:6000", world)]);
    let mut last = bench.hear("10.0.0.1:5000", DOWN_A);
    for _ in 1..60 {
        last = bench.quiet();
    }
    assert_eq!(bench.place("AAAAAAAAAA"), Some(Position { x: 0, y: 196_666_670_600 }));
    assert_eq!(bench.place("BBBBBBBBBB"), Some(Position { x: 0, y: 0 }));
    let moved = "{\"players_data\":{\"AAAAAAAAAA\":{\"x\":0.0,\"y\":196.6666706},\"BBBBBBBBBB\":{\"x\":0.0,\"y\":0.0}}}";
    assert_eq!(snapshots(&last.sent), vec![pair("10.0.0.1:5000", moved), pair("10.0.0.2:6000", moved)]);
}

#[test]
fn duplicate_suppression() {
    let mut bench = Bench::start();
    bench.quiet();
    let mut broadcasts = 0;
    broadcasts += snapshots(&bench.hear("10.0.0.1:5000", IDLE_J).sent).len();
    for _ in 0..600 {
        broadcasts += snapshots(&bench.quiet().sent).len();
    }
    assert_eq!(broadcasts, 1);
}

#[test]
fn unparseable_payload() {
    let mut bench = Bench::start();
    bench.quiet();
    bench.hear("10.0.0.1:5000", IDLE_J);
    bench.quiet();
    let stray = bench.hear("10.9.9.9:7000", "hello");
    assert!(stray.joined);
    assert_eq!(pairs(&stray.sent), vec![pair("10.9.9.9:7000", "Ok")]);
    assert_eq!(bench.server.connections.len(), 2);
    assert_eq!(bench.server.connections.key(1), "10.9.9.9:7000");
    assert_eq!(bench.server.connections.value(1), "hello");
    let next = bench.quiet();
    assert_eq!(next.rejected, vec![1]);
    assert!(next.sent.is_empty());
    assert_eq!(bench.logic.returnable.players_data.len(), 1);
    assert_eq!(bench.server.last_data_sent, "{\"players_data\":{\"ABCDEFGHIJ\":{\"x\":0.0,\"y\":0.0}}}");
}

#[test]
fn a_bad_payload_replaces_the_stored_one_and_the_player_rests() {
    let mut bench = Bench::start();
    bench.hear("10.0.0.1:5000", RIGHT_J);
    bench.quiet();
    bench.quiet();
    assert_eq!(bench.place("ABCDEFGHIJ"), Some(Position { x: 200 * STEP as i64, y: 0 }));
    let swap = bench.hear("10.0.0.1:5000", "Connected");
    assert!(!swap.joined);
    assert_eq!(bench.place("ABCDEFGHIJ"), Some(Position { x: 400 * STEP as i64, y: 0 }));
    let rest = bench.quiet();
    assert_eq!(rest.rejected, vec![0]);
    assert_eq!(bench.place("ABCDEFGHIJ"), Some(Position { x: 400 * STEP as i64, y: 0 }));
}

#[test]
fn client_restart() {
    let mut bench = Bench::start();
    bench.hear("10.0.0.1:5000", IDLE_A);
    bench.quiet();
    bench.hear("10.0.0.1:5001", IDLE_B);
    for _ in 0..100 {
        bench.quiet();
    }
    assert_eq!(bench.server.connections.len(), 2);
    assert!(bench.place("AAAAAAAAAA").is_some());
    assert!(bench.place("BBBBBBBBBB").is_some());
    assert_eq!(
        bench.server.last_data_sent,
        "{\"players_data\":{\"AAAAAAAAAA\":{\"x\":0.0,\"y\":0.0},\"BBBBBBBBBB\":{\"x\":0.0,\"y\":0.0}}}"
    );
}

#[test]
fn a_client_that_rebinds_keeps_its_player() {
    let mut bench = Bench::start();
    bench.hear("10.0.0.1:5000", IDLE_J);
    bench.quiet();
    let again = bench.hear("10.0.0.1:5999", RIGHT_J);
    assert!(again.joined);
    bench.quiet();
    assert_eq!(bench.server.connections.len(), 2);
    assert_eq!(bench.logic.returnable.players_data.len(), 1);
    assert_eq!(bench.place("ABCDEFGHIJ"), Some(Position { x: 200 * STEP as i64, y: 0 }));
}

#[test]
fn a_failed_transport_stops_the_server_after_the_simulation() {
    let mut bench = Bench::start();
    bench.hear("10.0.0.1:5000", RIGHT_J);
    bench.quiet();
    let before = bench.server.last_data_sent.clone();
    let end = bench.tick(Inbound::Failed);
    assert!(end.stopped);
    assert!(end.sent.is_empty());
    assert!(!end.joined);
    assert_eq!(bench.place("ABCDEFGHIJ"), Some(Position { x: 200 * STEP as i64, y: 0 }));
    assert_eq!(bench.server.last_data_sent, before);
    assert_eq!(bench.server.connections.len(), 1);
}

#[test]
fn the_tick_uses_the_time_since_the_last_tick() {
    let mut server = Server::new();
    let mut logic = ServerGameLogic::new();
    server.tick(&mut logic, 10, Inbound::Datagram { source: "a:1".to_string(), payload: RIGHT_J.to_string() });
    server.tick(&mut logic, 20, Inbound::Silent);
    let report = server.tick(&mut logic, 1_000_000_020, Inbound::Silent);
    assert_eq!(server.time.delta_time, 1_000_000_000);
    assert_eq!(pairs(&report.sent), vec![pair("a:1", "{\"players_data\":{\"ABCDEFGHIJ\":{\"x\":200.0,\"y\":0.0}}}")]);
}

#[test]
fn absorb_keeps_the_order_of_first_arrival() {
    let mut server = Server::new();
    assert!(server.absorb("b:2".to_string(), "one".to_string()));
    assert!(server.absorb("a:1".to_string(), "two".to_string()));
    assert!(!server.absorb("b:2".to_string(), "three".to_string()));
    assert_eq!(server.connections.len(), 2);
    assert_eq!(server.connections.key(0), "b:2");
    assert_eq!(server.connections.value(0), "three");
    assert_eq!(server.connections.key(1), "a:1");
    assert_eq!(server.connections.value(1), "two");
}

#[test]
fn publish_sends_only_what_changed() {
    let mut server = Server::new();
    server.absorb("a:1".to_string(), "x".to_string());
    server.absorb("b:2".to_string(), "y".to_string());
    assert_eq!(pairs(&server.publish(Some("s1".to_string()))), vec![pair("a:1", "s1"), pair("b:2", "s1")]);
    assert!(server.publish(Some("s1".to_string())).is_empty());
    assert!(server.publish(None).is_empty());
    assert_eq!(server.last_data_sent, "s1");
    assert_eq!(pairs(&server.publish(Some("s2".to_string()))), vec![pair("a:1", "s2"), pair("b:2", "s2")]);
    assert_eq!(pairs(&server.publish(Some("s1".to_string()))), vec![pair("a:1", "s1"), pair("b:2", "s1")]);
}

#[test]
fn every_held_axis_applies() {
    let p = Position { x: 10, y: 20 };
    let all = Controls { left: true, right: true, up: true, down: true };
    assert_eq!(advance(p, all, 5), Position { x: 10, y: 20 });
    let diagonal = Controls { left: false, right: true, up: true, down: false };
    assert_eq!(advance(p, diagonal, 5), Position { x: 1_010, y: -980 });
    let back = Controls { left: true, right: false, up: false, down: true };
    assert_eq!(advance(p, back, 5), Position { x: -990, y: 1_020 });
    assert_eq!(advance(p, Controls::idle(), 5), p);
}

#[test]
fn a_coordinate_stops_at_the_end_of_its_range() {
    let right = Controls { left: false, right: true, up: false, down: false };
    let near = Position { x: i64::MAX - 100, y: 0 };
    assert_eq!(advance(near, right, 1), Position { x: i64::MAX, y: 0 });
    assert_eq!(advance(near, right, u64::MAX), Position { x: i64::MAX, y: 0 });
    let both = Controls { left: true, right: true, up: false, down: false };
    assert_eq!(advance(near, both, 1), Position { x: i64::MAX - 200, y: 0 });
    let up = Controls { left: false, right: false, up: true, down: false };
    assert_eq!(advance(Position { x: 0, y: i64::MIN + 1 }, up, 1), Position { x: 0, y: i64::MIN });
}

#[test]
fn two_connections_of_one_player_both_apply() {
    let mut bench = Bench::start();
    bench.hear("a:1", IDLE_J);
    bench.hear("b:2", RIGHT_J);
    assert_eq!(bench.place("ABCDEFGHIJ"), Some(Position { x: 0, y: 0 }));
    bench.hear("c:3", RIGHT_J);
    assert_eq!(bench.place("ABCDEFGHIJ"), Some(Position { x: 200 * STEP as i64, y: 0 }));
    bench.quiet();
    assert_eq!(bench.place("ABCDEFGHIJ"), Some(Position { x: 600 * STEP as i64, y: 0 }));
}

#[test]
fn a_player_first_named_twice_in_one_tick_spawns_and_then_moves() {
    let mut server = Server::new();
    let mut logic = ServerGameLogic::new();
    server.absorb("a:1".to_string(), IDLE_J.to_string());
    server.absorb("b:2".to_string(), RIGHT_J.to_string());
    server.time.update(1_000);
    let rejected = logic.update(&server);
    assert!(rejected.is_empty());
    assert_eq!(*logic.returnable.players_data.value(0), Position { x: 200_000, y: 0 });
}
