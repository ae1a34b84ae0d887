use netsandbox::gameplay::play::{Controls, Packet};
use netsandbox::wire::{decode_packet, encode_packet};

#[test]
fn idle_packet_has_the_wire_text() {
    let packet = Packet { controls: Controls::idle(), id: "ABCDEFGHIJ".to_string() };
    assert_eq!(
        encode_packet(&packet).unwrap(),
        "{\"controls\":{\"left\":false,\"right\":false,\"up\":false,\"down\":false},\"id\":\"ABCDEFGHIJ\"}"
    );
}

#[test]
fn packet_text_round_trips() {
    let packet = Packet {
        controls: Controls { left: true, right: false, up: true, down: false },
        id: "a\"b\\c".to_string(),
    };
    let text = encode_packet(&packet).unwrap();
    let back = decode_packet(&text).unwrap();
    assert!(back == packet);
}

#[test]
fn handshake_is_not_a_packet() {
    assert!(decode_packet("Connected").is_none());
    assert!(decode_packet("hello").is_none());
}
