use fishnet::input::Input;
use fishnet::wire::decode;
use fishnet::wire::encode;
use fishnet::wire::Message;

fn sample_input() -> Input {
    Input { left: true, right: false, down: true, jump: false, throw: true, fire: false }
}

fn round_trips(m: Message) {
    let bytes = encode(&m);
    assert_eq!(decode(&bytes), Some(m));
}

#[test]
fn round_trip_idle() {
    round_trips(Message::Idle);
}

#[test]
fn round_trip_relay_request_id() {
    round_trips(Message::RelayRequestId);
}

#[test]
fn round_trip_relay_id_assigned() {
    round_trips(Message::RelayIdAssigned(0));
    round_trips(Message::RelayIdAssigned(u64::MAX));
    round_trips(Message::RelayIdAssigned(0x0123_4567_89ab_cdef));
}

#[test]
fn round_trip_relay_connect_to() {
    round_trips(Message::RelayConnectTo(42));
}

#[test]
fn round_trip_relay_connected() {
    round_trips(Message::RelayConnected);
}

#[test]
fn round_trip_input() {
    round_trips(Message::Input { frame: 0, input: sample_input() });
    round_trips(Message::Input {
        frame: u64::MAX,
        input: Input { left: true, right: true, down: true, jump: true, throw: true, fire: true },
    });
    round_trips(Message::Input { frame: 7, input: Input::default() });
}

#[test]
fn round_trip_ack() {
    round_trips(Message::Ack { frame: 0 });
    round_trips(Message::Ack { frame: 123_456_789 });
}

#[test]
fn exact_bytes_of_ack() {
    let bytes = encode(&Message::Ack { frame: 0x0102_0304_0506_0708 });
    assert_eq!(bytes, vec![6, 0x08, 0x07, 0x06, 0x05, 0x04, 0x03, 0x02, 0x01]);
}

#[test]
fn exact_bytes_of_idle() {
    assert_eq!(encode(&Message::Idle), vec![0]);
}

#[test]
fn exact_bytes_of_input() {
    let bytes = encode(&Message::Input { frame: 3, input: sample_input() });
    assert_eq!(bytes, vec![5, 3, 0, 0, 0, 0, 0, 0, 0, 1, 0, 1, 0, 1, 0]);
}

#[test]
fn decode_rejects_empty() {
    assert_eq!(decode(&[]), None);
}

#[test]
fn decode_rejects_unknown_tag() {
    assert_eq!(decode(&[7]), None);
    assert_eq!(decode(&[255]), None);
}

#[test]
fn decode_rejects_wrong_length() {
    assert_eq!(decode(&[0, 0]), None);
    assert_eq!(decode(&[6, 1, 2, 3]), None);
    assert_eq!(decode(&[5, 3, 0, 0, 0, 0, 0, 0, 0, 1, 0, 1, 0, 1]), None);
    assert_eq!(decode(&[5, 3, 0, 0, 0, 0, 0, 0, 0, 1, 0, 1, 0, 1, 0, 0]), None);
}

#[test]
fn decode_rejects_bad_flag_byte() {
    let mut bytes = encode(&Message::Input { frame: 3, input: sample_input() });
    bytes[9] = 2;
    assert_eq!(decode(&bytes), None);
}
