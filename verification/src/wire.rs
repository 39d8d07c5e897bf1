//! Protocol messages and their binary wire format.
//!
//! Every message is encoded as one tag byte followed by its payload
//! fields in declaration order, integers little-endian, flags one byte
//! each. Decoding is strict: a wrong tag, a wrong length or a flag byte
//! other than 0 or 1 is rejected, and `decode(encode(m)) == Some(m)` for
//! every message.

use vstd::prelude::*;
use vstd::bytes::lemma_auto_spec_u64_to_from_le_bytes;
use vstd::bytes::spec_u64_from_le_bytes;
use vstd::bytes::spec_u64_to_le_bytes;
use vstd::bytes::u64_from_le_bytes;
use vstd::bytes::u64_to_le_bytes;
use vstd::slice::slice_index_get;
use vstd::slice::slice_subrange;

use crate::input::Input;

verus! {

pub const TAG_IDLE: u8 = 0;

pub const TAG_RELAY_REQUEST_ID: u8 = 1;

pub const TAG_RELAY_ID_ASSIGNED: u8 = 2;

pub const TAG_RELAY_CONNECT_TO: u8 = 3;

pub const TAG_RELAY_CONNECTED: u8 = 4;

pub const TAG_INPUT: u8 = 5;

pub const TAG_ACK: u8 = 6;

/// Everything two peers say to each other. `Idle` carries no payload and
/// only probes link liveness; the `Relay*` messages drive an optional
/// relay handshake; `Input` and `Ack` carry the lockstep protocol.
#[derive(Clone, Copy, PartialEq, Eq, Structural, Debug)]
pub enum Message {
    /// Empty message, used for connection test.
    Idle,
    RelayRequestId,
    RelayIdAssigned(u64),
    RelayConnectTo(u64),
    RelayConnected,
    Input { frame: u64, input: Input },
    Ack { frame: u64 },
}

/// One byte per flag: 1 for set, 0 for clear.
pub open spec fn flag_byte(b: bool) -> u8 {
    if b {
        1
    } else {
        0
    }
}

/// The six flag bytes of an input sample, in field declaration order.
pub open spec fn spec_input_bytes(i: Input) -> Seq<u8> {
    seq![
        flag_byte(i.left),
        flag_byte(i.right),
        flag_byte(i.down),
        flag_byte(i.jump),
        flag_byte(i.throw),
        flag_byte(i.fire),
    ]
}

/// Strict inverse of `spec_input_bytes`: any byte other than 0 or 1 is
/// malformed.
pub open spec fn spec_input_from_bytes(s: Seq<u8>) -> Option<Input>
    recommends
        s.len() == 6,
{
    if s[0] <= 1 && s[1] <= 1 && s[2] <= 1 && s[3] <= 1 && s[4] <= 1 && s[5] <= 1 {
        Some(
            Input {
                left: s[0] == 1,
                right: s[1] == 1,
                down: s[2] == 1,
                jump: s[3] == 1,
                throw: s[4] == 1,
                fire: s[5] == 1,
            },
        )
    } else {
        None
    }
}

/// The wire bytes of a message: tag byte, then the payload fields in
/// declaration order, `u64` little-endian.
pub open spec fn spec_encode(m: Message) -> Seq<u8> {
    match m {
        Message::Idle => seq![TAG_IDLE],
        Message::RelayRequestId => seq![TAG_RELAY_REQUEST_ID],
        Message::RelayIdAssigned(id) => seq![TAG_RELAY_ID_ASSIGNED] + spec_u64_to_le_bytes(id),
        Message::RelayConnectTo(id) => seq![TAG_RELAY_CONNECT_TO] + spec_u64_to_le_bytes(id),
        Message::RelayConnected => seq![TAG_RELAY_CONNECTED],
        Message::Input { frame, input } => seq![TAG_INPUT] + spec_u64_to_le_bytes(frame)
            + spec_input_bytes(input),
        Message::Ack { frame } => seq![TAG_ACK] + spec_u64_to_le_bytes(frame),
    }
}

/// Strict decoding: the tag must be known and the length exactly that of
/// the tagged variant, else the bytes are malformed and rejected.
pub open spec fn spec_decode(s: Seq<u8>) -> Option<Message> {
    if s.len() < 1 {
        None
    } else if s[0] == TAG_IDLE {
        if s.len() == 1 {
            Some(Message::Idle)
        } else {
            None
        }
    } else if s[0] == TAG_RELAY_REQUEST_ID {
        if s.len() == 1 {
            Some(Message::RelayRequestId)
        } else {
            None
        }
    } else if s[0] == TAG_RELAY_ID_ASSIGNED {
        if s.len() == 9 {
            Some(Message::RelayIdAssigned(spec_u64_from_le_bytes(s.subrange(1, 9))))
        } else {
            None
        }
    } else if s[0] == TAG_RELAY_CONNECT_TO {
        if s.len() == 9 {
            Some(Message::RelayConnectTo(spec_u64_from_le_bytes(s.subrange(1, 9))))
        } else {
            None
        }
    } else if s[0] == TAG_RELAY_CONNECTED {
        if s.len() == 1 {
            Some(Message::RelayConnected)
        } else {
            None
        }
    } else if s[0] == TAG_INPUT {
        if s.len() == 15 {
            match spec_input_from_bytes(s.subrange(9, 15)) {
                Some(input) => Some(
                    Message::Input { frame: spec_u64_from_le_bytes(s.subrange(1, 9)), input },
                ),
                None => None,
            }
        } else {
            None
        }
    } else if s[0] == TAG_ACK {
        if s.len() == 9 {
            Some(Message::Ack { frame: spec_u64_from_le_bytes(s.subrange(1, 9)) })
        } else {
            None
        }
    } else {
        None
    }
}

/// Round trip: decoding what was encoded gives the message back, for
/// every variant, including the payload-free ones.
pub proof fn lemma_round_trip(m: Message)
    ensures
        spec_decode(spec_encode(m)) == Some(m),
{
    lemma_auto_spec_u64_to_from_le_bytes();
    let e = spec_encode(m);
    match m {
        Message::Idle => {}
        Message::RelayRequestId => {}
        Message::RelayIdAssigned(id) => {
            assert(e.subrange(1, 9) =~= spec_u64_to_le_bytes(id));
        }
        Message::RelayConnectTo(id) => {
            assert(e.subrange(1, 9) =~= spec_u64_to_le_bytes(id));
        }
        Message::RelayConnected => {}
        Message::Input { frame, input } => {
            assert(e.subrange(1, 9) =~= spec_u64_to_le_bytes(frame));
            assert(e.subrange(9, 15) =~= spec_input_bytes(input));
        }
        Message::Ack { frame } => {
            assert(e.subrange(1, 9) =~= spec_u64_to_le_bytes(frame));
        }
    }
}

fn push_flag(r: &mut Vec<u8>, b: bool)
    ensures
        final(r)@ == old(r)@.push(flag_byte(b)),
{
    if b {
        r.push(1);
    } else {
        r.push(0);
    }
}

/// Encode a message for the wire.
pub fn encode(m: &Message) -> (r: Vec<u8>)
    ensures
        r@ == spec_encode(*m),
{
    let mut r: Vec<u8> = Vec::new();
    match m {
        Message::Idle => {
            r.push(TAG_IDLE);
            assert(r@ =~= spec_encode(*m));
        }
        Message::RelayRequestId => {
            r.push(TAG_RELAY_REQUEST_ID);
            assert(r@ =~= spec_encode(*m));
        }
        Message::RelayIdAssigned(id) => {
            r.push(TAG_RELAY_ID_ASSIGNED);
            let mut payload = u64_to_le_bytes(*id);
            r.append(&mut payload);
            assert(r@ =~= spec_encode(*m));
        }
        Message::RelayConnectTo(id) => {
            r.push(TAG_RELAY_CONNECT_TO);
            let mut payload = u64_to_le_bytes(*id);
            r.append(&mut payload);
            assert(r@ =~= spec_encode(*m));
        }
        Message::RelayConnected => {
            r.push(TAG_RELAY_CONNECTED);
            assert(r@ =~= spec_encode(*m));
        }
        Message::Input { frame, input } => {
            r.push(TAG_INPUT);
            let mut payload = u64_to_le_bytes(*frame);
            r.append(&mut payload);
            push_flag(&mut r, input.left);
            push_flag(&mut r, input.right);
            push_flag(&mut r, input.down);
            push_flag(&mut r, input.jump);
            push_flag(&mut r, input.throw);
            push_flag(&mut r, input.fire);
            assert(r@ =~= spec_encode(*m));
        }
        Message::Ack { frame } => {
            r.push(TAG_ACK);
            let mut payload = u64_to_le_bytes(*frame);
            r.append(&mut payload);
            assert(r@ =~= spec_encode(*m));
        }
    }
    r
}

fn decode_input_bytes(s: &[u8]) -> (r: Option<Input>)
    requires
        s@.len() == 6,
    ensures
        r == spec_input_from_bytes(s@),
{
    let b0 = *slice_index_get(s, 0);
    let b1 = *slice_index_get(s, 1);
    let b2 = *slice_index_get(s, 2);
    let b3 = *slice_index_get(s, 3);
    let b4 = *slice_index_get(s, 4);
    let b5 = *slice_index_get(s, 5);
    if b0 <= 1 && b1 <= 1 && b2 <= 1 && b3 <= 1 && b4 <= 1 && b5 <= 1 {
        Some(
            Input {
                left: b0 == 1,
                right: b1 == 1,
                down: b2 == 1,
                jump: b3 == 1,
                throw: b4 == 1,
                fire: b5 == 1,
            },
        )
    } else {
        None
    }
}

/// Decode one received datagram. Malformed bytes give `None` and are
/// dropped by the caller; the sender's retransmission window recovers
/// genuine loss.
pub fn decode(bytes: &[u8]) -> (r: Option<Message>)
    ensures
        r == spec_decode(bytes@),
{
    let n = bytes.len();
    if n == 0 {
        return None;
    }
    let tag = *slice_index_get(bytes, 0);
    if tag == TAG_IDLE {
        if n == 1 {
            Some(Message::Idle)
        } else {
            None
        }
    } else if tag == TAG_RELAY_REQUEST_ID {
        if n == 1 {
            Some(Message::RelayRequestId)
        } else {
            None
        }
    } else if tag == TAG_RELAY_ID_ASSIGNED {
        if n == 9 {
            Some(Message::RelayIdAssigned(u64_from_le_bytes(slice_subrange(bytes, 1, 9))))
        } else {
            None
        }
    } else if tag == TAG_RELAY_CONNECT_TO {
        if n == 9 {
            Some(Message::RelayConnectTo(u64_from_le_bytes(slice_subrange(bytes, 1, 9))))
        } else {
            None
        }
    } else if tag == TAG_RELAY_CONNECTED {
        if n == 1 {
            Some(Message::RelayConnected)
        } else {
            None
        }
    } else if tag == TAG_INPUT {
        if n == 15 {
            let frame = u64_from_le_bytes(slice_subrange(bytes, 1, 9));
            match decode_input_bytes(slice_subrange(bytes, 9, 15)) {
                Some(input) => Some(Message::Input { frame, input }),
                None => None,
            }
        } else {
            None
        }
    } else if tag == TAG_ACK {
        if n == 9 {
            Some(Message::Ack { frame: u64_from_le_bytes(slice_subrange(bytes, 1, 9)) })
        } else {
            None
        }
    } else {
        None
    }
}

} // verus!
