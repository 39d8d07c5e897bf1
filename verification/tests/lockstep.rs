use fishnet::input::Input;
use fishnet::network::Network;
use fishnet::network::CONSTANT_DELAY;
use fishnet::wire::Message;

fn marked(tick: u64) -> Input {
    Input {
        left: tick % 2 == 0,
        right: tick % 2 == 1,
        down: tick % 3 == 0,
        jump: false,
        throw: false,
        fire: false,
    }
}

#[test]
fn fresh_synchronizer_is_prefilled() {
    let n = Network::new(0);
    assert_eq!(n.frame_cursor(), CONSTANT_DELAY as u64);
    assert_eq!(n.timeline_len(), CONSTANT_DELAY);
    for t in 0..CONSTANT_DELAY {
        assert_eq!(n.input_at(t, 0), Some(Input::default()));
        assert_eq!(n.input_at(t, 1), None);
        assert!(!n.is_acked(t));
    }
}

#[test]
fn stalls_without_remote_input() {
    // the delivery-gate invariant observed from outside: with only local
    // inputs the cursor never moves past the pre-filled warm-up
    let mut n = Network::new(0);
    for tick in 0..20u64 {
        let out = n.fixed_update(marked(tick), &vec![]);
        assert!(out.delivered.is_none());
        assert_eq!(n.frame_cursor(), CONSTANT_DELAY as u64);
    }
}

#[test]
fn advances_once_remote_inputs_arrive() {
    let mut n = Network::new(0);
    let remote: Vec<Message> =
        (0..CONSTANT_DELAY as u64).map(|t| Message::Input { frame: t, input: marked(t) }).collect();
    let out = n.fixed_update(marked(8), &remote);
    assert!(out.delivered.is_some());
    assert_eq!(out.delivered, Some((Input::default(), marked(0))));
    assert_eq!(n.frame_cursor(), CONSTANT_DELAY as u64 + 1);
}

#[test]
fn write_once_keeps_first_value() {
    // feeding duplicate inputs for the same tick must not mutate the
    // slot after the first write
    let mut n = Network::new(0);
    let first = marked(3);
    let second = Input { left: !first.left, ..first };
    assert_ne!(first, second);
    n.fixed_update(marked(8), &vec![Message::Input { frame: 3, input: first }]);
    assert_eq!(n.input_at(3, 1), Some(first));
    n.fixed_update(marked(9), &vec![Message::Input { frame: 3, input: second }]);
    assert_eq!(n.input_at(3, 1), Some(first));
}

#[test]
fn duplicate_input_is_still_acknowledged() {
    let mut n = Network::new(0);
    let out = n.fixed_update(marked(8), &vec![Message::Input { frame: 3, input: marked(3) }]);
    assert!(out.outgoing.contains(&Message::Ack { frame: 3 }));
    let out = n.fixed_update(marked(9), &vec![Message::Input { frame: 3, input: marked(3) }]);
    assert!(out.outgoing.contains(&Message::Ack { frame: 3 }));
}

#[test]
fn ack_is_idempotent() {
    // re-delivering an acknowledgement leaves the table entry true
    let mut n = Network::new(0);
    n.fixed_update(marked(8), &vec![Message::Ack { frame: 2 }]);
    assert!(n.is_acked(2));
    n.fixed_update(marked(9), &vec![Message::Ack { frame: 2 }]);
    assert!(n.is_acked(2));
}

#[test]
fn ack_for_unknown_tick_is_dropped() {
    let mut n = Network::new(0);
    let len_before = n.timeline_len();
    n.fixed_update(marked(8), &vec![Message::Ack { frame: 1000 }]);
    assert_eq!(n.timeline_len(), len_before);
    for t in 0..len_before {
        assert!(!n.is_acked(t));
    }
}

#[test]
fn grows_timeline_for_future_input() {
    // an input for tick 50 arriving before the timeline has grown that
    // far must extend it to exactly 51 entries, the gap unpopulated and
    // unacknowledged
    let mut n = Network::new(0);
    let out = n.fixed_update(marked(8), &vec![Message::Input { frame: 50, input: marked(50) }]);
    assert_eq!(n.timeline_len(), 51);
    assert!(out.outgoing.contains(&Message::Ack { frame: 50 }));
    assert_eq!(n.input_at(50, 1), Some(marked(50)));
    for t in CONSTANT_DELAY..50 {
        assert_eq!(n.input_at(t, 0), None);
        assert_eq!(n.input_at(t, 1), None);
        assert!(!n.is_acked(t));
    }
}

#[test]
fn retransmits_only_inside_window() {
    // let the cursor advance well past two windows with nothing ever
    // acknowledged, then check the re-sent traffic stops at the bound
    let mut n = Network::new(0);
    let mut tick: u64 = CONSTANT_DELAY as u64;
    while n.frame_cursor() < 24 {
        let gate = n.frame_cursor() - CONSTANT_DELAY as u64;
        let out = n.fixed_update(
            marked(tick),
            &vec![Message::Input { frame: gate, input: marked(gate) }],
        );
        assert!(out.delivered.is_some());
        tick += 1;
    }
    let out = n.fixed_update(marked(tick), &vec![]);
    let cursor = n.frame_cursor();
    assert_eq!(cursor, 24);
    let low = cursor - 2 * CONSTANT_DELAY as u64;
    let mut resent = Vec::new();
    for m in &out.outgoing {
        match m {
            Message::Input { frame, .. } => {
                assert!(*frame >= low && *frame < cursor);
                resent.push(*frame);
            }
            other => panic!("unexpected outgoing message {:?}", other),
        }
    }
    // every unacknowledged tick of the window is re-sent, oldest first
    let expected: Vec<u64> = (low..cursor).collect();
    assert_eq!(resent, expected);
}

#[test]
fn acknowledged_ticks_are_not_retransmitted() {
    let mut n = Network::new(0);
    n.fixed_update(marked(8), &vec![Message::Ack { frame: 2 }, Message::Ack { frame: 5 }]);
    let out = n.fixed_update(marked(9), &vec![]);
    let resent: Vec<u64> = out
        .outgoing
        .iter()
        .filter_map(|m| match m {
            Message::Input { frame, .. } => Some(*frame),
            _ => None,
        })
        .collect();
    assert_eq!(resent, vec![0, 1, 3, 4, 6, 7]);
}

#[test]
fn two_peers_stay_in_lockstep() {
    // two synchronizers over a lossless transport: after 20 rounds both
    // have delivered the same pairs in the same order
    let mut a = Network::new(0);
    let mut b = Network::new(1);
    let mut to_a: Vec<Message> = vec![];
    let mut to_b: Vec<Message> = vec![];
    let mut delivered_a: Vec<(Input, Input)> = vec![];
    let mut delivered_b: Vec<(Input, Input)> = vec![];
    for round in 0..20u64 {
        let input_a = marked(round);
        let input_b = marked(round + 100);
        let out_a = a.fixed_update(input_a, &to_a);
        let out_b = b.fixed_update(input_b, &to_b);
        to_b = out_a.outgoing;
        to_a = out_b.outgoing;
        if let Some(pair) = out_a.delivered {
            delivered_a.push(pair);
        }
        if let Some(pair) = out_b.delivered {
            delivered_b.push(pair);
        }
    }
    assert_eq!(a.frame_cursor(), b.frame_cursor());
    let common = delivered_a.len().min(delivered_b.len());
    assert!(common >= 20 - CONSTANT_DELAY);
    assert_eq!(delivered_a[..common], delivered_b[..common]);
    // the warm-up pairs are the neutral input on both sides
    assert_eq!(delivered_a[0], (Input::default(), Input::default()));
}
