use fishnet::session::participant_index;
use fishnet::session::ErrorKind;
use fishnet::session::LobbyId;
use fishnet::session::ServicePoll;
use fishnet::session::SessionAction;
use fishnet::session::SessionMachine;
use fishnet::session::SessionState;
use fishnet::session::SteamId;

fn quiet_poll() -> ServicePoll {
    ServicePoll {
        lobby_list: None,
        lobby_result: None,
        peer_entered: None,
        members: vec![],
        packet_available: false,
    }
}

#[test]
fn construction_requests_the_lobby_list() {
    let (machine, actions) = SessionMachine::new(SteamId(11));
    assert_eq!(machine.status(), SessionState::DiscoveringLobbies);
    assert_eq!(machine.opponent_id(), None);
    assert_eq!(actions, vec![SessionAction::RequestLobbyList]);
}

#[test]
fn waits_while_mailboxes_are_empty() {
    let (mut machine, _) = SessionMachine::new(SteamId(11));
    let actions = machine.step(&quiet_poll());
    assert_eq!(machine.status(), SessionState::DiscoveringLobbies);
    assert!(actions.is_empty());
}

#[test]
fn empty_lobby_list_creates_a_lobby_and_failed_create_is_terminal() {
    // scenario: nothing to join, so create; the create callback fails
    let (mut machine, _) = SessionMachine::new(SteamId(11));
    let mut poll = quiet_poll();
    poll.lobby_list = Some(Ok(vec![]));
    let actions = machine.step(&poll);
    assert_eq!(machine.status(), SessionState::CreatingLobby);
    assert_eq!(actions, vec![SessionAction::CreateLobby]);

    let mut poll = quiet_poll();
    poll.lobby_result = Some(Err(()));
    let actions = machine.step(&poll);
    assert_eq!(machine.status(), SessionState::Failed(ErrorKind::CreateLobbyFailed));
    assert!(actions.is_empty());

    // terminal: further polls change nothing
    let actions = machine.step(&quiet_poll());
    assert_eq!(machine.status(), SessionState::Failed(ErrorKind::CreateLobbyFailed));
    assert!(actions.is_empty());
}

#[test]
fn service_error_fails_discovery() {
    let (mut machine, _) = SessionMachine::new(SteamId(11));
    let mut poll = quiet_poll();
    poll.lobby_list = Some(Err(()));
    machine.step(&poll);
    assert_eq!(machine.status(), SessionState::Failed(ErrorKind::ServiceError));
}

#[test]
fn first_listed_lobby_is_joined() {
    let (mut machine, _) = SessionMachine::new(SteamId(11));
    let mut poll = quiet_poll();
    poll.lobby_list = Some(Ok(vec![LobbyId(7), LobbyId(9)]));
    let actions = machine.step(&poll);
    assert_eq!(machine.status(), SessionState::JoiningLobby);
    assert_eq!(actions, vec![SessionAction::JoinLobby(LobbyId(7))]);
}

fn joining_machine() -> SessionMachine {
    let (mut machine, _) = SessionMachine::new(SteamId(11));
    let mut poll = quiet_poll();
    poll.lobby_list = Some(Ok(vec![LobbyId(7)]));
    machine.step(&poll);
    assert_eq!(machine.status(), SessionState::JoiningLobby);
    machine
}

#[test]
fn lobby_with_three_members_is_wrong() {
    // scenario: the joined lobby reports three members
    let mut machine = joining_machine();
    let mut poll = quiet_poll();
    poll.lobby_result = Some(Ok(LobbyId(7)));
    poll.members = vec![SteamId(11), SteamId(22), SteamId(33)];
    let actions = machine.step(&poll);
    assert_eq!(machine.status(), SessionState::Failed(ErrorKind::WrongLobby));
    assert!(actions.is_empty());
}

#[test]
fn failed_join_is_wrong_lobby() {
    let mut machine = joining_machine();
    let mut poll = quiet_poll();
    poll.lobby_result = Some(Err(()));
    machine.step(&poll);
    assert_eq!(machine.status(), SessionState::Failed(ErrorKind::WrongLobby));
}

#[test]
fn lobby_without_another_member_has_no_opponent() {
    let mut machine = joining_machine();
    let mut poll = quiet_poll();
    poll.lobby_result = Some(Ok(LobbyId(7)));
    poll.members = vec![SteamId(11), SteamId(11)];
    machine.step(&poll);
    assert_eq!(machine.status(), SessionState::Failed(ErrorKind::NoOpponent));
}

#[test]
fn join_resolves_the_member_that_is_not_us() {
    let mut machine = joining_machine();
    let mut poll = quiet_poll();
    poll.lobby_result = Some(Ok(LobbyId(7)));
    poll.members = vec![SteamId(11), SteamId(22)];
    machine.step(&poll);
    assert_eq!(machine.status(), SessionState::ProbingLink);
    assert_eq!(machine.opponent_id(), Some(SteamId(22)));
}

#[test]
fn created_lobby_waits_for_a_peer_then_probes() {
    let (mut machine, _) = SessionMachine::new(SteamId(11));
    let mut poll = quiet_poll();
    poll.lobby_list = Some(Ok(vec![]));
    machine.step(&poll);

    let mut poll = quiet_poll();
    poll.lobby_result = Some(Ok(LobbyId(5)));
    let actions = machine.step(&poll);
    assert_eq!(machine.status(), SessionState::AwaitingPeer(LobbyId(5)));
    assert!(actions.is_empty());

    // nobody has entered yet
    machine.step(&quiet_poll());
    assert_eq!(machine.status(), SessionState::AwaitingPeer(LobbyId(5)));

    let mut poll = quiet_poll();
    poll.peer_entered = Some(SteamId(44));
    machine.step(&poll);
    assert_eq!(machine.status(), SessionState::ProbingLink);
    assert_eq!(machine.opponent_id(), Some(SteamId(44)));

    // probing sends one probe per tick until anything is receivable,
    // including on the tick the link comes alive
    let actions = machine.step(&quiet_poll());
    assert_eq!(machine.status(), SessionState::ProbingLink);
    assert_eq!(actions, vec![SessionAction::SendProbe(SteamId(44))]);

    let mut poll = quiet_poll();
    poll.packet_available = true;
    let actions = machine.step(&poll);
    assert_eq!(machine.status(), SessionState::Ready);
    assert_eq!(actions, vec![SessionAction::SendProbe(SteamId(44))]);

    // terminal: nothing more is issued
    let actions = machine.step(&quiet_poll());
    assert_eq!(machine.status(), SessionState::Ready);
    assert!(actions.is_empty());
}

#[test]
fn participant_indices_are_opposite_and_deterministic() {
    assert_eq!(participant_index(SteamId(9), SteamId(4)), 0);
    assert_eq!(participant_index(SteamId(4), SteamId(9)), 1);
    assert_eq!(participant_index(SteamId(4), SteamId(4)), 1);
}
