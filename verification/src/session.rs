//! Session-establishment state machine.
//!
//! Turns "I want to play online" into "I have exactly one opponent",
//! driving an external matchmaking service's asynchronous
//! request/callback interface: discover lobbies, create one or join the
//! first listed, resolve the opponent, probe the link, and end `Ready`
//! or `Failed`. The machine itself is pure: once per tick the caller
//! snapshots the service's mailboxes into a [`ServicePoll`], calls
//! [`SessionMachine::step`] and performs the returned actions, so every
//! transition is decided here and nothing ever blocks on the service.

use vstd::prelude::*;

verus! {

/// Opaque 64-bit identifier for a participant, unique per matchmaking
/// session.
#[derive(Clone, Copy, PartialEq, Eq, Structural, Debug)]
pub struct SteamId(pub u64);

/// Opaque 64-bit identifier for a matchmaking grouping of exactly two
/// peers; its lifecycle is owned by the external service.
#[derive(Clone, Copy, PartialEq, Eq, Structural, Debug)]
pub struct LobbyId(pub u64);

/// Why establishment failed. None of these are retried internally: the
/// caller may discard the machine and start over.
#[derive(Clone, Copy, PartialEq, Eq, Structural, Debug)]
pub enum ErrorKind {
    /// Opaque failure reported by the matchmaking service itself.
    ServiceError,
    /// The joined lobby did not hold exactly two members.
    WrongLobby,
    /// The lobby had members but none other than ourselves.
    NoOpponent,
    /// The service reported that creating a lobby failed.
    CreateLobbyFailed,
}

/// Where establishment stands. Exactly one instance per session,
/// mutated only by [`SessionMachine::step`].
#[derive(Clone, Copy, PartialEq, Eq, Structural, Debug)]
pub enum SessionState {
    /// Initial: a lobby-list request is in flight.
    DiscoveringLobbies,
    /// The list was empty; a create-lobby request is in flight.
    CreatingLobby,
    /// Our lobby exists; waiting for a peer to enter it.
    AwaitingPeer(LobbyId),
    /// A join request for the first listed lobby is in flight.
    JoiningLobby,
    /// Opponent known; probing the link until anything arrives.
    ProbingLink,
    /// Terminal success: opponent resolved and link alive.
    Ready,
    /// Terminal failure.
    Failed(ErrorKind),
}

/// A snapshot of the service's mailboxes, taken once per tick. Each
/// callback writes its latest value into a cell; the machine only ever
/// reads this snapshot, never the service.
pub struct ServicePoll {
    /// Result of the lobby-list request, once its callback has fired.
    pub lobby_list: Option<Result<Vec<LobbyId>, ()>>,
    /// Result of the create or join request, once its callback has
    /// fired.
    pub lobby_result: Option<Result<LobbyId, ()>>,
    /// A peer observed entering our lobby by the membership-change
    /// callback.
    pub peer_entered: Option<SteamId>,
    /// The joined lobby's membership, queried when the join succeeded.
    pub members: Vec<SteamId>,
    /// Whether anything is receivable from the peer-addressed
    /// transport.
    pub packet_available: bool,
}

/// An asynchronous request or send for the caller to perform. Each
/// request is issued exactly once, at the transition that wants it.
#[derive(Clone, Copy, PartialEq, Eq, Structural, Debug)]
pub enum SessionAction {
    /// Ask the service for the list of open lobbies.
    RequestLobbyList,
    /// Ask the service to create a lobby of capacity 2.
    CreateLobby,
    /// Ask the service to join the given lobby.
    JoinLobby(LobbyId),
    /// Send one `Idle` probe datagram to the opponent.
    SendProbe(SteamId),
}

/// The first listed member that is not ourselves, if any.
pub open spec fn spec_first_non_self(members: Seq<SteamId>, me: SteamId) -> Option<SteamId>
    decreases members.len(),
{
    if members.len() == 0 {
        None
    } else if members[0] != me {
        Some(members[0])
    } else {
        spec_first_non_self(members.subrange(1, members.len() as int), me)
    }
}

/// The session-establishment state machine.
pub struct SessionMachine {
    pub state: SessionState,
    pub self_id: SteamId,
    pub opponent: Option<SteamId>,
}

impl SessionMachine {
    /// The opponent is known exactly from the moment the link is being
    /// probed: earlier states have none yet, and the terminal states
    /// keep what they had when they were entered.
    pub open spec fn wf(self) -> bool {
        self.opponent is Some <==> (self.state is ProbingLink || self.state is Ready)
    }

    /// A fresh machine in `DiscoveringLobbies`, together with the one
    /// lobby-list request to issue on construction.
    pub fn new(self_id: SteamId) -> (r: (SessionMachine, Vec<SessionAction>))
        ensures
            r.0.wf(),
            r.0.state == SessionState::DiscoveringLobbies,
            r.0.self_id == self_id,
            r.0.opponent is None,
            r.1@ == seq![SessionAction::RequestLobbyList],
    {
        let machine = SessionMachine {
            state: SessionState::DiscoveringLobbies,
            self_id,
            opponent: None,
        };
        let mut actions: Vec<SessionAction> = Vec::new();
        actions.push(SessionAction::RequestLobbyList);
        proof {
            assert(actions@ =~= seq![SessionAction::RequestLobbyList]);
        }
        (machine, actions)
    }

    /// One tick of the state machine, against one mailbox snapshot. The
    /// contract pins every transition:
    /// - `DiscoveringLobbies`: no list yet, wait; a service error fails;
    ///   an empty list issues a create and moves to `CreatingLobby`; a
    ///   non-empty list issues a join of the first entry and moves to
    ///   `JoiningLobby` — lobbies are never ranked.
    /// - `CreatingLobby`: no callback yet, wait; a failure is
    ///   `Failed(CreateLobbyFailed)`; success is `AwaitingPeer(lobby)`.
    /// - `AwaitingPeer`: wait until a peer enters, then record it as the
    ///   opponent and move to `ProbingLink`.
    /// - `JoiningLobby`: no callback yet, wait; a failure is
    ///   `Failed(WrongLobby)`; on success the membership must be exactly
    ///   two, else `Failed(WrongLobby)`; the member that is not us is
    ///   the opponent, and if there is none, `Failed(NoOpponent)`.
    /// - `ProbingLink`: send one probe every tick; as soon as anything
    ///   is receivable, `Ready` (the probe is still sent that tick).
    /// - `Ready` and `Failed` are terminal: nothing changes, nothing is
    ///   issued.
    pub fn step(&mut self, poll: &ServicePoll) -> (actions: Vec<SessionAction>)
        requires
            old(self).wf(),
        ensures
            final(self).wf(),
            final(self).self_id == old(self).self_id,
            old(self).opponent is Some ==> final(self).opponent == old(self).opponent,
            match old(self).state {
                SessionState::DiscoveringLobbies => match poll.lobby_list {
                    None => {
                        &&& final(self).state == SessionState::DiscoveringLobbies
                        &&& final(self).opponent == old(self).opponent
                        &&& actions@ == Seq::<SessionAction>::empty()
                    },
                    Some(Err(_)) => {
                        &&& final(self).state == SessionState::Failed(ErrorKind::ServiceError)
                        &&& actions@ == Seq::<SessionAction>::empty()
                    },
                    Some(Ok(list)) => if list@.len() == 0 {
                        &&& final(self).state == SessionState::CreatingLobby
                        &&& actions@ == seq![SessionAction::CreateLobby]
                    } else {
                        &&& final(self).state == SessionState::JoiningLobby
                        &&& actions@ == seq![SessionAction::JoinLobby(list@[0])]
                    },
                },
                SessionState::CreatingLobby => match poll.lobby_result {
                    None => {
                        &&& final(self).state == SessionState::CreatingLobby
                        &&& actions@ == Seq::<SessionAction>::empty()
                    },
                    Some(Err(_)) => {
                        &&& final(self).state == SessionState::Failed(ErrorKind::CreateLobbyFailed)
                        &&& actions@ == Seq::<SessionAction>::empty()
                    },
                    Some(Ok(lobby)) => {
                        &&& final(self).state == SessionState::AwaitingPeer(lobby)
                        &&& actions@ == Seq::<SessionAction>::empty()
                    },
                },
                SessionState::AwaitingPeer(_) => match poll.peer_entered {
                    None => {
                        &&& final(self).state == old(self).state
                        &&& final(self).opponent == old(self).opponent
                        &&& actions@ == Seq::<SessionAction>::empty()
                    },
                    Some(peer) => {
                        &&& final(self).state == SessionState::ProbingLink
                        &&& final(self).opponent == Some(peer)
                        &&& actions@ == Seq::<SessionAction>::empty()
                    },
                },
                SessionState::JoiningLobby => match poll.lobby_result {
                    None => {
                        &&& final(self).state == SessionState::JoiningLobby
                        &&& actions@ == Seq::<SessionAction>::empty()
                    },
                    Some(Err(_)) => {
                        &&& final(self).state == SessionState::Failed(ErrorKind::WrongLobby)
                        &&& actions@ == Seq::<SessionAction>::empty()
                    },
                    Some(Ok(_)) => {
                        &&& actions@ == Seq::<SessionAction>::empty()
                        &&& if poll.members@.len() != 2 {
                            final(self).state == SessionState::Failed(ErrorKind::WrongLobby)
                        } else {
                            match spec_first_non_self(poll.members@, old(self).self_id) {
                                None => final(self).state == SessionState::Failed(
                                    ErrorKind::NoOpponent,
                                ),
                                Some(op) => final(self).state == SessionState::ProbingLink
                                    && final(self).opponent == Some(op),
                            }
                        }
                    },
                },
                SessionState::ProbingLink => {
                    &&& final(self).opponent == old(self).opponent
                    &&& (old(self).opponent matches Some(op) ==> actions@ == seq![
                        SessionAction::SendProbe(op),
                    ])
                    &&& final(self).state == (if poll.packet_available {
                        SessionState::Ready
                    } else {
                        SessionState::ProbingLink
                    })
                },
                SessionState::Ready => {
                    &&& final(self).state == old(self).state
                    &&& final(self).opponent == old(self).opponent
                    &&& actions@ == Seq::<SessionAction>::empty()
                },
                SessionState::Failed(_) => {
                    &&& final(self).state == old(self).state
                    &&& final(self).opponent == old(self).opponent
                    &&& actions@ == Seq::<SessionAction>::empty()
                },
            },
    {
        let mut actions: Vec<SessionAction> = Vec::new();
        match self.state {
            SessionState::DiscoveringLobbies => {
                match &poll.lobby_list {
                    None => {}
                    Some(Err(_)) => {
                        self.state = SessionState::Failed(ErrorKind::ServiceError);
                    }
                    Some(Ok(list)) => {
                        if list.len() == 0 {
                            self.state = SessionState::CreatingLobby;
                            actions.push(SessionAction::CreateLobby);
                            proof {
                                assert(actions@ =~= seq![SessionAction::CreateLobby]);
                            }
                        } else {
                            self.state = SessionState::JoiningLobby;
                            actions.push(SessionAction::JoinLobby(list[0]));
                            proof {
                                assert(actions@ =~= seq![SessionAction::JoinLobby(list@[0])]);
                            }
                        }
                    }
                }
            }
            SessionState::CreatingLobby => {
                match &poll.lobby_result {
                    None => {}
                    Some(Err(_)) => {
                        self.state = SessionState::Failed(ErrorKind::CreateLobbyFailed);
                    }
                    Some(Ok(lobby)) => {
                        self.state = SessionState::AwaitingPeer(*lobby);
                    }
                }
            }
            SessionState::AwaitingPeer(_) => {
                match &poll.peer_entered {
                    None => {}
                    Some(peer) => {
                        self.opponent = Some(*peer);
                        self.state = SessionState::ProbingLink;
                    }
                }
            }
            SessionState::JoiningLobby => {
                match &poll.lobby_result {
                    None => {}
                    Some(Err(_)) => {
                        self.state = SessionState::Failed(ErrorKind::WrongLobby);
                    }
                    Some(Ok(_)) => {
                        if poll.members.len() != 2 {
                            self.state = SessionState::Failed(ErrorKind::WrongLobby);
                        } else {
                            match first_non_self(&poll.members, self.self_id) {
                                None => {
                                    self.state = SessionState::Failed(ErrorKind::NoOpponent);
                                }
                                Some(op) => {
                                    self.opponent = Some(op);
                                    self.state = SessionState::ProbingLink;
                                }
                            }
                        }
                    }
                }
            }
            SessionState::ProbingLink => {
                match self.opponent {
                    Some(op) => {
                        actions.push(SessionAction::SendProbe(op));
                        proof {
                            assert(actions@ =~= seq![SessionAction::SendProbe(op)]);
                        }
                    }
                    None => {}
                }
                if poll.packet_available {
                    self.state = SessionState::Ready;
                }
            }
            SessionState::Ready => {}
            SessionState::Failed(_) => {}
        }
        actions
    }

    /// Where establishment stands, read by the caller each tick.
    pub fn status(&self) -> (r: SessionState)
        ensures
            r == self.state,
    {
        self.state
    }

    /// This peer's own identifier.
    pub fn self_id(&self) -> (r: SteamId)
        ensures
            r == self.self_id,
    {
        self.self_id
    }

    /// The resolved opponent, once the machine has reached
    /// `ProbingLink` or `Ready`.
    pub fn opponent_id(&self) -> (r: Option<SteamId>)
        ensures
            r == self.opponent,
    {
        self.opponent
    }
}

/// The first member of the list that is not ourselves, if any.
fn first_non_self(members: &Vec<SteamId>, me: SteamId) -> (r: Option<SteamId>)
    ensures
        r == spec_first_non_self(members@, me),
{
    proof {
        assert(members@.subrange(0, members@.len() as int) =~= members@);
    }
    let mut i: usize = 0;
    while i < members.len()
        invariant
            i <= members@.len(),
            spec_first_non_self(members@, me) == spec_first_non_self(
                members@.subrange(i as int, members@.len() as int),
                me,
            ),
        decreases members@.len() - i,
    {
        let candidate = members[i];
        proof {
            let suffix = members@.subrange(i as int, members@.len() as int);
            assert(suffix[0] == members@[i as int]);
            assert(suffix.subrange(1, suffix.len() as int) =~= members@.subrange(
                i as int + 1,
                members@.len() as int,
            ));
        }
        if candidate.0 != me.0 {
            return Some(candidate);
        }
        i = i + 1;
    }
    proof {
        assert(members@.subrange(members@.len() as int, members@.len() as int) =~= Seq::<
            SteamId,
        >::empty());
    }
    None
}

/// The deterministic participant index a ready session uses: the peer
/// with the larger identifier is participant 0, the other participant
/// 1. Both peers compute the same pair of indices from the same two
/// identifiers.
pub fn participant_index(self_id: SteamId, opponent_id: SteamId) -> (r: usize)
    ensures
        r == (if self_id.0 > opponent_id.0 {
            0usize
        } else {
            1usize
        }),
{
    if self_id.0 > opponent_id.0 {
        0
    } else {
        1
    }
}

} // verus!
