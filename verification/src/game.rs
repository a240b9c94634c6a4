use vstd::prelude::*;

use crate::interface::{
    msg_empty_command, msg_invalid_move, unknown_command_msg, ClientMessage, ClientMsg,
    ServerMessage, ServerMsg,
};
use crate::map::{cell, idx, in_grid, remove_first, GameMap, Tile};
use crate::pos::{Direction, Pos};

verus! {

/// The one in-flight consequence of the last accepted move command.
#[derive(Debug, Copy, Clone, PartialEq, Eq, Structural)]
pub enum Action {
    Nothing,
    PlayerMovement(Direction),
    DigWall(Pos),
}

/// The session lifecycle.  STOPPED and WON are terminal: no further client
/// command is accepted there.
#[derive(Debug, Copy, Clone, PartialEq, Eq, Structural)]
pub enum State {
    PLAYING,
    STOPPED,
    WON,
}

/// The number of ticks a pending action accumulates before its world
/// mutation is committed.
pub const ACTION_TICKS: u8 = 4;

/// The view of a buffered reply.
pub open spec fn resp_view(o: Option<ServerMessage>) -> Option<ServerMsg> {
    match o {
        Option::Some(m) => Option::Some(m@),
        Option::None => Option::None,
    }
}

/// Whether one step in direction `d` lands the player of `m` on a tile a
/// move may enter.
pub open spec fn movement_ok(m: GameMap, d: Direction) -> bool {
    let dest = m.player.spec_moved(d);
    &&& in_grid(dest.x as int, dest.y as int)
    &&& (cell(m.tiles@, dest.x as int, dest.y as int) == Tile::EMPTY || cell(
        m.tiles@,
        dest.x as int,
        dest.y as int,
    ) == Tile::EXIT)
}

/// The authoritative session state machine: it owns the world, consumes
/// ticks and client messages, and buffers at most one reply, which it
/// offers only while no action is pending.
pub struct Game {
    pub map: GameMap,
    pub diamonds_left: usize,
    pub progress: u8,
    pub timer_end: u8,
    pub response: Option<ServerMessage>,
    pub reaction: Action,
    pub state: State,
}

impl Game {
    /// The controller's invariant: a playing session owns a well-formed
    /// world, a pending action is committable as stored, terminal states
    /// hold no pending action, and the cached diamond count is the world's.
    pub open spec fn wf(self) -> bool {
        &&& self.state is PLAYING ==> self.map.wf()
        &&& (match self.reaction {
            Action::Nothing => true,
            Action::PlayerMovement(d) => self.map.wf() && movement_ok(self.map, d),
            Action::DigWall(p) => self.map.wf() && self.map.spec_tile_at(p) == Some(Tile::WALL),
        })
        &&& self.progress < ACTION_TICKS
        &&& self.reaction is Nothing ==> self.progress == 0
        &&& self.diamonds_left == self.map.diamonds@.len()
    }

    /// A dormant controller: no world, no session.
    pub fn new() -> (r: Self)
        ensures
            r.wf(),
            r.state is STOPPED,
            r.reaction is Nothing,
            r.response is None,
            r.map.tiles@.len() == 0,
            r.map.diamonds@.len() == 0,
            r.diamonds_left == 0,
            r.timer_end == 0,
            r.progress == 0,
    {
        Game {
            map: GameMap::empty(),
            diamonds_left: 0,
            progress: 0,
            timer_end: 0,
            response: None,
            reaction: Action::Nothing,
            state: State::STOPPED,
        }
    }

    /// Starts a session on a given well-formed world.
    pub fn install_map(&mut self, map: GameMap)
        requires
            map.wf(),
        ensures
            final(self).wf(),
            final(self).map == map,
            final(self).diamonds_left == map.diamonds@.len(),
            final(self).state is PLAYING,
            final(self).reaction is Nothing,
            final(self).response is None,
            final(self).progress == 0,
            final(self).timer_end == 6,
    {
        let diamonds_left = map.diamonds_count();
        self.map = map;
        self.diamonds_left = diamonds_left;
        self.progress = 0;
        self.timer_end = 6;
        self.response = None;
        self.reaction = Action::Nothing;
        self.state = State::PLAYING;
    }

    /// Starts a fresh session on the world generated from `seed`.
    pub fn reset(&mut self, seed: u32)
        ensures
            final(self).wf(),
            final(self).map.tiles@ == crate::gen::gen_result(seed).0,
            final(self).map.player == crate::gen::gen_result(seed).1,
            final(self).map.diamonds@ == crate::gen::gen_result(seed).2,
            final(self).diamonds_left == 10,
            final(self).state is PLAYING,
            final(self).reaction is Nothing,
            final(self).response is None,
            final(self).progress == 0,
            final(self).timer_end == 6,
    {
        let map = GameMap::generate(seed);
        self.install_map(map);
    }

    /// The local operator interrupts the session — the front end's escape
    /// key.  Any session not already won becomes Stopped; a pending action
    /// still runs to completion on the following ticks.
    pub fn interrupt(&mut self)
        requires
            old(self).wf(),
        ensures
            final(self).wf(),
            !(old(self).state is WON) ==> final(self).state is STOPPED,
            old(self).state is WON ==> final(self).state == old(self).state,
            final(self).map == old(self).map,
            final(self).reaction == old(self).reaction,
            final(self).response == old(self).response,
            final(self).progress == old(self).progress,
            final(self).timer_end == old(self).timer_end,
            final(self).diamonds_left == old(self).diamonds_left,
    {
        if !matches!(self.state, State::WON) {
            self.state = State::STOPPED;
        }
    }

    /// Consumes one tick.  Returns whether the controller is ready to
    /// consume a client message: an idle playing session is; a pending
    /// action instead accumulates progress and commits its world mutation
    /// at the threshold; a terminal session counts its shutdown timer down
    /// and finally buffers the EndConnection sentinel.
    pub fn tick(&mut self) -> (r: bool)
        requires
            old(self).wf(),
        ensures
            final(self).wf(),
            old(self).reaction is Nothing && old(self).state is PLAYING ==> r == true && *final(self)
                == *old(self),
            old(self).reaction is Nothing && !(old(self).state is PLAYING) && old(self).timer_end
                == 0 ==> r == true && resp_view(final(self).response) == Some(
                ServerMsg::EndConnection,
            ) && final(self).map == old(self).map && final(self).state == old(self).state && final(self).reaction == old(self).reaction && final(self).timer_end == 0 && final(self).diamonds_left == old(self).diamonds_left && final(self).progress == old(self).progress,
            old(self).reaction is Nothing && !(old(self).state is PLAYING) && old(self).timer_end
                > 0 ==> r == false && final(self).timer_end == old(self).timer_end - 1 && final(self).map == old(self).map && final(self).state == old(self).state && final(self).reaction
                == old(self).reaction && final(self).response == old(self).response && final(self).diamonds_left == old(self).diamonds_left && final(self).progress == old(self).progress,
            old(self).reaction matches Action::PlayerMovement(d) ==> r == false && (old(self).progress + 1 < ACTION_TICKS ==> *final(self) == (Game {
                progress: (old(self).progress + 1) as u8,
                ..*old(self)
            })) && (old(self).progress + 1 == ACTION_TICKS ==> ({
                    let dest = old(self).map.player.spec_moved(d);
                    &&& r == false
                    &&& final(self).map.player == dest
                    &&& final(self).map.tiles == old(self).map.tiles
                    &&& final(self).map.diamonds@ == remove_first(old(self).map.diamonds@, dest)
                    &&& final(self).diamonds_left == final(self).map.diamonds@.len()
                    &&& final(self).state == (if old(self).diamonds_left == 0 && cell(
                        old(self).map.tiles@,
                        dest.x as int,
                        dest.y as int,
                    ) == Tile::EXIT {
                        State::WON
                    } else {
                        old(self).state
                    })
                    &&& final(self).reaction is Nothing
                    &&& final(self).progress == 0
                    &&& final(self).response == old(self).response
                    &&& final(self).timer_end == old(self).timer_end
                })),
            old(self).reaction matches Action::DigWall(p) ==> r == false && (old(self).progress + 1
                < ACTION_TICKS ==> *final(self) == (Game {
                progress: (old(self).progress + 1) as u8,
                ..*old(self)
            })) && (old(self).progress + 1 == ACTION_TICKS ==> final(self).map.tiles@ == old(self).map.tiles@.update(idx(p.x as int, p.y as int), Tile::EMPTY) && final(self).map.player
                == old(self).map.player && final(self).map.diamonds == old(self).map.diamonds
                && final(self).diamonds_left == old(self).diamonds_left && final(self).state == old(self).state && final(self).reaction is Nothing && final(self).progress == 0 && final(self).response == old(self).response && final(self).timer_end == old(self).timer_end),
    {
        match self.reaction {
            Action::Nothing => {
                if !matches!(self.state, State::PLAYING) {
                    if self.timer_end == 0 {
                        self.response = Some(ServerMessage::EndConnection);
                        true
                    } else {
                        self.timer_end = self.timer_end - 1;
                        false
                    }
                } else {
                    true
                }
            },
            Action::PlayerMovement(direction) => {
                self.progress = self.progress + 1;
                if self.progress == ACTION_TICKS {
                    proof {
                        self.map.lemma_player_interior();
                    }
                    self.map.move_player(direction);
                    let on_exit = match self.map.tile_at(self.map.player_pos()) {
                        Some(Tile::EXIT) => true,
                        _ => false,
                    };
                    if self.diamonds_left == 0 && on_exit {
                        self.state = State::WON;
                    }
                    self.map.pick_up_diamond();
                    self.diamonds_left = self.map.diamonds_count();
                    self.reaction = Action::Nothing;
                    self.progress = 0;
                }
                false
            },
            Action::DigWall(position) => {
                self.progress = self.progress + 1;
                if self.progress == ACTION_TICKS {
                    self.map.dig(position);
                    self.reaction = Action::Nothing;
                    self.progress = 0;
                }
                false
            },
        }
    }

    /// Interprets one client message.  Only a playing session reacts; the
    /// transport sentinel must never reach this layer.
    pub fn react_to_message(&mut self, message: ClientMessage)
        requires
            old(self).wf(),
            !(message@ is ConnectionEnded),
        ensures
            final(self).wf(),
            final(self).map == old(self).map,
            final(self).diamonds_left == old(self).diamonds_left,
            !(old(self).state is PLAYING && message@ is EndGame) ==> final(self).progress == old(self).progress,
            final(self).timer_end == old(self).timer_end,
            !(old(self).state is PLAYING) ==> *final(self) == *old(self),
            old(self).state is PLAYING ==> (match message@ {
                ClientMsg::EmptyCommand => resp_view(final(self).response) == Some(
                    ServerMsg::Error(msg_empty_command()),
                ) && final(self).reaction == old(self).reaction && final(self).state == old(self).state,
                ClientMsg::UnknownCommand(c) => resp_view(final(self).response) == Some(
                    ServerMsg::Error(unknown_command_msg(c)),
                ) && final(self).reaction == old(self).reaction && final(self).state == old(self).state,
                ClientMsg::InvalidArguments(p) => resp_view(final(self).response) == Some(
                    ServerMsg::Error(p),
                ) && final(self).reaction == old(self).reaction && final(self).state == old(self).state,
                ClientMsg::EndGame => resp_view(final(self).response) == Some(ServerMsg::EndGame)
                    && final(self).reaction is Nothing && final(self).state is STOPPED && final(self).progress == 0,
                ClientMsg::GetMap => resp_view(final(self).response) == Some(
                    ServerMsg::MapResponse(old(self).map.spec_repr()),
                ) && final(self).reaction == old(self).reaction && final(self).state == old(self).state,
                ClientMsg::Move(d) => {
                    let dest = old(self).map.player.spec_moved(d);
                    let t = old(self).map.spec_tile_at(dest);
                    &&& final(self).state == old(self).state
                    &&& (t == Some(Tile::EMPTY) || t == Some(Tile::EXIT) ==> resp_view(
                        final(self).response,
                    ) == Some(ServerMsg::ValidMove) && final(self).reaction
                        == Action::PlayerMovement(d))
                    &&& (t == Some(Tile::WALL) ==> resp_view(final(self).response) == Some(
                        ServerMsg::ValidMove,
                    ) && final(self).reaction == Action::DigWall(dest))
                    &&& (t == Some(Tile::STONE) || t == Some(Tile::BORDER) || t is None
                        ==> resp_view(final(self).response) == Some(
                        ServerMsg::Error(msg_invalid_move()),
                    ) && final(self).reaction == old(self).reaction)
                },
                ClientMsg::ConnectionEnded => false,
            }),
    {
        if !matches!(self.state, State::PLAYING) {
            return ;
        }
        match message {
            ClientMessage::EmptyCommand => {
                self.response = Some(ServerMessage::Error(crate::interface::msg_empty_command_vec()));
            },
            ClientMessage::UnknownCommand(command) => {
                self.response = Some(
                    ServerMessage::Error(crate::interface::unknown_command_msg_vec(&command)),
                );
            },
            ClientMessage::InvalidArguments(problem) => {
                self.response = Some(ServerMessage::Error(problem));
            },
            ClientMessage::EndGame => {
                self.state = State::STOPPED;
                self.reaction = Action::Nothing;
                self.progress = 0;
                self.response = Some(ServerMessage::EndGame);
            },
            ClientMessage::GetMap => {
                self.response = Some(ServerMessage::MapResponse(self.map.repr()));
            },
            ClientMessage::Move(direction) => {
                proof {
                    self.map.lemma_player_interior();
                }
                let dest = self.map.player_pos().moved(direction);
                match self.map.tile_at(dest) {
                    Some(Tile::EMPTY) | Some(Tile::EXIT) => {
                        self.response = Some(ServerMessage::ValidMove);
                        self.reaction = Action::PlayerMovement(direction);
                    },
                    Some(Tile::WALL) => {
                        self.response = Some(ServerMessage::ValidMove);
                        self.reaction = Action::DigWall(dest);
                    },
                    Some(Tile::STONE) | Some(Tile::BORDER) | None => {
                        self.response = Some(
                            ServerMessage::Error(crate::interface::msg_invalid_move_vec()),
                        );
                    },
                }
            },
            ClientMessage::ConnectionEnded => {
                proof {
                    assert(false);
                }
            },
        }
    }

    /// Offers the buffered reply, but only while no action is pending: a
    /// second command accepted before the first action resolves can produce
    /// no additional reply until it has.
    pub fn response(&mut self) -> (r: Option<ServerMessage>)
        ensures
            !(old(self).reaction is Nothing) ==> r is None && *final(self) == *old(self),
            old(self).reaction is Nothing ==> r == old(self).response && final(self).response
                is None && final(self).map == old(self).map && final(self).state == old(self).state
                && final(self).reaction == old(self).reaction && final(self).progress == old(self).progress && final(self).timer_end == old(self).timer_end && final(self).diamonds_left
                == old(self).diamonds_left,
            old(self).wf() ==> final(self).wf(),
    {
        match self.reaction {
            Action::Nothing => self.response.take(),
            _ => None,
        }
    }
}

} // verus!
