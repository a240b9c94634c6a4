//! The server-authoritative core of a single-session tile dungeon: a
//! seeded generator builds the world, a session state machine interprets
//! client commands against tick-paced world mutation, and a line codec and
//! bridge decision table carry messages between the simulation loop and the
//! connection worker.

pub mod clock;
pub mod game;
pub mod gen;
pub mod home;
pub mod interface;
pub mod map;
pub mod network;
pub mod pos;
pub mod rng;

pub use clock::Clock;
pub use game::Action;
pub use game::Game;
pub use game::State;
pub use interface::ClientMessage;
pub use interface::ClientMsg;
pub use interface::ServerMessage;
pub use interface::ServerMsg;
pub use home::Home;
pub use map::GameMap;
pub use map::Tile;
pub use network::absorb_chunk;
pub use network::frame_reply;
pub use network::greeting_line;
pub use network::on_poll;
pub use network::on_read;
pub use network::on_reply;
pub use network::on_write_result;
pub use network::take_line;
pub use network::PollOutcome;
pub use network::ReadOutcome;
pub use network::WorkerStep;
pub use pos::Direction;
pub use pos::Pos;
pub use rng::Rng;
