//! Authoritative rules engine for two-player Connect Four over a bit-packed
//! 7-column, 6-row board: move validation, O(1) win detection, and a strict
//! game-lifecycle state machine.

pub mod board;
pub mod game;
pub mod lobby;

pub use board::has_won;
pub use board::TOP_ROW;
pub use game::Game;
pub use game::GameError;
pub use game::GameResult;
pub use game::GameStatus;
pub use game::Player;
pub use lobby::create;
pub use lobby::new_game_with_opponent;
pub use lobby::ConnectFour;
pub use game::make_move;
pub use game::game_is_wf;
pub use lobby::lobby_is_wf;
