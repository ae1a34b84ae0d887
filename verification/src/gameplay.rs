//! Game rules: the client's frame logic and the server's simulation.

pub mod play;
pub mod server_game_logic;
