//! A raffle bot's core: the raffle state and its transitions, the parsing of
//! administrator commands, the routing of inbound chat messages and the
//! drawing that hands reward codes out to shuffled participants.

pub mod command;
pub mod drawing;
pub mod router;
pub mod state;
pub mod text;

pub use drawing::Drawing;
pub use command::{parse_command, parse_start, Command};
pub use router::{handle_message, Action, ChatScope, Inbound, Reply, RouteError};
pub use state::RaffleState;
pub use text::{contains_text, is_reward_code, same_text, split_lines, starts_with_text, text_below};
