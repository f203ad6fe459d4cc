//! A blind-test trivia game for group chats: questions with accepted answers,
//! teams that answer in their own channels, and the session that keeps score.
pub mod deck;
pub mod error;
pub mod notice;
pub mod question;
pub mod registry;
pub mod render;
pub mod session;
pub mod sums;
pub mod team;
pub mod text;

pub use crate::error::{ErrorKind, GameError};
pub use crate::notice::{Audience, Message, Notification};
pub use crate::question::{Answer, Question};
pub use crate::registry::Data;
pub use crate::render::{Card, Color};
pub use crate::session::{GameState, GuildConfig};
pub use crate::team::Team;
