//! Colour roles for the members of a guild.
//!
//! A member posts a colour as `#` and six hexadecimal digits; the library
//! decides which role stands for that colour, which calls on the chat
//! platform give the member that role and no other colour role, and which
//! colour roles nobody holds any more. The calls themselves, and the
//! measurement of contrast, are made by the caller.
//!
//! - [`colour`]: colours and their names.
//! - [`guild`]: a guild, its roles and members, and what each call on the
//!   platform makes of it.
//! - [`handler`]: the rank of new roles, the role for a colour, the
//!   orphans.
//! - [`session`]: a message handled step by step, one call at a time.
//! - [`transaction`]: an assignment as a whole, and a run of it in memory.
//! - [`laws`]: what holds for every colour and every guild; [`facts`] holds
//!   what the proofs rest on.

pub mod colour;
pub mod error;
pub mod facts;
pub mod guild;
pub mod handler;
pub mod laws;
pub mod session;
pub mod transaction;

pub use colour::Colour;
pub use error::BotError;
pub use guild::{Guild, Member, Role};
pub use handler::{Handler, NewRole, Resolution};
pub use session::{
    Adding, Collecting, Creating, Feedback, Fetching, Locating, Measuring, Next, Outcome, Removing,
};
