//! What can go wrong while a colour is assigned.

use vstd::prelude::*;

verus! {

/// `serenity::Error`, the error of every call on the platform. The library
/// hands such a value on and never looks inside: nothing is claimed of it.
#[verifier::external_type_specification]
#[verifier::external_body]
pub struct ExPlatformError(serenity::Error);

/// Why a colour could not be assigned.
#[derive(Debug)]
pub enum BotError {
    /// The guild has no role named `colors`.
    NoColorRole,
    /// A call on the platform failed; this is its error.
    DiscordError(serenity::Error),
}

impl From<serenity::Error> for BotError {
    fn from(f: serenity::Error) -> (e: BotError) {
        BotError::DiscordError(f)
    }
}

impl vstd::std_specs::convert::FromSpecImpl<serenity::Error> for BotError {
    open spec fn obeys_from_spec() -> bool {
        true
    }

    open spec fn from_spec(f: serenity::Error) -> BotError {
        BotError::DiscordError(f)
    }
}

} // verus!
