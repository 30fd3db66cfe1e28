//! One message, from its arrival to its outcome.
//!
//! The library cannot measure contrast, look a guild up or call the
//! platform. So it handles a message in steps. Each step returns a
//! [`Next`]: what the caller is to do now, together with the state that
//! takes the answer and returns the step after it. The last step returns
//! [`Next::Finished`]. A caller that hands each answer to the state it got
//! with the request makes the calls in order, each one over before the
//! next is asked for, and stops at the first that fails.

use crate::colour::{parsed, Colour};
use crate::error::BotError;
use crate::guild::{Guild, GuildView, Member, Role};
use crate::handler::{anchor_name, new_role_for, Handler, NewRole, Resolution};
use vstd::prelude::*;

verus! {

/// The sign shown on a message.
#[derive(Clone, Copy, Debug, PartialEq, Eq, Structural)]
pub enum Feedback {
    /// The colour was assigned.
    Accept,
    /// The colour was refused for want of contrast.
    Reject,
}

/// How the handling of a message ended.
#[derive(Debug)]
pub enum Outcome {
    /// The message is no colour. Nothing was done.
    Ignored,
    /// The colour has too little contrast. No role was touched.
    Rejected,
    /// The message belongs to no guild that could be found.
    NoGuild,
    /// The author now holds this role, and no other colour role.
    Assigned(Role),
    /// The assignment failed. Calls made before the failure stay made.
    Failed(BotError),
}

impl Outcome {
    /// The sign owed for an outcome: one for an assignment, the other for a
    /// refusal for want of contrast, none for anything else.
    pub open spec fn feedback_spec(self) -> Option<Feedback> {
        match self {
            Outcome::Assigned(_) => Some(Feedback::Accept),
            Outcome::Rejected => Some(Feedback::Reject),
            _ => None,
        }
    }

    /// The sign owed for this outcome.
    pub fn feedback(&self) -> (f: Option<Feedback>)
        ensures
            f == self.feedback_spec(),
    {
        match self {
            Outcome::Assigned(_) => Some(Feedback::Accept),
            Outcome::Rejected => Some(Feedback::Reject),
            _ => None,
        }
    }
}

/// What the caller is to do now. Each request comes with the state to hand
/// the answer to.
#[derive(Debug)]
#[allow(inconsistent_fields)]
pub enum Next {
    /// Measure the contrast of `colour` against the background.
    Measure { colour: Colour, then: Measuring },
    /// Look up the guild of the message.
    Locate { then: Locating },
    /// Create the role `role` in the guild.
    Create { role: NewRole, then: Creating },
    /// Get the member that is `user`.
    Fetch { user: u64, then: Fetching },
    /// Take the roles `roles` from `user`.
    Remove { user: u64, roles: Vec<u64>, then: Removing },
    /// Give the role `role` to `user`.
    Add { user: u64, role: u64, then: Adding },
    /// Delete the role `role` from the guild.
    Delete { role: u64, then: Collecting },
    /// Nothing more: the message is handled.
    Finished(Outcome),
}

/// A colour was posted; its contrast is being measured.
#[derive(Debug, PartialEq, Eq)]
pub struct Measuring {
    pub author: u64,
    pub colour: Colour,
}

/// The colour is acceptable; the guild is being looked up.
#[derive(Debug, PartialEq, Eq)]
pub struct Locating {
    pub author: u64,
    pub colour: Colour,
}

/// The role for the colour is being created.
#[derive(Debug, PartialEq, Eq)]
pub struct Creating {
    pub user: u64,
}

/// The role for the colour is `role`; the member is being fetched.
#[derive(Debug, PartialEq, Eq)]
pub struct Fetching {
    pub user: u64,
    pub role: Role,
}

/// The member's earlier colour roles are being taken away.
#[derive(Debug, PartialEq, Eq)]
pub struct Removing {
    pub user: u64,
    pub role: Role,
}

/// The role for the colour is being given to the member.
#[derive(Debug, PartialEq, Eq)]
pub struct Adding {
    pub user: u64,
    pub role: Role,
}

/// An orphan is being deleted; `pending` are those still to delete.
#[derive(Debug, PartialEq, Eq)]
pub struct Collecting {
    pub role: Role,
    pub pending: Vec<u64>,
}

/// The step that ends the handling with the failure of a call.
pub open spec fn failed(e: serenity::Error) -> Next {
    Next::Finished(Outcome::Failed(BotError::DiscordError(e)))
}

/// Whether `next` is the first step of assigning `colour` to `user` in
/// `guild`: the end, where the guild has no anchor; the fetching of the
/// member, where the role for the colour exists; else its creation.
pub open spec fn begins(next: Next, guild: GuildView, user: u64, colour: Colour) -> bool {
    match guild.role_named(anchor_name()) {
        None => next == Next::Finished(Outcome::Failed(BotError::NoColorRole)),
        Some(anchor) => match guild.role_named(colour.name_spec()) {
            Some(found) => next matches Next::Fetch { user: u, then } && u == user && then.user
                == user && then.role@ == found,
            None => next matches Next::Create { role, then } && role@ == new_role_for(
                colour,
                anchor,
            ) && then.user == user,
        },
    }
}

/// Whether `next` is the step that deletes the first of `orphans`, keeping
/// the rest for later, or, where there is none, ends with `role` assigned.
pub open spec fn collects(next: Next, role: Role, orphans: Seq<u64>) -> bool {
    if orphans.len() == 0 {
        next == Next::Finished(Outcome::Assigned(role))
    } else {
        next matches Next::Delete { role: id, then } && id == orphans[0] && then.role == role
            && then.pending@ == orphans.skip(1)
    }
}

impl<T> Handler<T> {
    /// Takes a message of `author` in: a message that is no colour is
    /// ignored; for a colour, its contrast is to be measured.
    pub fn message(&self, author: u64, content: &str) -> (next: Next)
        ensures
            next == match parsed(content@) {
                Some(colour) => Next::Measure { colour, then: Measuring { author, colour } },
                None => Next::Finished(Outcome::Ignored),
            },
    {
        match self.parse_color(content) {
            Some(colour) => Next::Measure { colour, then: Measuring { author, colour } },
            None => Next::Finished(Outcome::Ignored),
        }
    }

    /// Begins to assign `color` to `user` in `guild`, with the role for the
    /// colour.
    pub fn assign_color(&self, user: u64, guild: &Guild, color: Colour) -> (next: Next)
        ensures
            begins(next, guild@, user, color),
    {
        match self.get_or_create_role(color, guild) {
            Ok(Resolution::Existing(role)) => Next::Fetch { user, then: Fetching { user, role } },
            Ok(Resolution::Create(role)) => Next::Create { role, then: Creating { user } },
            Err(e) => Next::Finished(Outcome::Failed(e)),
        }
    }
}

impl Measuring {
    /// Takes the measurement: whether the contrast of the colour against
    /// the background exceeds the least that the handler accepts. Where it
    /// does not, the handling ends here.
    pub fn measured(self, exceeds: bool) -> (next: Next)
        ensures
            next == if exceeds {
                Next::Locate { then: Locating { author: self.author, colour: self.colour } }
            } else {
                Next::Finished(Outcome::Rejected)
            },
    {
        if exceeds {
            Next::Locate { then: Locating { author: self.author, colour: self.colour } }
        } else {
            Next::Finished(Outcome::Rejected)
        }
    }
}

impl Locating {
    /// Takes the guild of the message, if there is one, and begins the
    /// assignment in it.
    pub fn located<T>(self, handler: &Handler<T>, guild: Option<&Guild>) -> (next: Next)
        ensures
            match guild {
                Some(g) => begins(next, g@, self.author, self.colour),
                None => next == Next::Finished(Outcome::NoGuild),
            },
    {
        match guild {
            Some(g) => handler.assign_color(self.author, g, self.colour),
            None => Next::Finished(Outcome::NoGuild),
        }
    }
}

impl Creating {
    /// Takes the role that the platform created: it is the role for the
    /// colour.
    pub fn created(self, reply: Result<Role, serenity::Error>) -> (next: Next)
        ensures
            next == match reply {
                Ok(role) => Next::Fetch {
                    user: self.user,
                    then: Fetching { user: self.user, role },
                },
                Err(e) => failed(e),
            },
    {
        match reply {
            Ok(role) => Next::Fetch { user: self.user, then: Fetching { user: self.user, role } },
            Err(e) => Next::Finished(Outcome::Failed(BotError::from(e))),
        }
    }
}

impl Fetching {
    /// Takes the member. Every colour role of `guild` that the member holds
    /// is to be taken away: there may be none, or more than one.
    pub fn fetched(self, guild: &Guild, reply: Result<Member, serenity::Error>) -> (next: Next)
        ensures
            match reply {
                Ok(member) => next matches Next::Remove { user, roles, then } && user == self.user
                    && roles@ == guild@.colour_roles_among(member.roles@) && then == (Removing {
                    user: self.user,
                    role: self.role,
                }),
                Err(e) => next == failed(e),
            },
    {
        match reply {
            Ok(member) => Next::Remove {
                user: self.user,
                roles: guild.colour_roles_among(&member.roles),
                then: Removing { user: self.user, role: self.role },
            },
            Err(e) => Next::Finished(Outcome::Failed(BotError::from(e))),
        }
    }
}

impl Removing {
    /// Takes the word that the earlier colour roles are gone.
    pub fn removed(self, reply: Result<(), serenity::Error>) -> (next: Next)
        ensures
            next == match reply {
                Ok(_) => Next::Add {
                    user: self.user,
                    role: self.role.id,
                    then: Adding { user: self.user, role: self.role },
                },
                Err(e) => failed(e),
            },
    {
        match reply {
            Ok(_) => Next::Add {
                user: self.user,
                role: self.role.id,
                then: Adding { user: self.user, role: self.role },
            },
            Err(e) => Next::Finished(Outcome::Failed(BotError::from(e))),
        }
    }
}

impl Adding {
    /// Takes the word that the member holds the role. The orphans of
    /// `guild`, as it is now, are to be deleted; the role just given is
    /// never one of them.
    pub fn added<T>(
        self,
        handler: &Handler<T>,
        guild: &Guild,
        reply: Result<(), serenity::Error>,
    ) -> (next: Next)
        ensures
            match reply {
                Ok(_) => collects(next, self.role, guild@.orphans(self.role.id)),
                Err(e) => next == failed(e),
            },
    {
        match reply {
            Ok(_) => {
                let orphans = handler.cleanup_roles(guild, self.role.id);
                delete_next(self.role, orphans)
            },
            Err(e) => Next::Finished(Outcome::Failed(BotError::from(e))),
        }
    }
}

impl Collecting {
    /// Takes the word that an orphan is deleted. A failure ends the
    /// handling; the orphans still pending are left alone.
    pub fn deleted(self, reply: Result<(), serenity::Error>) -> (next: Next)
        ensures
            match reply {
                Ok(_) => collects(next, self.role, self.pending@),
                Err(e) => next == failed(e),
            },
    {
        match reply {
            Ok(_) => delete_next(self.role, self.pending),
            Err(e) => Next::Finished(Outcome::Failed(BotError::from(e))),
        }
    }
}

/// The step that deletes the first of `orphans`, or ends with `role`
/// assigned.
fn delete_next(role: Role, orphans: Vec<u64>) -> (next: Next)
    ensures
        collects(next, role, orphans@),
{
    let mut pending = orphans;
    if pending.len() == 0 {
        Next::Finished(Outcome::Assigned(role))
    } else {
        let first = pending.remove(0);
        proof {
            assert(pending@ =~= orphans@.skip(1));
        }
        Next::Delete { role: first, then: Collecting { role, pending } }
    }
}

} // verus!
