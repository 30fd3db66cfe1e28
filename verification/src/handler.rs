//! The decisions that need no more than a guild to look at.

use crate::colour::{is_color_name_text, parsed, Colour};
use crate::error::BotError;
use crate::guild::{ids, Guild, GuildView, Role, RoleView};
use vstd::prelude::*;
use vstd::string::*;

verus! {

/// The name of the role whose rank new colour roles are given.
pub open spec fn anchor_name() -> Seq<char> {
    seq!['c', 'o', 'l', 'o', 'r', 's']
}

/// A role that does not exist yet, as the platform is asked to create it.
#[derive(Debug, PartialEq, Eq)]
pub struct NewRole {
    pub name: String,
    pub colour: u32,
    /// The rank of the role among the roles of its guild.
    pub position: i64,
}

/// What a [`NewRole`] holds.
pub struct NewRoleView {
    pub name: Seq<char>,
    pub colour: u32,
    pub position: i64,
}

impl View for NewRole {
    type V = NewRoleView;

    open spec fn view(&self) -> NewRoleView {
        NewRoleView { name: self.name@, colour: self.colour, position: self.position }
    }
}

impl NewRoleView {
    /// The role that the platform creates on this request, under the id it
    /// chooses.
    pub open spec fn role(self, id: u64) -> RoleView {
        RoleView { id, name: self.name, colour: self.colour, position: self.position }
    }
}

impl NewRole {
    /// The role that the platform creates on this request, under the id it
    /// chooses.
    pub fn into_role(self, id: u64) -> (r: Role)
        ensures
            r@ == self@.role(id),
    {
        Role { id, name: self.name, colour: self.colour, position: self.position }
    }
}

/// The role for a colour: one that exists, or one to create.
#[derive(Debug, PartialEq, Eq)]
pub enum Resolution {
    Existing(Role),
    Create(NewRole),
}

/// The request for the role of `colour` at the rank of the anchor `anchor`:
/// the position of the anchor, whatever it is.
pub open spec fn new_role_for(colour: Colour, anchor: RoleView) -> NewRoleView {
    NewRoleView {
        name: colour.name_spec(),
        colour: colour.value_spec() as u32,
        position: anchor.position,
    }
}

/// Whether `r` is the role for `colour` in `guild`: the error where the
/// guild has no anchor, else the role named after the colour, else the
/// request to create it at the anchor's rank.
pub open spec fn resolves(
    guild: GuildView,
    colour: Colour,
    r: Result<Resolution, BotError>,
) -> bool {
    match guild.role_named(anchor_name()) {
        None => r == Err::<Resolution, BotError>(BotError::NoColorRole),
        Some(anchor) => match guild.role_named(colour.name_spec()) {
            Some(role) => r matches Ok(Resolution::Existing(found)) && found@ == role,
            None => r matches Ok(Resolution::Create(new)) && new@ == new_role_for(colour, anchor),
        },
    }
}

/// Decides what is to be done about the colours that members post.
///
/// The handler keeps the least contrast that is accepted, in the measure
/// `T` of whoever measures contrast; the library never looks at it.
#[derive(Debug)]
pub struct Handler<T> {
    pub min_contrast: T,
}

impl<T> Handler<T> {
    /// A handler that accepts colours whose contrast exceeds
    /// `min_contrast`.
    pub fn new(min_contrast: T) -> (h: Handler<T>)
        ensures
            h.min_contrast == min_contrast,
    {
        Handler { min_contrast }
    }

    /// Reads a message as a colour: only where the whole message is a colour
    /// name.
    pub fn parse_color(&self, msg: &str) -> (r: Option<Colour>)
        ensures
            r == parsed(msg@),
    {
        Colour::parse(msg)
    }

    /// The rank for new colour roles: the position of the role named
    /// `colors`.
    pub fn get_color_role_position(&self, guild: &Guild) -> (r: Result<i64, BotError>)
        ensures
            r == match guild@.role_named(anchor_name()) {
                Some(anchor) => Ok::<i64, BotError>(anchor.position),
                None => Err::<i64, BotError>(BotError::NoColorRole),
            },
    {
        proof {
            reveal_strlit("colors");
            assert("colors"@ =~= anchor_name());
        }
        match guild.role_by_name("colors") {
            Some(anchor) => Ok(anchor.position),
            None => Err(BotError::NoColorRole),
        }
    }

    /// The role for `color` in `guild`. A role that carries the colour's
    /// name is returned as it is; otherwise the result is the request to
    /// create one at the anchor's rank.
    pub fn get_or_create_role(&self, color: Colour, guild: &Guild) -> (r: Result<
        Resolution,
        BotError,
    >)
        ensures
            resolves(guild@, color, r),
    {
        let name = color.name();
        let position = match self.get_color_role_position(guild) {
            Ok(p) => p,
            Err(e) => {
                return Err(e);
            },
        };
        if let Some(role) = guild.role_by_name(name.as_str()) {
            return Ok(Resolution::Existing(role.clone()));
        }
        Ok(Resolution::Create(NewRole { name, colour: color.value(), position }))
    }

    /// The colour roles of `guild` to delete: those that no member holds,
    /// but for the role `used`.
    pub fn cleanup_roles(&self, guild: &Guild, used: u64) -> (out: Vec<u64>)
        ensures
            out@ == guild@.orphans(used),
    {
        let n = guild.roles.len();
        let ghost all = guild@.roles;
        let ghost keep = guild@.is_orphan(used);
        let mut out: Vec<u64> = Vec::new();
        let mut i: usize = 0;
        while i < n
            invariant
                n == guild.roles.len(),
                all == guild@.roles,
                keep == guild@.is_orphan(used),
                i <= n,
                out@ == ids(all.take(i as int).filter(keep)),
            decreases n - i,
        {
            proof {
                assert(all.take(i + 1) =~= all.take(i as int).push(all[i as int]));
                all.take(i as int).lemma_filter_push(all[i as int], keep);
            }
            let role = &guild.roles[i];
            if is_color_name_text(role.name.as_str()) && !guild.is_used(role.id) && role.id
                != used {
                out.push(role.id);
                proof {
                    assert(ids(all.take(i as int).filter(keep).push(all[i as int])) =~= ids(
                        all.take(i as int).filter(keep),
                    ).push(all[i as int].id));
                }
            }
            i += 1;
        }
        proof {
            assert(all.take(n as int) =~= all);
        }
        out
    }
}

} // verus!
