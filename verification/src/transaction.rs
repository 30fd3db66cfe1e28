//! An assignment as a whole: what it makes of a guild.
//!
//! The steps of an assignment ask for one call after the other. Here the
//! calls are put together: the guild that is left once all of them have
//! been made, and a run of the steps on a guild held in memory.

use crate::colour::Colour;
use crate::error::BotError;
use crate::guild::{Guild, GuildView, Role};
use crate::laws::{lemma_assignment_settles, lemma_calls_keep_well_formed};
use crate::handler::{anchor_name, new_role_for, Handler};
use crate::session::{collects, Next, Outcome};
use vstd::pervasive::unreached;
use vstd::prelude::*;

verus! {

/// The guild once the answer of the resolver for `colour` has been carried
/// out: as it was where the role exists or the anchor is missing, else
/// with the role created as asked, under the id `id`.
pub open spec fn resolved_guild(g: GuildView, colour: Colour, id: u64) -> GuildView {
    match (g.role_named(anchor_name()), g.role_named(colour.name_spec())) {
        (Some(anchor), None) => g.with_role(new_role_for(colour, anchor).role(id)),
        _ => g,
    }
}

/// The guild once `user` has been assigned the role `target`: every colour
/// role that the user held is taken away, then `target` is given.
pub open spec fn reassigned(g: GuildView, user: u64, target: u64) -> GuildView {
    match g.member(user) {
        Some(m) => g.without_grants(user, g.colour_roles_among(m.roles)).with_grant(user, target),
        None => g,
    }
}

/// The guild once its orphans, but for `exempt`, have been deleted.
pub open spec fn collected(g: GuildView, exempt: u64) -> GuildView {
    g.without_roles(g.orphans(exempt))
}

/// The guild once `colour` has been assigned to `user` and every call has
/// succeeded: the role for the colour is there, created under the id `id`
/// if it was missing; the user holds it in place of any other colour role;
/// the orphans are gone. A guild without anchor is left as it is.
pub open spec fn settled(g: GuildView, user: u64, colour: Colour, id: u64) -> GuildView {
    let resolved = resolved_guild(g, colour, id);
    match (g.role_named(anchor_name()), resolved.role_named(colour.name_spec())) {
        (Some(_), Some(target)) => collected(reassigned(resolved, user, target.id), target.id),
        _ => g,
    }
}

impl Guild {
    /// Deletes the orphans of this guild, held in memory, but for the role
    /// `exempt`. The result holds the ids of the roles that were deleted.
    pub fn collect<T>(&mut self, handler: &Handler<T>, exempt: u64) -> (deleted: Vec<u64>)
        ensures
            final(self)@ == collected(old(self)@, exempt),
            deleted@ == old(self)@.orphans(exempt),
            old(self)@.well_formed() ==> final(self)@.well_formed(),
    {
        proof {
            if self@.well_formed() {
                lemma_calls_keep_well_formed(self@, 0, 0, self@.orphans(exempt), arbitrary());
            }
        }
        let orphans = handler.cleanup_roles(self, exempt);
        let n = orphans.len();
        let mut i: usize = 0;
        proof {
            assert(orphans@.skip(0) =~= orphans@);
        }
        while i < n
            invariant
                n == orphans.len(),
                i <= n,
                orphans@ == old(self)@.orphans(exempt),
                self@.without_roles(orphans@.skip(i as int)) == collected(old(self)@, exempt),
            decreases n - i,
        {
            proof {
                assert(orphans@.skip(i as int).skip(1) =~= orphans@.skip(i + 1));
            }
            self.delete_role(orphans[i]);
            i += 1;
        }
        orphans
    }

    /// Assigns `colour` to `user` in this guild, held in memory: runs the
    /// steps of the assignment and does to the guild what the platform does
    /// on each call, every call succeeding. A role that is created gets the
    /// id `id`.
    ///
    /// The user must be a member of the guild. The result is the role for
    /// the colour, or the error that the guild has no anchor; the guild is
    /// then left as it was. Where the guild is well formed and `id` is the
    /// id of none of its roles, the guild stays well formed, and the member
    /// ends with exactly one colour role: the role returned.
    #[verifier::loop_isolation(false)]
    pub fn assign<T>(&mut self, handler: &Handler<T>, user: u64, colour: Colour, id: u64) -> (r:
        Result<Role, BotError>)
        requires
            old(self)@.member(user) is Some,
        ensures
            final(self)@ == settled(old(self)@, user, colour, id),
            old(self)@.well_formed() && !old(self)@.has_role(id) ==> final(self)@.well_formed(),
            old(self)@.well_formed() && !old(self)@.has_role(id) ==> (r matches Ok(role)
                ==> final(self)@.member(user) matches Some(m) && final(self)@.colour_roles_among(
                m.roles,
            ) == seq![role.id]),
            match old(self)@.role_named(anchor_name()) {
                Some(_) => r matches Ok(role) && Some(role@) == resolved_guild(
                    old(self)@,
                    colour,
                    id,
                ).role_named(colour.name_spec()),
                None => r == Err::<Role, BotError>(BotError::NoColorRole),
            },
    {
        let ghost start = self@;
        let ghost resolved = resolved_guild(start, colour, id);
        proof {
            if start.well_formed() && !start.has_role(id) && start.role_named(anchor_name())
                is Some {
                lemma_assignment_settles(start, user, colour, id);
            }
        }
        let fetching = match handler.assign_color(user, self, colour) {
            Next::Fetch { user: _, then } => then,
            Next::Create { role, then } => {
                let created = role.into_role(id);
                let copy = created.clone();
                self.create_role(created);
                proof {
                    assert(start.roles.push(copy@).drop_last() =~= start.roles);
                }
                match then.created(Ok(copy)) {
                    Next::Fetch { user: _, then } => then,
                    _ => unreached(),
                }
            },
            Next::Finished(outcome) => {
                match outcome {
                    Outcome::Failed(e) => {
                        return Err(e);
                    },
                    _ => unreached(),
                }
            },
            _ => unreached(),
        };
        assert(self@ == resolved);
        assert(fetching.user == user);
        assert(resolved.role_named(colour.name_spec()) == Some(fetching.role@));
        let ghost target = fetching.role;

        let member = match self.member(user) {
            Some(m) => m.clone(),
            None => unreached(),
        };
        let removing = match fetching.fetched(self, Ok(member)) {
            Next::Remove { user: _, roles, then } => {
                self.remove_roles(user, &roles);
                then
            },
            _ => unreached(),
        };
        let adding = match removing.removed(Ok(())) {
            Next::Add { user: _, role, then } => {
                self.add_role(user, role);
                then
            },
            _ => unreached(),
        };
        assert(self@ == reassigned(resolved, user, target.id));

        let ghost assigned = self@;
        let ghost mut pending = assigned.orphans(target.id);
        let mut step = adding.added(handler, self, Ok(()));
        loop
            invariant
                collects(step, target, pending),
                self@.without_roles(pending) == collected(assigned, target.id),
            decreases pending.len(),
        {
            step =
            match step {
                Next::Delete { role, then } => {
                    self.delete_role(role);
                    proof {
                        pending = pending.skip(1);
                    }
                    then.deleted(Ok(()))
                },
                Next::Finished(outcome) => {
                    match outcome {
                        Outcome::Assigned(role) => {
                            return Ok(role);
                        },
                        _ => unreached(),
                    }
                },
                _ => unreached(),
            };
        }
    }
}

} // verus!
