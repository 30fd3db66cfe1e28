//! A guild as the library sees it: its roles, its members, and the roles
//! that each member holds.

use crate::colour::{is_color_name, is_color_name_text};
use crate::facts::lemma_first_member;
use crate::laws::lemma_calls_keep_well_formed;
use vstd::prelude::*;
use vstd::string::*;

verus! {

/// A role of a guild.
#[derive(Debug, PartialEq, Eq)]
pub struct Role {
    pub id: u64,
    pub name: String,
    pub colour: u32,
    /// The rank of the role among the roles of its guild.
    pub position: i64,
}

/// What a [`Role`] holds.
pub struct RoleView {
    pub id: u64,
    pub name: Seq<char>,
    pub colour: u32,
    pub position: i64,
}

impl View for Role {
    type V = RoleView;

    open spec fn view(&self) -> RoleView {
        RoleView { id: self.id, name: self.name@, colour: self.colour, position: self.position }
    }
}

impl Clone for Role {
    fn clone(&self) -> (r: Role)
        ensures
            r == *self,
    {
        Role { id: self.id, name: self.name.clone(), colour: self.colour, position: self.position }
    }
}

/// A member of a guild, with the ids of the roles that the member holds.
#[derive(Debug, PartialEq, Eq)]
pub struct Member {
    pub user: u64,
    pub roles: Vec<u64>,
}

/// What a [`Member`] holds.
pub struct MemberView {
    pub user: u64,
    pub roles: Seq<u64>,
}

impl View for Member {
    type V = MemberView;

    open spec fn view(&self) -> MemberView {
        MemberView { user: self.user, roles: self.roles@ }
    }
}

impl Clone for Member {
    fn clone(&self) -> (m: Member)
        ensures
            m@ == self@,
    {
        Member { user: self.user, roles: copy_ids(&self.roles) }
    }
}

/// A guild: the roles it owns and its members.
#[derive(Debug, PartialEq, Eq)]
pub struct Guild {
    pub roles: Vec<Role>,
    pub members: Vec<Member>,
}

/// What a [`Guild`] holds.
pub struct GuildView {
    pub roles: Seq<RoleView>,
    pub members: Seq<MemberView>,
}

impl View for Guild {
    type V = GuildView;

    open spec fn view(&self) -> GuildView {
        GuildView { roles: role_views(self.roles@), members: member_views(self.members@) }
    }
}

/// The views of a sequence of roles.
pub open spec fn role_views(roles: Seq<Role>) -> Seq<RoleView> {
    roles.map_values(|r: Role| r@)
}

/// The views of a sequence of members.
pub open spec fn member_views(members: Seq<Member>) -> Seq<MemberView> {
    members.map_values(|m: Member| m@)
}

/// The ids of a sequence of roles, in the same order.
pub open spec fn ids(roles: Seq<RoleView>) -> Seq<u64> {
    roles.map_values(|r: RoleView| r.id)
}

/// The first of `roles` that is named `name`.
pub open spec fn first_named(roles: Seq<RoleView>, name: Seq<char>) -> Option<RoleView>
    decreases roles.len(),
{
    if roles.len() == 0 {
        None
    } else {
        match first_named(roles.drop_last(), name) {
            Some(r) => Some(r),
            None => if roles.last().name == name {
                Some(roles.last())
            } else {
                None
            },
        }
    }
}

/// The first of `members` that is the user `user`.
pub open spec fn first_member(members: Seq<MemberView>, user: u64) -> Option<MemberView>
    decreases members.len(),
{
    if members.len() == 0 {
        None
    } else {
        match first_member(members.drop_last(), user) {
            Some(m) => Some(m),
            None => if members.last().user == user {
                Some(members.last())
            } else {
                None
            },
        }
    }
}

/// A role found among the first `k` of `roles` is the role found among all
/// of them.
pub proof fn lemma_first_named_prefix(roles: Seq<RoleView>, name: Seq<char>, k: int)
    requires
        0 <= k <= roles.len(),
        first_named(roles.take(k), name) is Some,
    ensures
        first_named(roles, name) == first_named(roles.take(k), name),
    decreases roles.len() - k,
{
    if k < roles.len() {
        assert(roles.take(k + 1).drop_last() =~= roles.take(k));
        lemma_first_named_prefix(roles, name, k + 1);
    } else {
        assert(roles.take(k) =~= roles);
    }
}

/// A member found among the first `k` of `members` is the member found among
/// all of them.
pub proof fn lemma_first_member_prefix(members: Seq<MemberView>, user: u64, k: int)
    requires
        0 <= k <= members.len(),
        first_member(members.take(k), user) is Some,
    ensures
        first_member(members, user) == first_member(members.take(k), user),
    decreases members.len() - k,
{
    if k < members.len() {
        assert(members.take(k + 1).drop_last() =~= members.take(k));
        lemma_first_member_prefix(members, user, k + 1);
    } else {
        assert(members.take(k) =~= members);
    }
}

/// The test that picks, among roles, the colour roles that `held` names.
pub open spec fn held_colour(held: Seq<u64>) -> spec_fn(RoleView) -> bool {
    |r: RoleView| held.contains(r.id) && is_color_name(r.name)
}

/// The test that picks the roles whose id is not `id`.
pub open spec fn other_than(id: u64) -> spec_fn(RoleView) -> bool {
    |r: RoleView| r.id != id
}

/// The test that picks the roles whose id is none of `ids`.
pub open spec fn none_of(ids: Seq<u64>) -> spec_fn(RoleView) -> bool {
    |r: RoleView| !ids.contains(r.id)
}

/// The test that picks the ids that are none of `ids`.
pub open spec fn not_among(ids: Seq<u64>) -> spec_fn(u64) -> bool {
    |id: u64| !ids.contains(id)
}

impl MemberView {
    /// The member once given the role `id`: unchanged if the member holds it
    /// already.
    pub open spec fn with_role(self, id: u64) -> MemberView {
        if self.roles.contains(id) {
            self
        } else {
            MemberView { user: self.user, roles: self.roles.push(id) }
        }
    }

    /// The member once every role of `ids` is taken away.
    pub open spec fn without_roles(self, ids: Seq<u64>) -> MemberView {
        MemberView { user: self.user, roles: self.roles.filter(not_among(ids)) }
    }
}

/// Giving the role `id` to the user `user`, as a change to one member.
pub open spec fn granting(user: u64, id: u64) -> spec_fn(MemberView) -> MemberView {
    |m: MemberView|
        if m.user == user {
            m.with_role(id)
        } else {
            m
        }
}

/// Taking the roles `ids` from the user `user`, as a change to one member.
pub open spec fn revoking(user: u64, ids: Seq<u64>) -> spec_fn(MemberView) -> MemberView {
    |m: MemberView|
        if m.user == user {
            m.without_roles(ids)
        } else {
            m
        }
}

impl GuildView {
    /// No two roles share an id, and no two members are the same user.
    pub open spec fn well_formed(self) -> bool {
        &&& forall|i: int, j: int|
            0 <= i < j < self.roles.len() ==> self.roles[i].id != self.roles[j].id
        &&& forall|i: int, j: int|
            0 <= i < j < self.members.len() ==> self.members[i].user != self.members[j].user
    }

    /// No two colour roles carry the same name.
    pub open spec fn colour_names_unique(self) -> bool {
        forall|i: int, j: int|
            0 <= i < j < self.roles.len() && is_color_name(self.roles[i].name)
                ==> self.roles[i].name != self.roles[j].name
    }

    /// The role named `name`: the first, should several carry the name.
    pub open spec fn role_named(self, name: Seq<char>) -> Option<RoleView> {
        first_named(self.roles, name)
    }

    /// The member that is the user `user`.
    pub open spec fn member(self, user: u64) -> Option<MemberView> {
        first_member(self.members, user)
    }

    /// Whether some role of the guild has the id `id`.
    pub open spec fn has_role(self, id: u64) -> bool {
        exists|i: int| 0 <= i < self.roles.len() && (#[trigger] self.roles[i]).id == id
    }

    /// The guild with one member more.
    pub open spec fn with_member(self, member: MemberView) -> GuildView {
        GuildView { roles: self.roles, members: self.members.push(member) }
    }

    /// Whether some member holds the role `id`.
    pub open spec fn in_use(self, id: u64) -> bool {
        exists|i: int| 0 <= i < self.members.len() && #[trigger] self.members[i].roles.contains(id)
    }

    /// The ids of the colour roles of the guild that `held` names, in the
    /// order of the guild's roles.
    pub open spec fn colour_roles_among(self, held: Seq<u64>) -> Seq<u64> {
        ids(self.roles.filter(held_colour(held)))
    }

    /// The test that picks the orphans: the colour roles that no member
    /// holds, but for the role `exempt`.
    pub open spec fn is_orphan(self, exempt: u64) -> spec_fn(RoleView) -> bool {
        |r: RoleView| is_color_name(r.name) && !self.in_use(r.id) && r.id != exempt
    }

    /// The ids of the orphans, in the order of the guild's roles.
    pub open spec fn orphans(self, exempt: u64) -> Seq<u64> {
        ids(self.roles.filter(self.is_orphan(exempt)))
    }

    /// The guild once the platform has created `role` in it.
    pub open spec fn with_role(self, role: RoleView) -> GuildView {
        GuildView { roles: self.roles.push(role), members: self.members }
    }

    /// The guild once the platform has deleted the role `id`.
    pub open spec fn without_role(self, id: u64) -> GuildView {
        GuildView { roles: self.roles.filter(other_than(id)), members: self.members }
    }

    /// The guild once the platform has deleted the roles `ids`, one after
    /// the other.
    pub open spec fn without_roles(self, ids: Seq<u64>) -> GuildView
        decreases ids.len(),
    {
        if ids.len() == 0 {
            self
        } else {
            self.without_role(ids[0]).without_roles(ids.skip(1))
        }
    }

    /// The guild once the platform has given the role `id` to `user`.
    pub open spec fn with_grant(self, user: u64, id: u64) -> GuildView {
        GuildView { roles: self.roles, members: self.members.map_values(granting(user, id)) }
    }

    /// The guild once the platform has taken the roles `ids` from `user`.
    pub open spec fn without_grants(self, user: u64, ids: Seq<u64>) -> GuildView {
        GuildView { roles: self.roles, members: self.members.map_values(revoking(user, ids)) }
    }
}

impl Guild {
    /// A guild without roles or members.
    pub fn new() -> (g: Guild)
        ensures
            g@.roles.len() == 0,
            g@.members.len() == 0,
            g@.well_formed(),
    {
        Guild { roles: Vec::new(), members: Vec::new() }
    }

    /// Whether some role of the guild has the id `id`.
    pub fn has_role(&self, id: u64) -> (b: bool)
        ensures
            b == self@.has_role(id),
    {
        let n = self.roles.len();
        let mut i: usize = 0;
        while i < n
            invariant
                n == self.roles.len(),
                i <= n,
                forall|k: int| 0 <= k < i ==> (#[trigger] self@.roles[k]).id != id,
            decreases n - i,
        {
            if self.roles[i].id == id {
                assert(self@.roles[i as int].id == id);
                return true;
            }
            i += 1;
        }
        false
    }

    /// Takes `role` in as a role of the guild, unless a role of the guild
    /// has its id already: the guild is then left as it is, and the result
    /// is `false`. A well-formed guild stays well formed.
    pub fn insert_role(&mut self, role: Role) -> (taken: bool)
        ensures
            taken == !old(self)@.has_role(role.id),
            final(self)@ == if taken {
                old(self)@.with_role(role@)
            } else {
                old(self)@
            },
            old(self)@.well_formed() ==> final(self)@.well_formed(),
    {
        if self.has_role(role.id) {
            return false;
        }
        self.create_role(role);
        true
    }

    /// Takes `member` in as a member of the guild, unless a member of the
    /// guild is that user already: the guild is then left as it is, and
    /// the result is `false`. A well-formed guild stays well formed.
    pub fn insert_member(&mut self, member: Member) -> (taken: bool)
        ensures
            taken == old(self)@.member(member.user) is None,
            final(self)@ == if taken {
                old(self)@.with_member(member@)
            } else {
                old(self)@
            },
            old(self)@.well_formed() ==> final(self)@.well_formed(),
    {
        if self.member(member.user).is_some() {
            return false;
        }
        proof {
            lemma_first_member(self@.members, member.user);
        }
        let ghost before = self.members@;
        self.members.push(member);
        proof {
            assert(member_views(self.members@) =~= member_views(before).push(member@));
            if old(self)@.well_formed() {
                let after = self@;
                assert forall|i: int, j: int|
                    0 <= i < j < after.members.len() implies after.members[i].user
                    != after.members[j].user by {
                    if j < old(self)@.members.len() {
                        assert(old(self)@.members[i].user != old(self)@.members[j].user);
                    } else {
                        assert(old(self)@.members[i].user != member.user);
                    }
                }
            }
        }
        true
    }

    /// The role named `name`: the first, should several carry the name.
    pub fn role_by_name(&self, name: &str) -> (r: Option<&Role>)
        ensures
            match r {
                Some(role) => self@.role_named(name@) == Some(role@),
                None => self@.role_named(name@) is None,
            },
    {
        let wanted = String::from_str(name);
        let n = self.roles.len();
        let ghost all = self@.roles;
        let mut i: usize = 0;
        while i < n
            invariant
                n == self.roles.len(),
                all == self@.roles,
                i <= n,
                wanted@ == name@,
                first_named(all.take(i as int), name@) is None,
            decreases n - i,
        {
            proof {
                assert(all.take(i + 1).drop_last() =~= all.take(i as int));
            }
            if self.roles[i].name == wanted {
                proof {
                    lemma_first_named_prefix(all, name@, i + 1);
                }
                return Some(&self.roles[i]);
            }
            i += 1;
        }
        proof {
            assert(all.take(n as int) =~= all);
        }
        None
    }

    /// The member that is the user `user`.
    pub fn member(&self, user: u64) -> (r: Option<&Member>)
        ensures
            match r {
                Some(m) => self@.member(user) == Some(m@),
                None => self@.member(user) is None,
            },
    {
        let n = self.members.len();
        let ghost all = self@.members;
        let mut i: usize = 0;
        while i < n
            invariant
                n == self.members.len(),
                all == self@.members,
                i <= n,
                first_member(all.take(i as int), user) is None,
            decreases n - i,
        {
            proof {
                assert(all.take(i + 1).drop_last() =~= all.take(i as int));
            }
            if self.members[i].user == user {
                proof {
                    lemma_first_member_prefix(all, user, i + 1);
                }
                return Some(&self.members[i]);
            }
            i += 1;
        }
        proof {
            assert(all.take(n as int) =~= all);
        }
        None
    }

    /// Whether no two roles share an id and no two members are the same
    /// user.
    pub fn is_well_formed(&self) -> (b: bool)
        ensures
            b == self@.well_formed(),
    {
        let roles = self.roles.len();
        let mut j: usize = 0;
        while j < roles
            invariant
                roles == self.roles.len(),
                j <= roles,
                forall|a: int, b: int| 0 <= a < b < j ==> self@.roles[a].id != self@.roles[b].id,
            decreases roles - j,
        {
            let mut i: usize = 0;
            while i < j
                invariant
                    roles == self.roles.len(),
                    i <= j < roles,
                    forall|a: int| 0 <= a < i ==> self@.roles[a].id != self@.roles[j as int].id,
                decreases j - i,
            {
                if self.roles[i].id == self.roles[j].id {
                    assert(self@.roles[i as int].id == self@.roles[j as int].id);
                    return false;
                }
                i += 1;
            }
            j += 1;
        }
        let members = self.members.len();
        let mut j: usize = 0;
        while j < members
            invariant
                members == self.members.len(),
                j <= members,
                forall|a: int, b: int|
                    0 <= a < b < self@.roles.len() ==> self@.roles[a].id != self@.roles[b].id,
                forall|a: int, b: int|
                    0 <= a < b < j ==> self@.members[a].user != self@.members[b].user,
            decreases members - j,
        {
            let mut i: usize = 0;
            while i < j
                invariant
                    members == self.members.len(),
                    i <= j < members,
                    forall|a: int|
                        0 <= a < i ==> self@.members[a].user != self@.members[j as int].user,
                decreases j - i,
            {
                if self.members[i].user == self.members[j].user {
                    assert(self@.members[i as int].user == self@.members[j as int].user);
                    return false;
                }
                i += 1;
            }
            j += 1;
        }
        true
    }

    /// Whether some member holds the role `id`.
    pub fn is_used(&self, id: u64) -> (b: bool)
        ensures
            b == self@.in_use(id),
    {
        let n = self.members.len();
        let mut i: usize = 0;
        while i < n
            invariant
                n == self.members.len(),
                i <= n,
                forall|k: int| 0 <= k < i ==> !(#[trigger] self@.members[k]).roles.contains(id),
            decreases n - i,
        {
            if contains_id(&self.members[i].roles, id) {
                assert(self@.members[i as int].roles.contains(id));
                return true;
            }
            i += 1;
        }
        false
    }

    /// The ids of the colour roles of the guild that `held` names.
    pub fn colour_roles_among(&self, held: &Vec<u64>) -> (out: Vec<u64>)
        ensures
            out@ == self@.colour_roles_among(held@),
    {
        let n = self.roles.len();
        let ghost all = self@.roles;
        let ghost keep = held_colour(held@);
        let mut out: Vec<u64> = Vec::new();
        let mut i: usize = 0;
        while i < n
            invariant
                n == self.roles.len(),
                all == self@.roles,
                keep == held_colour(held@),
                i <= n,
                out@ == ids(all.take(i as int).filter(keep)),
            decreases n - i,
        {
            proof {
                assert(all.take(i + 1) =~= all.take(i as int).push(all[i as int]));
                all.take(i as int).lemma_filter_push(all[i as int], keep);
            }
            let role = &self.roles[i];
            if contains_id(held, role.id) && is_color_name_text(role.name.as_str()) {
                out.push(role.id);
                proof {
                    assert(ids(all.take(i as int).filter(keep).push(all[i as int])) =~= ids(
                        all.take(i as int).filter(keep),
                    ).push(all[i as int].id));
                }
            }
            i += 1;
        }
        proof {
            assert(all.take(n as int) =~= all);
        }
        out
    }

    /// Does to the guild what the platform does when it creates `role`.
    pub fn create_role(&mut self, role: Role)
        ensures
            final(self)@ == old(self)@.with_role(role@),
            old(self)@.well_formed() && !old(self)@.has_role(role.id)
                ==> final(self)@.well_formed(),
    {
        self.roles.push(role);
        proof {
            assert(role_views(self.roles@) =~= role_views(old(self).roles@).push(role@));
            if old(self)@.well_formed() && !old(self)@.has_role(role.id) {
                lemma_calls_keep_well_formed(old(self)@, 0, 0, Seq::empty(), role@);
            }
        }
    }

    /// Does to the guild what the platform does when it deletes the role
    /// `id`.
    pub fn delete_role(&mut self, id: u64)
        ensures
            final(self)@ == old(self)@.without_role(id),
            old(self)@.well_formed() ==> final(self)@.well_formed(),
    {
        let n = self.roles.len();
        let ghost all = self@.roles;
        let ghost keep = other_than(id);
        let mut kept: Vec<Role> = Vec::new();
        let mut i: usize = 0;
        while i < n
            invariant
                n == self.roles.len(),
                all == self@.roles,
                *self == *old(self),
                keep == other_than(id),
                i <= n,
                role_views(kept@) == all.take(i as int).filter(keep),
            decreases n - i,
        {
            proof {
                assert(all.take(i + 1) =~= all.take(i as int).push(all[i as int]));
                all.take(i as int).lemma_filter_push(all[i as int], keep);
            }
            if self.roles[i].id != id {
                let ghost before = kept@;
                let role = self.roles[i].clone();
                kept.push(role);
                proof {
                    assert(role_views(kept@) =~= role_views(before).push(all[i as int]));
                }
            }
            i += 1;
        }
        proof {
            assert(all.take(n as int) =~= all);
        }
        proof {
            if old(self)@.well_formed() {
                lemma_calls_keep_well_formed(old(self)@, 0, id, Seq::empty(), arbitrary());
            }
        }
        self.roles = kept;
    }

    /// Does to the guild what the platform does when it gives the role `id`
    /// to `user`.
    pub fn add_role(&mut self, user: u64, id: u64)
        ensures
            final(self)@ == old(self)@.with_grant(user, id),
            old(self)@.well_formed() ==> final(self)@.well_formed(),
    {
        let n = self.members.len();
        let ghost all = self@.members;
        let ghost change = granting(user, id);
        let mut changed: Vec<Member> = Vec::new();
        let mut i: usize = 0;
        while i < n
            invariant
                n == self.members.len(),
                all == self@.members,
                *self == *old(self),
                change == granting(user, id),
                i <= n,
                member_views(changed@) == all.take(i as int).map_values(change),
            decreases n - i,
        {
            let ghost before = changed@;
            let mut member = self.members[i].clone();
            if member.user == user && !contains_id(&member.roles, id) {
                member.roles.push(id);
            }
            changed.push(member);
            proof {
                assert(member@ == change(all[i as int]));
                assert(member_views(changed@) =~= member_views(before).push(member@));
                assert(all.take(i + 1).map_values(change) =~= all.take(i as int).map_values(
                    change,
                ).push(change(all[i as int])));
            }
            i += 1;
        }
        proof {
            assert(all.take(n as int) =~= all);
        }
        proof {
            if old(self)@.well_formed() {
                lemma_calls_keep_well_formed(old(self)@, user, id, Seq::empty(), arbitrary());
            }
        }
        self.members = changed;
    }

    /// Does to the guild what the platform does when it takes the roles
    /// `ids` from `user`.
    pub fn remove_roles(&mut self, user: u64, ids: &Vec<u64>)
        ensures
            final(self)@ == old(self)@.without_grants(user, ids@),
            old(self)@.well_formed() ==> final(self)@.well_formed(),
    {
        let n = self.members.len();
        let ghost all = self@.members;
        let ghost change = revoking(user, ids@);
        let mut changed: Vec<Member> = Vec::new();
        let mut i: usize = 0;
        while i < n
            invariant
                n == self.members.len(),
                all == self@.members,
                *self == *old(self),
                change == revoking(user, ids@),
                i <= n,
                member_views(changed@) == all.take(i as int).map_values(change),
            decreases n - i,
        {
            let ghost before = changed@;
            let member = if self.members[i].user == user {
                Member { user, roles: without_ids(&self.members[i].roles, ids) }
            } else {
                self.members[i].clone()
            };
            changed.push(member);
            proof {
                assert(member@ == change(all[i as int]));
                assert(member_views(changed@) =~= member_views(before).push(member@));
                assert(all.take(i + 1).map_values(change) =~= all.take(i as int).map_values(
                    change,
                ).push(change(all[i as int])));
            }
            i += 1;
        }
        proof {
            assert(all.take(n as int) =~= all);
        }
        proof {
            if old(self)@.well_formed() {
                lemma_calls_keep_well_formed(old(self)@, user, 0, ids@, arbitrary());
            }
        }
        self.members = changed;
    }
}

/// The ids of `list` that are none of `ids`, in the same order.
pub fn without_ids(list: &Vec<u64>, ids: &Vec<u64>) -> (out: Vec<u64>)
    ensures
        out@ == list@.filter(not_among(ids@)),
{
    let n = list.len();
    let ghost keep = not_among(ids@);
    let mut out: Vec<u64> = Vec::new();
    let mut i: usize = 0;
    while i < n
        invariant
            n == list.len(),
            keep == not_among(ids@),
            i <= n,
            out@ == list@.take(i as int).filter(keep),
        decreases n - i,
    {
        proof {
            assert(list@.take(i + 1) =~= list@.take(i as int).push(list@[i as int]));
            list@.take(i as int).lemma_filter_push(list@[i as int], keep);
        }
        if !contains_id(ids, list[i]) {
            out.push(list[i]);
        }
        i += 1;
    }
    proof {
        assert(list@.take(n as int) =~= list@);
    }
    out
}

/// Whether `id` is one of `list`.
pub fn contains_id(list: &Vec<u64>, id: u64) -> (b: bool)
    ensures
        b == list@.contains(id),
{
    let n = list.len();
    let mut i: usize = 0;
    while i < n
        invariant
            n == list.len(),
            i <= n,
            forall|k: int| 0 <= k < i ==> list@[k] != id,
        decreases n - i,
    {
        if list[i] == id {
            return true;
        }
        i += 1;
    }
    false
}

/// A copy of a list of ids.
pub fn copy_ids(list: &Vec<u64>) -> (out: Vec<u64>)
    ensures
        out@ == list@,
{
    let n = list.len();
    let mut out: Vec<u64> = Vec::new();
    let mut i: usize = 0;
    while i < n
        invariant
            n == list.len(),
            i <= n,
            out@ == list@.take(i as int),
        decreases n - i,
    {
        out.push(list[i]);
        proof {
            assert(list@.take(i + 1) =~= list@.take(i as int).push(list@[i as int]));
        }
        i += 1;
    }
    proof {
        assert(list@.take(n as int) =~= list@);
    }
    out
}

} // verus!
