//! What holds of colour names, of the role for a colour, of an assignment
//! and of the collection of orphans, for every guild.

use crate::colour::{
    channel_value, hex_char, hex_value, is_color_name, is_hex_digit, named_colour, parsed, Colour,
};
use crate::facts::{
    lemma_filter_holds, lemma_filter_none, lemma_filter_only, lemma_filter_twice,
    lemma_first_member, lemma_first_member_changed, lemma_first_named,
    lemma_first_named_filtered, lemma_filter_keeps_ids_apart, lemma_ids_hold,
    lemma_without_roles,
};
use crate::guild::{
    granting, held_colour, ids, none_of, not_among, other_than, revoking, GuildView, RoleView,
};
use crate::handler::{anchor_name, new_role_for};
use crate::transaction::{collected, reassigned, resolved_guild, settled};
use vstd::prelude::*;

verus! {

/// The hexadecimal digit `c` in lower case.
pub open spec fn lower(c: char) -> char {
    if 'A' <= c && c <= 'F' {
        (c as int + 32) as char
    } else {
        c
    }
}

/// The text `s` with its hexadecimal digits in lower case.
pub open spec fn lower_case(s: Seq<char>) -> Seq<char> {
    s.map_values(|c: char| lower(c))
}

/// The digit for a number below sixteen is a hexadecimal digit, and stands
/// for that number.
proof fn lemma_digit_of_value(d: int)
    requires
        0 <= d < 16,
    ensures
        is_hex_digit(hex_char(d)),
        hex_value(hex_char(d)) == d,
{
}

/// Two hexadecimal digits are the digits of the number they write.
proof fn lemma_digits_of_channel(hi: char, lo: char)
    requires
        is_hex_digit(hi),
        is_hex_digit(lo),
    ensures
        0 <= channel_value(hi, lo) < 256,
        hex_char(channel_value(hi, lo) / 16) == lower(hi),
        hex_char(channel_value(hi, lo) % 16) == lower(lo),
{
}

/// Reading the canonical name of a colour gives that colour back.
pub proof fn lemma_name_round_trip(c: Colour)
    ensures
        is_color_name(c.name_spec()),
        parsed(c.name_spec()) == Some(c),
{
    let s = c.name_spec();
    lemma_digit_of_value(c.red as int / 16);
    lemma_digit_of_value(c.red as int % 16);
    lemma_digit_of_value(c.green as int / 16);
    lemma_digit_of_value(c.green as int % 16);
    lemma_digit_of_value(c.blue as int / 16);
    lemma_digit_of_value(c.blue as int % 16);
    assert(is_color_name(s)) by {
        assert forall|i: int| 1 <= i < 7 implies is_hex_digit(#[trigger] s[i]) by {
            if i == 1 {
            } else if i == 2 {
            } else if i == 3 {
            } else if i == 4 {
            } else if i == 5 {
            } else {
            }
        }
    }
    assert(named_colour(s) == c);
}

/// The number of a colour holds its channels in its low three bytes, red
/// highest.
pub proof fn lemma_value_round_trip(c: Colour)
    ensures
        0 <= c.value_spec() <= 0xFF_FFFF,
        (c.value_spec() / 65536) % 256 == c.red,
        (c.value_spec() / 256) % 256 == c.green,
        c.value_spec() % 256 == c.blue,
{
}

/// Either case of a digit reads the same: the colour read from a colour
/// name has that name, in lower case, as its canonical name.
pub proof fn lemma_canonical_name_is_lower_case(s: Seq<char>)
    requires
        is_color_name(s),
    ensures
        named_colour(s).name_spec() == lower_case(s),
        parsed(lower_case(s)) == parsed(s),
{
    lemma_digits_of_channel(s[1], s[2]);
    lemma_digits_of_channel(s[3], s[4]);
    lemma_digits_of_channel(s[5], s[6]);
    assert(named_colour(s).name_spec() =~= lower_case(s));
    lemma_name_round_trip(named_colour(s));
}

/// A text of another length than seven characters, a text that does not
/// begin with `#`, and a text with anything but a hexadecimal digit after
/// its first character are not read as a colour.
pub proof fn lemma_only_colour_names_are_read(s: Seq<char>)
    ensures
        s.len() != 7 ==> parsed(s) is None,
        s.len() > 0 && s[0] != '#' ==> parsed(s) is None,
        (exists|i: int| 1 <= i < s.len() && i < 7 && !is_hex_digit(s[i])) ==> parsed(s) is None,
{
}

/// A colour name with anything before it or after it is not read as a
/// colour: the name must be the whole text.
pub proof fn lemma_embedded_names_are_not_read(
    before: Seq<char>,
    name: Seq<char>,
    after: Seq<char>,
)
    requires
        is_color_name(name),
        before.len() + after.len() > 0,
    ensures
        parsed(before + name + after) is None,
{
    assert((before + name + after).len() == before.len() + 7 + after.len());
}

/// The resolver is idempotent. Once its answer for a colour has been
/// carried out, the role for the colour exists; asked again, the resolver
/// finds that same role, however often, and asks for nothing to be
/// created. The anchor is found as before.
pub proof fn lemma_resolution_is_idempotent(g: GuildView, colour: Colour, id: u64, again: u64)
    requires
        g.role_named(anchor_name()) is Some,
    ensures
        ({
            let once = resolved_guild(g, colour, id);
            let anchor = g.role_named(anchor_name())->0;
            &&& once.role_named(anchor_name()) == Some(anchor)
            &&& once.role_named(colour.name_spec()) == match g.role_named(colour.name_spec()) {
                Some(role) => Some(role),
                None => Some(new_role_for(colour, anchor).role(id)),
            }
            &&& resolved_guild(once, colour, again) == once
        }),
{
    let anchor = g.role_named(anchor_name())->0;
    if g.role_named(colour.name_spec()) is None {
        let created = new_role_for(colour, anchor).role(id);
        assert(g.roles.push(created).drop_last() =~= g.roles);
    }
}

/// The resolver creates no second role for a colour: where no two colour
/// roles of a guild carry the same name, none do once its answer has been
/// carried out.
pub proof fn lemma_resolution_keeps_names_unique(g: GuildView, colour: Colour, id: u64)
    requires
        g.colour_names_unique(),
    ensures
        resolved_guild(g, colour, id).colour_names_unique(),
{
    let after = resolved_guild(g, colour, id);
    if after != g {
        lemma_first_named(g.roles, colour.name_spec());
        assert forall|i: int, j: int|
            0 <= i < j < after.roles.len() && is_color_name(
                after.roles[i].name,
            ) implies after.roles[i].name != after.roles[j].name by {
            if j < g.roles.len() {
                assert(g.roles[i].name != g.roles[j].name);
            } else {
                assert(g.roles[i].name != colour.name_spec());
            }
        }
    }
}

/// A role created under an id that no role of the guild has leaves the
/// guild well formed.
pub proof fn lemma_resolution_keeps_well_formed(g: GuildView, colour: Colour, id: u64)
    requires
        g.well_formed(),
        forall|i: int| 0 <= i < g.roles.len() ==> (#[trigger] g.roles[i]).id != id,
    ensures
        resolved_guild(g, colour, id).well_formed(),
{
    let after = resolved_guild(g, colour, id);
    if after != g {
        assert forall|i: int, j: int| 0 <= i < j < after.roles.len() implies after.roles[i].id
            != after.roles[j].id by {
            if j < g.roles.len() {
                assert(g.roles[i].id != g.roles[j].id);
            } else {
                assert(g.roles[i].id != id);
            }
        }
    }
}

/// The orphans are the colour roles that no member holds, but for the
/// exempt role, and nothing else: no role that a member holds is among
/// them, nor the exempt role, and every other colour role is.
pub proof fn lemma_orphans_are_the_unheld(g: GuildView, exempt: u64, id: u64)
    ensures
        g.orphans(exempt).contains(id) <==> id != exempt && !g.in_use(id) && exists|i: int|
            0 <= i < g.roles.len() && (#[trigger] g.roles[i]).id == id && is_color_name(
                g.roles[i].name,
            ),
{
    let keep = g.is_orphan(exempt);
    let kept = g.roles.filter(keep);
    lemma_ids_hold(kept, id);
    if g.orphans(exempt).contains(id) {
        let k = choose|k: int| 0 <= k < kept.len() && (#[trigger] kept[k]).id == id;
        lemma_filter_holds(g.roles, keep, kept[k]);
        let i = choose|i: int| 0 <= i < g.roles.len() && g.roles[i] == kept[k];
        assert(g.roles[i].id == id && is_color_name(g.roles[i].name));
    }
    if id != exempt && !g.in_use(id) && exists|i: int|
        0 <= i < g.roles.len() && (#[trigger] g.roles[i]).id == id && is_color_name(
            g.roles[i].name,
        ) {
        let i = choose|i: int|
            0 <= i < g.roles.len() && (#[trigger] g.roles[i]).id == id && is_color_name(
                g.roles[i].name,
            );
        lemma_filter_holds(g.roles, keep, g.roles[i]);
        let k = choose|k: int| 0 <= k < kept.len() && kept[k] == g.roles[i];
        assert(kept[k].id == id);
    }
}

/// The collection deletes no role that a member holds, and not the exempt
/// role; it changes no member.
pub proof fn lemma_collection_spares_held_and_exempt(g: GuildView, exempt: u64, role: RoleView)
    requires
        g.roles.contains(role),
        g.in_use(role.id) || role.id == exempt,
    ensures
        collected(g, exempt).roles.contains(role),
        collected(g, exempt).members == g.members,
{
    lemma_without_roles(g, g.orphans(exempt));
    lemma_orphans_are_the_unheld(g, exempt, role.id);
    lemma_filter_holds(g.roles, none_of(g.orphans(exempt)), role);
}

/// The collection deletes colour roles only: in a well-formed guild, a
/// role whose name is no colour name stays.
pub proof fn lemma_collection_spares_other_roles(g: GuildView, exempt: u64, role: RoleView)
    requires
        g.well_formed(),
        g.roles.contains(role),
        !is_color_name(role.name),
    ensures
        collected(g, exempt).roles.contains(role),
{
    lemma_without_roles(g, g.orphans(exempt));
    lemma_orphans_are_the_unheld(g, exempt, role.id);
    lemma_filter_holds(g.roles, none_of(g.orphans(exempt)), role);
    if g.orphans(exempt).contains(role.id) {
        let i = choose|i: int|
            0 <= i < g.roles.len() && (#[trigger] g.roles[i]).id == role.id && is_color_name(
                g.roles[i].name,
            );
        let k = choose|k: int| 0 <= k < g.roles.len() && g.roles[k] == role;
        if i < k {
            assert(g.roles[i].id != g.roles[k].id);
        } else if k < i {
            assert(g.roles[k].id != g.roles[i].id);
        }
    }
}

/// The collection is idempotent: once the orphans are deleted, none is
/// left, and a second collection changes nothing.
pub proof fn lemma_collection_is_idempotent(g: GuildView, exempt: u64)
    ensures
        collected(g, exempt).orphans(exempt) == Seq::<u64>::empty(),
        collected(collected(g, exempt), exempt) == collected(g, exempt),
{
    let after = collected(g, exempt);
    lemma_without_roles(g, g.orphans(exempt));
    assert forall|i: int| 0 <= i < after.roles.len() implies !after.is_orphan(exempt)(
        #[trigger] after.roles[i],
    ) by {
        let r = after.roles[i];
        assert(after.roles.contains(r));
        lemma_filter_holds(g.roles, none_of(g.orphans(exempt)), r);
        if after.is_orphan(exempt)(r) {
            assert(!g.in_use(r.id));
            let k = choose|k: int| 0 <= k < g.roles.len() && g.roles[k] == r;
            lemma_orphans_are_the_unheld(g, exempt, r.id);
        }
    }
    lemma_filter_none(after.roles, after.is_orphan(exempt));
    assert(after.orphans(exempt) =~= Seq::<u64>::empty());
}

/// An assignment is exclusive. In a well-formed guild that holds the role
/// for a colour, once a member has been assigned the colour, the member
/// holds exactly one colour role, and it is the role for that colour. This
/// holds however many colour roles the member held before, and still holds
/// once the orphans have been collected; the roles of the guild and the
/// other members are as they were after the assignment.
pub proof fn lemma_assignment_is_exclusive(g: GuildView, user: u64, colour: Colour)
    requires
        g.well_formed(),
        g.member(user) is Some,
        g.role_named(colour.name_spec()) is Some,
    ensures
        ({
            let target = g.role_named(colour.name_spec())->0;
            let after = reassigned(g, user, target.id);
            let at_rest = collected(after, target.id);
            &&& after.roles == g.roles
            &&& after.member(user) matches Some(m) && after.colour_roles_among(m.roles)
                == seq![target.id]
            &&& at_rest.member(user) matches Some(m) && at_rest.colour_roles_among(m.roles)
                == seq![target.id]
            &&& forall|other: u64| other != user ==> after.member(other) == g.member(other)
        }),
{
    let target = g.role_named(colour.name_spec())->0;
    let before = g.member(user)->0;
    let removed = g.colour_roles_among(before.roles);
    let revoke = revoking(user, removed);
    let grant = granting(user, target.id);
    let stripped = g.without_grants(user, removed);
    let after = reassigned(g, user, target.id);
    let at_rest = collected(after, target.id);

    lemma_first_member(g.members, user);
    lemma_first_member_changed(g.members, revoke, user);
    lemma_first_member_changed(stripped.members, grant, user);
    let m = grant(revoke(before));
    assert(after.member(user) == Some(m));

    assert forall|other: u64| other != user implies after.member(other) == g.member(other) by {
        lemma_first_member(g.members, other);
        lemma_first_member_changed(g.members, revoke, other);
        lemma_first_member_changed(stripped.members, grant, other);
    }

    lemma_first_named(g.roles, colour.name_spec());
    lemma_name_round_trip(colour);
    let k = choose|k: int| 0 <= k < g.roles.len() && g.roles[k] == target;
    let held = held_colour(m.roles);
    assert(m.roles.contains(target.id)) by {
        let base = revoke(before).roles;
        if !base.contains(target.id) {
            assert(base.push(target.id)[base.len() as int] == target.id);
        }
    }
    assert forall|i: int| 0 <= i < g.roles.len() && i != k implies !held(#[trigger] g.roles[i]) by {
        let r = g.roles[i];
        if i < k {
            assert(g.roles[i].id != g.roles[k].id);
        } else {
            assert(g.roles[k].id != g.roles[i].id);
        }
        if m.roles.contains(r.id) && is_color_name(r.name) {
            let base = revoke(before).roles;
            assert(base.contains(r.id)) by {
                let j = choose|j: int| 0 <= j < m.roles.len() && m.roles[j] == r.id;
                if !base.contains(target.id) {
                    assert(m.roles == base.push(target.id));
                    assert(j < base.len());
                    assert(base[j] == r.id);
                }
            }
            lemma_filter_holds(before.roles, not_among(removed), r.id);
            lemma_filter_holds(g.roles, held_colour(before.roles), r);
            lemma_ids_hold(g.roles.filter(held_colour(before.roles)), r.id);
            let f = g.roles.filter(held_colour(before.roles));
            let w = choose|w: int| 0 <= w < f.len() && f[w] == r;
            assert(f[w].id == r.id);
        }
    }
    lemma_filter_only(g.roles, held, k);
    assert(ids(seq![target]) =~= seq![target.id]);

    let gone = after.orphans(target.id);
    lemma_without_roles(after, gone);
    lemma_orphans_are_the_unheld(after, target.id, target.id);
    let stays = none_of(gone);
    let both = |r: RoleView| stays(r) && held(r);
    lemma_filter_twice(g.roles, stays, held, both);
    assert forall|i: int| 0 <= i < g.roles.len() && i != k implies !both(#[trigger] g.roles[i]) by {
        assert(!held(g.roles[i]));
    }
    lemma_filter_only(g.roles, both, k);
}

/// No call on the platform makes a well-formed guild ill formed: not the
/// giving or taking of roles, not the deletion of roles, and not the
/// creation of a role under an id that no role of the guild has.
pub proof fn lemma_calls_keep_well_formed(
    g: GuildView,
    user: u64,
    id: u64,
    gone: Seq<u64>,
    role: RoleView,
)
    requires
        g.well_formed(),
    ensures
        g.with_grant(user, id).well_formed(),
        g.without_grants(user, gone).well_formed(),
        g.without_role(id).well_formed(),
        g.without_roles(gone).well_formed(),
        (forall|i: int| 0 <= i < g.roles.len() ==> (#[trigger] g.roles[i]).id != role.id)
            ==> g.with_role(role).well_formed(),
{
    assert(g.with_grant(user, id).well_formed()) by {
        let after = g.with_grant(user, id);
        assert forall|i: int, j: int| 0 <= i < j < after.members.len() implies after.members[i].user
            != after.members[j].user by {
            assert(g.members[i].user != g.members[j].user);
        }
    }
    assert(g.without_grants(user, gone).well_formed()) by {
        let after = g.without_grants(user, gone);
        assert forall|i: int, j: int| 0 <= i < j < after.members.len() implies after.members[i].user
            != after.members[j].user by {
            assert(g.members[i].user != g.members[j].user);
        }
    }
    lemma_filter_keeps_ids_apart(g.roles, other_than(id));
    lemma_without_roles(g, gone);
    lemma_filter_keeps_ids_apart(g.roles, none_of(gone));
    if forall|i: int| 0 <= i < g.roles.len() ==> (#[trigger] g.roles[i]).id != role.id {
        let after = g.with_role(role);
        assert forall|i: int, j: int| 0 <= i < j < after.roles.len() implies after.roles[i].id
            != after.roles[j].id by {
            if j < g.roles.len() {
                assert(g.roles[i].id != g.roles[j].id);
            } else {
                assert(g.roles[i].id != role.id);
            }
        }
    }
}

/// What an assignment leaves, once every call has succeeded. In a
/// well-formed guild with an anchor, where a created role gets an id that
/// no role has: the guild is well formed; the anchor is found as before;
/// the role for the colour is found, and is the role that was resolved;
/// the member holds exactly one colour role, and it is that role; and no
/// orphan is left but, at most, that role.
pub proof fn lemma_assignment_settles(g: GuildView, user: u64, colour: Colour, id: u64)
    requires
        g.well_formed(),
        g.role_named(anchor_name()) is Some,
        g.member(user) is Some,
        forall|i: int| 0 <= i < g.roles.len() ==> (#[trigger] g.roles[i]).id != id,
    ensures
        ({
            let after = settled(g, user, colour, id);
            &&& after.well_formed()
            &&& after.role_named(anchor_name()) == g.role_named(anchor_name())
            &&& after.role_named(colour.name_spec()) == resolved_guild(
                g,
                colour,
                id,
            ).role_named(colour.name_spec())
            &&& after.role_named(colour.name_spec()) matches Some(target) && after.member(user)
                matches Some(m) && after.colour_roles_among(m.roles) == seq![target.id]
                && after.orphans(target.id) == Seq::<u64>::empty()
        }),
{
    let name = colour.name_spec();
    let resolved = resolved_guild(g, colour, id);
    lemma_resolution_is_idempotent(g, colour, id, id);
    lemma_resolution_keeps_well_formed(g, colour, id);
    let target = resolved.role_named(name)->0;
    let anchor = g.role_named(anchor_name())->0;
    let given = reassigned(resolved, user, target.id);
    let after = collected(given, target.id);
    assert(after == settled(g, user, colour, id));

    lemma_assignment_is_exclusive(resolved, user, colour);
    let before = resolved.member(user)->0;
    let taken = resolved.colour_roles_among(before.roles);
    lemma_calls_keep_well_formed(resolved, user, target.id, taken, target);
    lemma_calls_keep_well_formed(
        resolved.without_grants(user, taken),
        user,
        target.id,
        taken,
        target,
    );
    let gone = given.orphans(target.id);
    lemma_calls_keep_well_formed(given, user, target.id, gone, target);
    lemma_collection_is_idempotent(given, target.id);

    lemma_without_roles(given, gone);
    lemma_first_named(given.roles, name);
    lemma_first_named(given.roles, anchor_name());
    lemma_orphans_are_the_unheld(given, target.id, target.id);
    lemma_first_named_filtered(given.roles, none_of(gone), name);
    assert(none_of(gone)(anchor)) by {
        lemma_orphans_are_the_unheld(given, target.id, anchor.id);
        if gone.contains(anchor.id) {
            let i = choose|i: int|
                0 <= i < given.roles.len() && (#[trigger] given.roles[i]).id == anchor.id
                    && is_color_name(given.roles[i].name);
            let k = choose|k: int| 0 <= k < given.roles.len() && given.roles[k] == anchor;
            assert(!is_color_name(anchor.name));
            if i < k {
                assert(given.roles[i].id != given.roles[k].id);
            } else if k < i {
                assert(given.roles[k].id != given.roles[i].id);
            }
        }
    }
    lemma_first_named_filtered(given.roles, none_of(gone), anchor_name());
}

} // verus!
