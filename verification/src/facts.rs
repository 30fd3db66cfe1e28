//! Facts about sequences of roles and of members that the laws rest on.

use crate::guild::{
    first_member, first_named, ids, none_of, other_than, GuildView, MemberView, RoleView,
};
use vstd::prelude::*;

verus! {

/// What is in a filtered sequence: the items of the sequence that pass the
/// test.
pub(crate) proof fn lemma_filter_holds<A>(s: Seq<A>, keep: spec_fn(A) -> bool, x: A)
    ensures
        s.filter(keep).contains(x) <==> s.contains(x) && keep(x),
{
    if s.filter(keep).contains(x) {
        s.lemma_filter_contains_rev(keep, x);
        let k = choose|k: int| 0 <= k < s.filter(keep).len() && s.filter(keep)[k] == x;
        s.lemma_filter_pred(keep, k);
    }
    if s.contains(x) && keep(x) {
        let k = choose|k: int| 0 <= k < s.len() && s[k] == x;
        s.lemma_filter_contains(keep, k);
    }
}

/// Where the item at `k` is the only one that passes the test, the
/// filtered sequence holds that item and nothing else.
pub(crate) proof fn lemma_filter_only<A>(s: Seq<A>, keep: spec_fn(A) -> bool, k: int)
    requires
        0 <= k < s.len(),
        keep(s[k]),
        forall|i: int| 0 <= i < s.len() && i != k ==> !keep(#[trigger] s[i]),
    ensures
        s.filter(keep) == seq![s[k]],
    decreases s.len(),
{
    let front = s.drop_last();
    assert(s =~= front.push(s.last()));
    front.lemma_filter_push(s.last(), keep);
    if k == s.len() - 1 {
        lemma_filter_none(front, keep);
        assert(s.filter(keep) =~= seq![s[k]]);
    } else {
        lemma_filter_only(front, keep, k);
    }
}

/// Where no item passes the test, the filtered sequence is empty.
pub(crate) proof fn lemma_filter_none<A>(s: Seq<A>, keep: spec_fn(A) -> bool)
    requires
        forall|i: int| 0 <= i < s.len() ==> !keep(#[trigger] s[i]),
    ensures
        s.filter(keep) == Seq::<A>::empty(),
    decreases s.len(),
{
    if s.len() == 0 {
        assert(s =~= Seq::<A>::empty());
        s.lemma_filter_len(keep);
        assert(s.filter(keep) =~= Seq::<A>::empty());
    } else {
        let front = s.drop_last();
        assert(s =~= front.push(s.last()));
        front.lemma_filter_push(s.last(), keep);
        lemma_filter_none(front, keep);
    }
}

/// A role that was found carries the name and is one of the roles, and no
/// role before it carries the name; where none was found, no role carries
/// the name.
pub proof fn lemma_first_named(roles: Seq<RoleView>, name: Seq<char>)
    ensures
        match first_named(roles, name) {
            Some(r) => exists|k: int|
                0 <= k < roles.len() && roles[k] == r && r.name == name && forall|i: int|
                    0 <= i < k ==> (#[trigger] roles[i]).name != name,
            None => forall|i: int| 0 <= i < roles.len() ==> (#[trigger] roles[i]).name != name,
        },
    decreases roles.len(),
{
    if roles.len() > 0 {
        let front = roles.drop_last();
        lemma_first_named(front, name);
        match first_named(front, name) {
            Some(r) => {
                let k = choose|k: int|
                    0 <= k < front.len() && front[k] == r && r.name == name && forall|i: int|
                        0 <= i < k ==> (#[trigger] front[i]).name != name;
                assert(roles[k] == r);
                assert forall|i: int| 0 <= i < k implies (#[trigger] roles[i]).name != name by {
                    assert(front[i].name != name);
                }
            },
            None => {
                assert forall|i: int| 0 <= i < roles.len() - 1 implies (#[trigger] roles[i]).name
                    != name by {
                    assert(front[i].name != name);
                }
                if roles.last().name == name {
                    let k = roles.len() - 1;
                    assert(roles[k] == roles.last());
                }
            },
        }
    }
}

/// A member that was found is that user and is one of the members; where
/// none was found, no member is that user.
pub proof fn lemma_first_member(members: Seq<MemberView>, user: u64)
    ensures
        match first_member(members, user) {
            Some(m) => exists|k: int| 0 <= k < members.len() && members[k] == m && m.user == user,
            None => forall|i: int| 0 <= i < members.len() ==> (#[trigger] members[i]).user != user,
        },
    decreases members.len(),
{
    if members.len() > 0 {
        let front = members.drop_last();
        lemma_first_member(front, user);
        match first_member(front, user) {
            Some(m) => {
                let k = choose|k: int| 0 <= k < front.len() && front[k] == m && m.user == user;
                assert(members[k] == m);
            },
            None => {
                assert forall|i: int| 0 <= i < members.len() - 1 implies (
                #[trigger] members[i]).user != user by {
                    assert(front[i].user != user);
                }
                if members.last().user == user {
                    let k = members.len() - 1;
                    assert(members[k] == members.last());
                }
            },
        }
    }
}

/// A change to every member that leaves each member the user it was finds,
/// for a user, the member found before, changed.
pub(crate) proof fn lemma_first_member_changed(
    members: Seq<MemberView>,
    change: spec_fn(MemberView) -> MemberView,
    user: u64,
)
    requires
        forall|m: MemberView| (#[trigger] change(m)).user == m.user,
    ensures
        first_member(members.map_values(change), user) == match first_member(members, user) {
            Some(m) => Some(change(m)),
            None => None,
        },
    decreases members.len(),
{
    if members.len() > 0 {
        let front = members.drop_last();
        lemma_first_member_changed(front, change, user);
        assert(members.map_values(change).drop_last() =~= front.map_values(change));
    }
}

/// Filtering twice keeps what passes both tests.
pub(crate) proof fn lemma_filter_twice<A>(
    s: Seq<A>,
    first: spec_fn(A) -> bool,
    second: spec_fn(A) -> bool,
    both: spec_fn(A) -> bool,
)
    requires
        forall|x: A| #[trigger] both(x) == (first(x) && second(x)),
    ensures
        s.filter(first).filter(second) == s.filter(both),
    decreases s.len(),
{
    if s.len() == 0 {
        lemma_filter_none(s, first);
        lemma_filter_none(s, both);
        lemma_filter_none(Seq::<A>::empty(), second);
    } else {
        let front = s.drop_last();
        assert(s =~= front.push(s.last()));
        front.lemma_filter_push(s.last(), first);
        front.lemma_filter_push(s.last(), both);
        front.filter(first).lemma_filter_push(s.last(), second);
        lemma_filter_twice(front, first, second, both);
    }
}

/// The ids of some roles hold an id exactly when one of the roles has it.
pub(crate) proof fn lemma_ids_hold(roles: Seq<RoleView>, id: u64)
    ensures
        ids(roles).contains(id) <==> exists|i: int|
            0 <= i < roles.len() && (#[trigger] roles[i]).id == id,
{
    if ids(roles).contains(id) {
        let k = choose|k: int| 0 <= k < ids(roles).len() && ids(roles)[k] == id;
        assert(roles[k].id == id);
    }
    if exists|i: int| 0 <= i < roles.len() && (#[trigger] roles[i]).id == id {
        let k = choose|k: int| 0 <= k < roles.len() && (#[trigger] roles[k]).id == id;
        assert(ids(roles)[k] == id);
    }
}

/// What the deletion of several roles leaves: the members, and the roles
/// whose id is none of those deleted.
pub proof fn lemma_without_roles(g: GuildView, gone: Seq<u64>)
    ensures
        g.without_roles(gone).members == g.members,
        g.without_roles(gone).roles == g.roles.filter(none_of(gone)),
    decreases gone.len(),
{
    if gone.len() == 0 {
        assert forall|i: int| 0 <= i < g.roles.len() implies none_of(gone)(
            #[trigger] g.roles[i],
        ) by {}
        lemma_filter_all(g.roles, none_of(gone));
    } else {
        let rest = gone.skip(1);
        let once = g.without_role(gone[0]);
        lemma_without_roles(once, rest);
        assert forall|r: RoleView| #[trigger]
            none_of(gone)(r) == (other_than(gone[0])(r) && none_of(rest)(r)) by {
            if gone.contains(r.id) {
                let k = choose|k: int| 0 <= k < gone.len() && gone[k] == r.id;
                if k > 0 {
                    assert(rest[k - 1] == r.id);
                }
            }
            if rest.contains(r.id) {
                let k = choose|k: int| 0 <= k < rest.len() && rest[k] == r.id;
                assert(gone[k + 1] == r.id);
            }
            if r.id == gone[0] {
                assert(gone.contains(r.id));
            }
        }
        lemma_filter_twice(g.roles, other_than(gone[0]), none_of(rest), none_of(gone));
    }
}

/// Where every item passes the test, the filtered sequence is the
/// sequence.
pub(crate) proof fn lemma_filter_all<A>(s: Seq<A>, keep: spec_fn(A) -> bool)
    requires
        forall|i: int| 0 <= i < s.len() ==> keep(#[trigger] s[i]),
    ensures
        s.filter(keep) == s,
    decreases s.len(),
{
    if s.len() == 0 {
        s.lemma_filter_len(keep);
        assert(s.filter(keep) =~= s);
    } else {
        let front = s.drop_last();
        assert(s =~= front.push(s.last()));
        front.lemma_filter_push(s.last(), keep);
        lemma_filter_all(front, keep);
    }
}

/// Filtering roles that have no id in common leaves roles that have no id
/// in common.
pub(crate) proof fn lemma_filter_keeps_ids_apart(
    roles: Seq<RoleView>,
    keep: spec_fn(RoleView) -> bool,
)
    requires
        forall|i: int, j: int| 0 <= i < j < roles.len() ==> roles[i].id != roles[j].id,
    ensures
        forall|i: int, j: int|
            0 <= i < j < roles.filter(keep).len() ==> roles.filter(keep)[i].id != roles.filter(
                keep,
            )[j].id,
    decreases roles.len(),
{
    if roles.len() == 0 {
        roles.lemma_filter_len(keep);
    } else {
        let front = roles.drop_last();
        let last = roles.last();
        assert(roles =~= front.push(last));
        front.lemma_filter_push(last, keep);
        assert forall|i: int, j: int| 0 <= i < j < front.len() implies front[i].id
            != front[j].id by {
            assert(roles[i].id != roles[j].id);
        }
        lemma_filter_keeps_ids_apart(front, keep);
        let kept = front.filter(keep);
        if keep(last) {
            assert forall|i: int| 0 <= i < kept.len() implies kept[i].id != last.id by {
                assert(kept.contains(kept[i]));
                lemma_filter_holds(front, keep, kept[i]);
                let k = choose|k: int| 0 <= k < front.len() && front[k] == kept[i];
                assert(roles[k].id != roles[roles.len() - 1].id);
            }
        }
    }
}

/// A role found by name is found by the same name among the roles that
/// pass a test, if it passes the test itself.
pub(crate) proof fn lemma_first_named_filtered(
    roles: Seq<RoleView>,
    keep: spec_fn(RoleView) -> bool,
    name: Seq<char>,
)
    requires
        first_named(roles, name) matches Some(found) && keep(found),
    ensures
        first_named(roles.filter(keep), name) == first_named(roles, name),
    decreases roles.len(),
{
    let front = roles.drop_last();
    let last = roles.last();
    assert(roles =~= front.push(last));
    front.lemma_filter_push(last, keep);
    let kept = front.filter(keep);
    if keep(last) {
        assert(kept.push(last).drop_last() =~= kept);
    }
    if first_named(front, name) is Some {
        lemma_first_named_filtered(front, keep, name);
    } else {
        lemma_first_named(front, name);
        lemma_first_named(kept, name);
        if first_named(kept, name) is Some {
            let r = first_named(kept, name)->0;
            lemma_filter_holds(front, keep, r);
            let k = choose|k: int| 0 <= k < front.len() && front[k] == r;
            assert(front[k].name != name);
        }
    }
}

} // verus!
