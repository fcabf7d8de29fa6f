//! Emoji reactions on a message: who reacted, and how many.

use vstd::prelude::*;

use crate::models::{JsonMap, Message, Reaction, ReactionModel, reactions_view, strings_view};

verus! {

/// Index of the first reaction named `name`, or `s.len()` if there is none.
pub open spec fn find_reaction(s: Seq<ReactionModel>, name: Seq<char>) -> nat
    decreases s.len(),
{
    if s.len() == 0 {
        0
    } else if s[0].name == name {
        0
    } else {
        1 + find_reaction(s.drop_first(), name)
    }
}

/// `reaction_has_user`: a non-empty user id listed among the reaction's users.
pub open spec fn has_user(r: ReactionModel, user: Seq<char>) -> bool {
    user.len() > 0 && r.users.contains(user)
}

/// `s` without any occurrence of `x`.
pub open spec fn without(s: Seq<Seq<char>>, x: Seq<char>) -> Seq<Seq<char>>
    decreases s.len(),
{
    if s.len() == 0 {
        Seq::empty()
    } else if s.last() == x {
        without(s.drop_last(), x)
    } else {
        without(s.drop_last(), x).push(s.last())
    }
}

pub open spec fn sat_add_one(c: u32) -> u32 {
    if c == u32::MAX {
        c
    } else {
        (c + 1) as u32
    }
}

pub open spec fn sat_sub_one(c: u32) -> u32 {
    if c == 0 {
        0
    } else {
        (c - 1) as u32
    }
}

/// The reactions after `user` adds (or removes) the reaction `name`, and
/// whether anything changed.
pub open spec fn reacted(s: Seq<ReactionModel>, user: Seq<char>, name: Seq<char>, added: bool) -> (
    Seq<ReactionModel>,
    bool,
) {
    let i = find_reaction(s, name) as int;
    if name.len() == 0 {
        (s, false)
    } else if added {
        if i < s.len() {
            let r = s[i];
            if has_user(r, user) {
                (s, false)
            } else {
                let users = if user.len() > 0 {
                    r.users.push(user)
                } else {
                    r.users
                };
                (s.update(i, ReactionModel { users, count: sat_add_one(r.count), ..r }), true)
            }
        } else {
            let users = if user.len() > 0 {
                seq![user]
            } else {
                Seq::empty()
            };
            (s.push(ReactionModel { name, users, count: 1, extra: Seq::empty() }), true)
        }
    } else {
        if i < s.len() {
            let r = s[i];
            let users = without(r.users, user);
            let count = if users.len() != r.users.len() || users.len() == 0 {
                sat_sub_one(r.count)
            } else {
                r.count
            };
            if count == 0 {
                (s.remove(i), true)
            } else {
                (s.update(i, ReactionModel { users, count, ..r }), true)
            }
        } else {
            (s, false)
        }
    }
}

proof fn lemma_find_reaction(s: Seq<ReactionModel>, name: Seq<char>, i: int)
    requires
        0 <= i <= s.len(),
        forall|k: int| 0 <= k < i ==> (#[trigger] s[k]).name != name,
        i == s.len() || s[i].name == name,
    ensures
        find_reaction(s, name) == i,
    decreases s.len(),
{
    if s.len() > 0 && i > 0 {
        assert(s[0].name != name);
        assert forall|k: int| 0 <= k < i - 1 implies (#[trigger] s.drop_first()[k]).name != name by {
            assert(s.drop_first()[k] == s[k + 1]);
        }
        lemma_find_reaction(s.drop_first(), name, i - 1);
    }
}

proof fn lemma_without_len(s: Seq<Seq<char>>, x: Seq<char>)
    ensures
        without(s, x).len() <= s.len(),
        without(s, x).len() == s.len() <==> !s.contains(x),
        !without(s, x).contains(x),
    decreases s.len(),
{
    if s.len() > 0 {
        lemma_without_len(s.drop_last(), x);
        if s.last() == x {
            assert(s.contains(x)) by {
                assert(s[s.len() - 1] == x);
            }
        } else {
            assert(s.contains(x) == s.drop_last().contains(x)) by {
                if s.contains(x) {
                    let j = choose|j: int| 0 <= j < s.len() && s[j] == x;
                    assert(s.drop_last()[j] == x);
                }
                if s.drop_last().contains(x) {
                    let j = choose|j: int| 0 <= j < s.drop_last().len() && s.drop_last()[j] == x;
                    assert(s[j] == x);
                }
            }
            let w = without(s.drop_last(), x);
            assert(!w.push(s.last()).contains(x)) by {
                if w.push(s.last()).contains(x) {
                    let j = choose|j: int| 0 <= j < w.push(s.last()).len() && w.push(s.last())[j] == x;
                    if j < w.len() {
                        assert(w[j] == x);
                    }
                }
            }
        }
    }
}

proof fn lemma_without_absent(s: Seq<Seq<char>>, x: Seq<char>)
    requires
        !s.contains(x),
    ensures
        without(s, x) == s,
    decreases s.len(),
{
    if s.len() > 0 {
        assert(s.last() != x) by {
            assert(s[s.len() - 1] == s.last());
        }
        assert(!s.drop_last().contains(x)) by {
            if s.drop_last().contains(x) {
                let j = choose|j: int| 0 <= j < s.drop_last().len() && s.drop_last()[j] == x;
                assert(s[j] == x);
            }
        }
        lemma_without_absent(s.drop_last(), x);
        assert(s.drop_last().push(s.last()) =~= s);
    }
}

/// Did `user` (a non-empty id) add this reaction?
pub fn reaction_has_user(reaction: &Reaction, user: &str) -> (r: bool)
    ensures
        r == has_user(reaction@, user@),
{
    if user.unicode_len() == 0 {
        return false;
    }
    assert(reaction@.users == strings_view(reaction.users@));
    let mut i: usize = 0;
    while i < reaction.users.len()
        invariant
            i <= reaction.users@.len(),
            user@.len() > 0,
            forall|k: int| 0 <= k < i ==> (#[trigger] reaction.users@[k])@ != user@,
        decreases reaction.users.len() - i,
    {
        if crate::text::str_eq(reaction.users[i].as_str(), user) {
            assert(strings_view(reaction.users@)[i as int] == user@);
            assert(strings_view(reaction.users@).contains(user@));
            return true;
        }
        i = i + 1;
    }
    assert(!strings_view(reaction.users@).contains(user@)) by {
        if strings_view(reaction.users@).contains(user@) {
            let j = choose|j: int| 0 <= j < strings_view(reaction.users@).len() && strings_view(reaction.users@)[j] == user@;
            assert(reaction.users@[j]@ == user@);
        }
    }
    false
}

/// The users of a reaction other than `user`.
fn users_without(users: &Vec<String>, user: &str) -> (r: Vec<String>)
    ensures
        strings_view(r@) == without(strings_view(users@), user@),
{
    let mut r: Vec<String> = Vec::new();
    for i in 0..users.len()
        invariant
            strings_view(r@) == without(strings_view(users@.take(i as int)), user@),
    {
        let ghost prev = strings_view(users@.take(i as int));
        assert(strings_view(users@.take(i + 1)) =~= prev.push(users@[i as int]@));
        assert(strings_view(users@.take(i + 1)).drop_last() =~= prev);
        if !crate::text::str_eq(users[i].as_str(), user) {
            r.push(users[i].clone());
            assert(strings_view(r@) =~= without(strings_view(users@.take(i as int)), user@).push(users@[i as int]@));
        }
    }
    assert(users@.take(users.len() as int) =~= users@);
    r
}

/// Index of the first reaction named `name`.
fn position_of(reactions: &Vec<Reaction>, name: &str) -> (r: usize)
    ensures
        r == find_reaction(reactions_view(reactions@), name@),
        r <= reactions@.len(),
{
    let mut i: usize = 0;
    while i < reactions.len()
        invariant
            i <= reactions@.len(),
            forall|k: int| 0 <= k < i ==> (#[trigger] reactions_view(reactions@)[k]).name != name@,
        decreases reactions.len() - i,
    {
        if crate::text::str_eq(reactions[i].name.as_str(), name) {
            proof {
                lemma_find_reaction(reactions_view(reactions@), name@, i as int);
            }
            return i;
        }
        i = i + 1;
    }
    proof {
        lemma_find_reaction(reactions_view(reactions@), name@, i as int);
    }
    i
}

/// Applies a realtime `reaction_added`/`reaction_removed` event to a message.
/// Returns whether the message changed.
pub fn apply_message_reaction(msg: &mut Message, user: &str, name: &str, added: bool) -> (changed: bool)
    ensures
        reactions_view(final(msg).reactions@) == reacted(
            reactions_view(old(msg).reactions@),
            user@,
            name@,
            added,
        ).0,
        changed == reacted(reactions_view(old(msg).reactions@), user@, name@, added).1,
        *final(msg) == (Message { reactions: final(msg).reactions, ..*old(msg) }),
{
    let ghost s = reactions_view(msg.reactions@);
    if name.unicode_len() == 0 {
        return false;
    }
    let i = position_of(&msg.reactions, name);
    if added {
        if i < msg.reactions.len() {
            if reaction_has_user(&msg.reactions[i], user) {
                return false;
            }
            let mut r = msg.reactions.remove(i);
            let ghost old_r = r@;
            assert(old_r == s[i as int]);
            if user.unicode_len() > 0 {
                r.users.push(crate::text::owned(user));
                assert(strings_view(r.users@) =~= old_r.users.push(user@));
            }
            r.count = r.count.saturating_add(1);
            msg.reactions.insert(i, r);
            assert(reactions_view(msg.reactions@) =~= reacted(s, user@, name@, added).0);
            return true;
        }
        let users: Vec<String> = if user.unicode_len() > 0 {
            let mut u: Vec<String> = Vec::new();
            u.push(crate::text::owned(user));
            assert(strings_view(u@) =~= seq![user@]);
            u
        } else {
            let u: Vec<String> = Vec::new();
            assert(strings_view(u@) =~= Seq::<Seq<char>>::empty());
            u
        };
        let extra: JsonMap = Vec::new();
        msg.reactions.push(Reaction { name: crate::text::owned(name), users, count: 1, extra });
        assert(crate::models::map_model(extra@) =~= Seq::empty());
        assert(reactions_view(msg.reactions@) =~= reacted(s, user@, name@, added).0);
        return true;
    }
    if i == msg.reactions.len() {
        return false;
    }
    let mut r = msg.reactions.remove(i);
    let ghost old_r = r@;
    assert(old_r == s[i as int]);
    let kept = users_without(&r.users, user);
    let before = r.users.len();
    let removed_known_user = before != kept.len();
    r.users = kept;
    if removed_known_user || r.users.len() == 0 {
        r.count = r.count.saturating_sub(1);
    }
    if r.count == 0 {
        assert(reactions_view(msg.reactions@) =~= s.remove(i as int));
    } else {
        msg.reactions.insert(i, r);
        assert(reactions_view(msg.reactions@) =~= s.update(
            i as int,
            ReactionModel { users: without(old_r.users, user@), count: r.count, ..old_r },
        ));
    }
    true
}

/// Adding a reaction for a user who had not reacted, then removing it again,
/// gives back the reactions the message started with (for an existing
/// reaction, one whose count is positive and below its maximum).
pub proof fn law_add_then_remove_restores(s: Seq<ReactionModel>, user: Seq<char>, name: Seq<char>)
    requires
        user.len() > 0,
        name.len() > 0,
        find_reaction(s, name) < s.len() ==> !s[find_reaction(s, name) as int].users.contains(user)
            && 0 < s[find_reaction(s, name) as int].count < u32::MAX,
    ensures
        reacted(reacted(s, user, name, true).0, user, name, false).0 == s,
{
    let i = find_reaction(s, name) as int;
    let t = reacted(s, user, name, true).0;
    lemma_find_reaction_bound(s, name);
    if i < s.len() {
        let r = s[i];
        assert(find_reaction(t, name) == i) by {
            lemma_find_reaction_stable(s, name, i);
        }
        let u = t[i].users;
        assert(u == r.users.push(user));
        assert(u.drop_last() == r.users);
        lemma_without_absent(r.users, user);
        assert(without(u, user) == r.users);
        assert(u.contains(user)) by {
            assert(u[u.len() - 1] == user);
        }
        lemma_without_len(u, user);
        assert(t[i].count == r.count + 1);
        assert(reacted(t, user, name, false).0 == t.update(i, ReactionModel { users: r.users, count: r.count, ..t[i] }));
        assert(t.update(i, ReactionModel { users: r.users, count: r.count, ..t[i] }) =~= s);
    } else {
        assert(find_reaction(t, name) == s.len()) by {
            assert forall|k: int| 0 <= k < s.len() implies (#[trigger] t[k]).name != name by {
                lemma_find_reaction_bound(s, name);
            }
            lemma_find_reaction(t, name, s.len() as int);
        }
        let u = seq![user];
        assert(u.drop_last() =~= Seq::<Seq<char>>::empty());
        assert(u.last() == user);
        assert(without(u.drop_last(), user) =~= Seq::<Seq<char>>::empty());
        assert(without(u, user) =~= Seq::<Seq<char>>::empty());
        assert(t.remove(s.len() as int) =~= s);
    }
}

proof fn lemma_find_reaction_bound(s: Seq<ReactionModel>, name: Seq<char>)
    ensures
        find_reaction(s, name) <= s.len(),
        find_reaction(s, name) < s.len() ==> s[find_reaction(s, name) as int].name == name,
        forall|k: int| 0 <= k < find_reaction(s, name) ==> (#[trigger] s[k]).name != name,
    decreases s.len(),
{
    if s.len() > 0 && s[0].name != name {
        lemma_find_reaction_bound(s.drop_first(), name);
        assert forall|k: int| 0 <= k < find_reaction(s, name) implies (#[trigger] s[k]).name != name by {
            if k > 0 {
                assert(s[k] == s.drop_first()[k - 1]);
            }
        }
    }
}

proof fn lemma_find_reaction_stable(s: Seq<ReactionModel>, name: Seq<char>, i: int)
    requires
        i == find_reaction(s, name),
        i < s.len(),
    ensures
        forall|r: ReactionModel| r.name == name ==> find_reaction(s.update(i, r), name) == i,
{
    lemma_find_reaction_bound(s, name);
    assert forall|r: ReactionModel| r.name == name implies find_reaction(s.update(i, r), name) == i by {
        lemma_find_reaction(s.update(i, r), name, i);
    }
}

/// Adding the same user's reaction twice changes the message only once.
pub proof fn law_add_is_idempotent(s: Seq<ReactionModel>, user: Seq<char>, name: Seq<char>)
    requires
        user.len() > 0,
        name.len() > 0,
    ensures
        reacted(reacted(s, user, name, true).0, user, name, true).0 == reacted(s, user, name, true).0,
        !reacted(reacted(s, user, name, true).0, user, name, true).1,
{
    let i = find_reaction(s, name) as int;
    let t = reacted(s, user, name, true).0;
    lemma_find_reaction_bound(s, name);
    if i < s.len() {
        if !has_user(s[i], user) {
            lemma_find_reaction_stable(s, name, i);
            assert(t[i].users[t[i].users.len() - 1] == user);
        }
    } else {
        assert forall|k: int| 0 <= k < s.len() implies (#[trigger] t[k]).name != name by {}
        lemma_find_reaction(t, name, s.len() as int);
        assert(t[s.len() as int].users[0] == user);
    }
}

} // verus!
