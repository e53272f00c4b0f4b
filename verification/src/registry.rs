//! Server-side session registries: the bidirectional user-to-avatar and
//! user-to-name mappings.
//!
//! Each registry owns both directions of its mapping as a single list of
//! pairs with unique keys on either side, and exposes only
//! consistency-preserving operations: no caller can ever mutate one
//! direction alone, so a key present on one side always has exactly one
//! reciprocal key on the other, and removal is transactional on both.

use vstd::prelude::*;

verus! {

/// Key of the one shared room every connected player joins.
pub struct MainRoomKey(pub u64);

/// Some pair of `s` is exactly `(u, a)`.
pub open spec fn pairs_map(s: Seq<(u64, u64)>, u: u64, a: u64) -> bool {
    exists|k: int| 0 <= k < s.len() && s[k] == (u, a)
}

/// Some pair of `s` has `u` on the left.
pub open spec fn pairs_has_left(s: Seq<(u64, u64)>, u: u64) -> bool {
    exists|k: int| 0 <= k < s.len() && s[k].0 == u
}

/// Some pair of `s` has `a` on the right.
pub open spec fn pairs_has_right(s: Seq<(u64, u64)>, a: u64) -> bool {
    exists|k: int| 0 <= k < s.len() && s[k].1 == a
}

/// Both columns of `s` are duplicate-free.
pub open spec fn pairs_unique(s: Seq<(u64, u64)>) -> bool {
    forall|i: int, j: int| 0 <= i < j < s.len() ==> s[i].0 != s[j].0 && s[i].1 != s[j].1
}

/// Bidirectional user-to-avatar mapping.
pub struct UserAvatarMapping {
    pairs: Vec<(u64, u64)>,
}

impl View for UserAvatarMapping {
    type V = Seq<(u64, u64)>;

    closed spec fn view(&self) -> Seq<(u64, u64)> {
        self.pairs@
    }
}

impl UserAvatarMapping {
    /// Both key columns are duplicate-free.
    pub open spec fn wf(self) -> bool {
        pairs_unique(self@)
    }

    /// `user` is mapped to `avatar`.
    pub open spec fn maps(self, user: u64, avatar: u64) -> bool {
        pairs_map(self@, user, avatar)
    }

    /// `user` is present (on the user side).
    pub open spec fn has_user(self, user: u64) -> bool {
        pairs_has_left(self@, user)
    }

    /// `avatar` is present (on the avatar side).
    pub open spec fn has_avatar(self, avatar: u64) -> bool {
        pairs_has_right(self@, avatar)
    }

    /// An empty registry.
    pub fn new() -> (m: Self)
        ensures
            m@ == Seq::<(u64, u64)>::empty(),
            m.wf(),
    {
        UserAvatarMapping { pairs: Vec::new() }
    }

    /// Registers `user <-> avatar_entity` in both directions at once,
    /// first dropping any stale pair that shares either key.
    pub fn insert(&mut self, user: u64, avatar_entity: u64)
        requires
            old(self).wf(),
        ensures
            final(self).wf(),
            final(self).maps(user, avatar_entity),
            forall|u: u64, a: u64|
                #[trigger] pairs_map(final(self)@, u, a) <==> ((u == user && a == avatar_entity)
                    || (pairs_map(old(self)@, u, a) && u != user && a != avatar_entity)),
    {
        self.remove_by_user(&user);
        self.remove_by_entity(&avatar_entity);
        let ghost m2 = *self;
        self.pairs.push((user, avatar_entity));
        proof {
            assert(self@ == m2@.push((user, avatar_entity)));
            assert(self@[self@.len() - 1] == (user, avatar_entity));
            assert forall|u: u64, a: u64| #[trigger] pairs_map(self@, u, a) implies ((u == user
                && a == avatar_entity) || (pairs_map(old(self)@, u, a) && u != user && a
                != avatar_entity)) by {
                let i = choose|i: int| 0 <= i < self@.len() && self@[i] == (u, a);
                if i < self@.len() - 1 {
                    assert(m2@[i] == (u, a));
                    assert(pairs_map(m2@, u, a));
                }
            }
            assert forall|u: u64, a: u64|
                ((u == user && a == avatar_entity) || (pairs_map(old(self)@, u, a) && u != user
                    && a != avatar_entity)) implies #[trigger] pairs_map(self@, u, a) by {
                if u == user && a == avatar_entity {
                    assert(self@[self@.len() - 1] == (u, a));
                } else {
                    assert(pairs_map(m2@, u, a));
                    let i = choose|i: int| 0 <= i < m2@.len() && m2@[i] == (u, a);
                    assert(self@[i] == (u, a));
                }
            }
            assert forall|p: int, q: int| 0 <= p < q < self@.len() implies self@[p].0
                != self@[q].0 && self@[p].1 != self@[q].1 by {
                if q == self@.len() - 1 {
                    assert(m2@[p] == self@[p]);
                    if self@[p].0 == user {
                        assert(pairs_map(m2@, user, m2@[p].1));
                    }
                    if self@[p].1 == avatar_entity {
                        assert(pairs_has_right(m2@, avatar_entity));
                    }
                } else {
                    assert(m2@[p] == self@[p]);
                    assert(m2@[q] == self@[q]);
                }
            }
        }
    }

    /// Looks up the avatar of `user`; `None` when the user is absent.
    pub fn get_by_user(&self, user: &u64) -> (r: Option<u64>)
        ensures
            r is Some ==> self.maps(*user, r->Some_0),
            r is None ==> !self.has_user(*user),
    {
        let n = self.pairs.len();
        let mut i: usize = 0;
        while i < n
            invariant
                n == self@.len(),
                i <= n,
                forall|k: int| 0 <= k < i ==> self@[k].0 != *user,
            decreases n - i,
        {
            if self.pairs[i].0 == *user {
                return Some(self.pairs[i].1);
            }
            i += 1;
        }
        None
    }

    /// Looks up the user of `avatar`; `None` when the avatar is absent.
    pub fn get_by_entity(&self, avatar: &u64) -> (r: Option<u64>)
        ensures
            r is Some ==> self.maps(r->Some_0, *avatar),
            r is None ==> !self.has_avatar(*avatar),
    {
        let n = self.pairs.len();
        let mut i: usize = 0;
        while i < n
            invariant
                n == self@.len(),
                i <= n,
                forall|k: int| 0 <= k < i ==> self@[k].1 != *avatar,
            decreases n - i,
        {
            if self.pairs[i].1 == *avatar {
                return Some(self.pairs[i].0);
            }
            i += 1;
        }
        None
    }

    /// Removes `user` from both directions at once; afterwards neither
    /// side retains a trace of the pair.
    pub fn remove_by_user(&mut self, user: &u64)
        requires
            old(self).wf(),
        ensures
            final(self).wf(),
            forall|u: u64, a: u64|
                #[trigger] pairs_map(final(self)@, u, a) <==> (pairs_map(old(self)@, u, a) && u
                    != *user),
            !final(self).has_user(*user),
            forall|a: u64|
                #[trigger] pairs_map(old(self)@, *user, a) ==> !pairs_has_right(final(self)@, a),
    {
        let ghost s0 = self@;
        let n = self.pairs.len();
        let mut i: usize = 0;
        while i < n
            invariant
                self@ == s0,
                s0 == old(self)@,
                pairs_unique(s0),
                n == s0.len(),
                i <= n,
                forall|k: int| 0 <= k < i ==> s0[k].0 != *user,
            decreases n - i,
        {
            if self.pairs[i].0 == *user {
                self.pairs.remove(i);
                proof {
                    lemma_removed_left(s0, self@, i as int, *user);
                }
                return;
            }
            i += 1;
        }
        proof {
            assert forall|u: u64, a: u64| #[trigger] pairs_map(self@, u, a) implies u
                != *user by {
                let k = choose|k: int| 0 <= k < self@.len() && self@[k] == (u, a);
            }
        }
    }

    /// Removes `avatar` from both directions at once.
    pub fn remove_by_entity(&mut self, avatar: &u64)
        requires
            old(self).wf(),
        ensures
            final(self).wf(),
            forall|u: u64, a: u64|
                #[trigger] pairs_map(final(self)@, u, a) <==> (pairs_map(old(self)@, u, a) && a
                    != *avatar),
            !final(self).has_avatar(*avatar),
            forall|u: u64|
                #[trigger] pairs_map(old(self)@, u, *avatar) ==> !pairs_has_left(final(self)@, u),
    {
        let ghost s0 = self@;
        let n = self.pairs.len();
        let mut i: usize = 0;
        while i < n
            invariant
                self@ == s0,
                s0 == old(self)@,
                pairs_unique(s0),
                n == s0.len(),
                i <= n,
                forall|k: int| 0 <= k < i ==> s0[k].1 != *avatar,
            decreases n - i,
        {
            if self.pairs[i].1 == *avatar {
                self.pairs.remove(i);
                proof {
                    lemma_removed_right(s0, self@, i as int, *avatar);
                }
                return;
            }
            i += 1;
        }
        proof {
            assert forall|u: u64, a: u64| #[trigger] pairs_map(self@, u, a) implies a
                != *avatar by {
                let k = choose|k: int| 0 <= k < self@.len() && self@[k] == (u, a);
            }
        }
    }
}

/// After removing index `i`, whose pair held `user` on the left, from a
/// duplicate-free pair list, the mapping loses exactly that user's pair.
proof fn lemma_removed_left(s0: Seq<(u64, u64)>, s1: Seq<(u64, u64)>, i: int, user: u64)
    requires
        0 <= i < s0.len(),
        s1 == s0.remove(i),
        s0[i].0 == user,
        pairs_unique(s0),
    ensures
        pairs_unique(s1),
        forall|u: u64, a: u64|
            #[trigger] pairs_map(s1, u, a) <==> (pairs_map(s0, u, a) && u != user),
        !pairs_has_left(s1, user),
        forall|a: u64| #[trigger] pairs_map(s0, user, a) ==> !pairs_has_right(s1, a),
{
    assert forall|k: int| 0 <= k < s1.len() implies s1[k] == (if k < i {
        s0[k]
    } else {
        s0[k + 1]
    }) by {}
    assert forall|u: u64, a: u64| #[trigger] pairs_map(s1, u, a) implies (pairs_map(s0, u, a) && u
        != user) by {
        let k = choose|k: int| 0 <= k < s1.len() && s1[k] == (u, a);
        let k0 = if k < i {
            k
        } else {
            k + 1
        };
        assert(s0[k0] == (u, a));
        if u == user {
            assert(s0[k0].0 == s0[i].0);
        }
    }
    assert forall|u: u64, a: u64| pairs_map(s0, u, a) && u != user implies #[trigger] pairs_map(
        s1,
        u,
        a,
    ) by {
        let k0 = choose|k: int| 0 <= k < s0.len() && s0[k] == (u, a);
        let k = if k0 < i {
            k0
        } else {
            k0 - 1
        };
        assert(s1[k] == (u, a));
    }
    assert forall|k: int| 0 <= k < s1.len() implies s1[k].0 != user by {}
    assert forall|a: u64| #[trigger] pairs_map(s0, user, a) implies !pairs_has_right(s1, a) by {
        let k0 = choose|k: int| 0 <= k < s0.len() && s0[k] == (user, a);
        assert(k0 == i);
        assert forall|k: int| 0 <= k < s1.len() implies s1[k].1 != a by {}
    }
}

/// After removing index `i`, whose pair held `avatar` on the right, from a
/// duplicate-free pair list, the mapping loses exactly that avatar's pair.
proof fn lemma_removed_right(s0: Seq<(u64, u64)>, s1: Seq<(u64, u64)>, i: int, avatar: u64)
    requires
        0 <= i < s0.len(),
        s1 == s0.remove(i),
        s0[i].1 == avatar,
        pairs_unique(s0),
    ensures
        pairs_unique(s1),
        forall|u: u64, a: u64|
            #[trigger] pairs_map(s1, u, a) <==> (pairs_map(s0, u, a) && a != avatar),
        !pairs_has_right(s1, avatar),
        forall|u: u64| #[trigger] pairs_map(s0, u, avatar) ==> !pairs_has_left(s1, u),
{
    assert forall|k: int| 0 <= k < s1.len() implies s1[k] == (if k < i {
        s0[k]
    } else {
        s0[k + 1]
    }) by {}
    assert forall|u: u64, a: u64| #[trigger] pairs_map(s1, u, a) implies (pairs_map(s0, u, a) && a
        != avatar) by {
        let k = choose|k: int| 0 <= k < s1.len() && s1[k] == (u, a);
        let k0 = if k < i {
            k
        } else {
            k + 1
        };
        assert(s0[k0] == (u, a));
        if a == avatar {
            assert(s0[k0].1 == s0[i].1);
        }
    }
    assert forall|u: u64, a: u64| pairs_map(s0, u, a) && a != avatar implies #[trigger] pairs_map(
        s1,
        u,
        a,
    ) by {
        let k0 = choose|k: int| 0 <= k < s0.len() && s0[k] == (u, a);
        let k = if k0 < i {
            k0
        } else {
            k0 - 1
        };
        assert(s1[k] == (u, a));
    }
    assert forall|k: int| 0 <= k < s1.len() implies s1[k].1 != avatar by {}
    assert forall|u: u64| #[trigger] pairs_map(s0, u, avatar) implies !pairs_has_left(s1, u) by {
        let k0 = choose|k: int| 0 <= k < s0.len() && s0[k] == (u, avatar);
        assert(k0 == i);
        assert forall|k: int| 0 <= k < s1.len() implies s1[k].0 != u by {}
    }
}

/// Registry consistency: in a well-formed user-to-avatar registry every
/// user present on one side has exactly one reciprocal key on the other
/// side, and vice versa.
pub proof fn lemma_registry_consistent(m: UserAvatarMapping)
    requires
        m.wf(),
    ensures
        forall|u: u64| #[trigger] m.has_user(u) ==> exists|a: u64| m.maps(u, a) && m.has_avatar(a),
        forall|a: u64| #[trigger] m.has_avatar(a) ==> exists|u: u64| m.maps(u, a) && m.has_user(u),
        forall|u: u64, a1: u64, a2: u64|
            m.maps(u, a1) && m.maps(u, a2) ==> a1 == a2,
        forall|u1: u64, u2: u64, a: u64|
            m.maps(u1, a) && m.maps(u2, a) ==> u1 == u2,
{
    assert forall|u: u64| #[trigger] m.has_user(u) implies exists|a: u64| m.maps(u, a)
        && m.has_avatar(a) by {
        let i = choose|i: int| 0 <= i < m@.len() && m@[i].0 == u;
        assert(m@[i] == (u, m@[i].1));
        assert(m.maps(u, m@[i].1) && m.has_avatar(m@[i].1));
    }
    assert forall|a: u64| #[trigger] m.has_avatar(a) implies exists|u: u64| m.maps(u, a)
        && m.has_user(u) by {
        let i = choose|i: int| 0 <= i < m@.len() && m@[i].1 == a;
        assert(m@[i] == (m@[i].0, a));
        assert(m.maps(m@[i].0, a) && m.has_user(m@[i].0));
    }
    assert forall|u: u64, a1: u64, a2: u64| m.maps(u, a1) && m.maps(u, a2) implies a1 == a2 by {
        let i = choose|i: int| 0 <= i < m@.len() && m@[i] == (u, a1);
        let j = choose|j: int| 0 <= j < m@.len() && m@[j] == (u, a2);
        if i < j {
            assert(m@[i].0 != m@[j].0);
        } else if j < i {
            assert(m@[j].0 != m@[i].0);
        }
    }
    assert forall|u1: u64, u2: u64, a: u64| m.maps(u1, a) && m.maps(u2, a) implies u1 == u2 by {
        let i = choose|i: int| 0 <= i < m@.len() && m@[i] == (u1, a);
        let j = choose|j: int| 0 <= j < m@.len() && m@[j] == (u2, a);
        if i < j {
            assert(m@[i].1 != m@[j].1);
        } else if j < i {
            assert(m@[j].1 != m@[i].1);
        }
    }
}

/// Some pair of `s` maps `u` to a name reading `n`.
pub open spec fn name_pairs_map(s: Seq<(u64, String)>, u: u64, n: Seq<char>) -> bool {
    exists|k: int| 0 <= k < s.len() && s[k].0 == u && s[k].1@ == n
}

/// Some pair of `s` has `u` on the user side.
pub open spec fn name_pairs_has_user(s: Seq<(u64, String)>, u: u64) -> bool {
    exists|k: int| 0 <= k < s.len() && s[k].0 == u
}

/// Some pair of `s` has a name reading `n`.
pub open spec fn name_pairs_has_name(s: Seq<(u64, String)>, n: Seq<char>) -> bool {
    exists|k: int| 0 <= k < s.len() && s[k].1@ == n
}

/// Users and names of `s` are duplicate-free.
pub open spec fn name_pairs_unique(s: Seq<(u64, String)>) -> bool {
    forall|i: int, j: int| 0 <= i < j < s.len() ==> s[i].0 != s[j].0 && s[i].1@ != s[j].1@
}

/// Bidirectional user-to-display-name mapping.
pub struct UserNameMapping {
    pairs: Vec<(u64, String)>,
}

impl View for UserNameMapping {
    type V = Seq<(u64, String)>;

    closed spec fn view(&self) -> Seq<(u64, String)> {
        self.pairs@
    }
}

impl UserNameMapping {
    /// Both key columns are duplicate-free.
    pub open spec fn wf(self) -> bool {
        name_pairs_unique(self@)
    }

    /// `user` is mapped to a name reading `name`.
    pub open spec fn maps(self, user: u64, name: Seq<char>) -> bool {
        name_pairs_map(self@, user, name)
    }

    /// `user` is present (on the user side).
    pub open spec fn has_user(self, user: u64) -> bool {
        name_pairs_has_user(self@, user)
    }

    /// A name reading `name` is present (on the name side).
    pub open spec fn has_name(self, name: Seq<char>) -> bool {
        name_pairs_has_name(self@, name)
    }

    /// An empty registry.
    pub fn new() -> (m: Self)
        ensures
            m@ == Seq::<(u64, String)>::empty(),
            m.wf(),
    {
        UserNameMapping { pairs: Vec::new() }
    }

    /// Number of registered sessions.
    pub fn len(&self) -> (n: usize)
        ensures
            n == self@.len(),
    {
        self.pairs.len()
    }

    /// Registers `user <-> name` in both directions at once, first
    /// dropping any stale pair that shares either key.
    pub fn insert(&mut self, user: u64, name: String)
        requires
            old(self).wf(),
        ensures
            final(self).wf(),
            final(self).maps(user, name@),
            forall|u: u64, n: Seq<char>|
                #[trigger] name_pairs_map(final(self)@, u, n) <==> ((u == user && n == name@) || (
                name_pairs_map(old(self)@, u, n) && u != user && n != name@)),
    {
        let ghost nview = name@;
        self.remove_by_user(&user);
        let ghost m1 = *self;
        self.remove_by_name(&name);
        let ghost m2 = *self;
        self.pairs.push((user, name));
        proof {
            let last = self@.len() - 1;
            assert(self@[last].0 == user && self@[last].1@ == nview);
            assert forall|u: u64, n: Seq<char>| #[trigger] name_pairs_map(self@, u, n) implies ((u
                == user && n == nview) || (name_pairs_map(old(self)@, u, n) && u != user && n
                != nview)) by {
                let i = choose|i: int| 0 <= i < self@.len() && self@[i].0 == u && self@[i].1@ == n;
                if i < last {
                    assert(m2@[i] == self@[i]);
                    assert(name_pairs_map(m2@, u, n));
                }
            }
            assert forall|u: u64, n: Seq<char>|
                ((u == user && n == nview) || (name_pairs_map(old(self)@, u, n) && u != user && n
                    != nview)) implies #[trigger] name_pairs_map(self@, u, n) by {
                if u == user && n == nview {
                    assert(self@[last].0 == u && self@[last].1@ == n);
                } else {
                    assert(name_pairs_map(m1@, u, n));
                    assert(name_pairs_map(m2@, u, n));
                    let i = choose|i: int| 0 <= i < m2@.len() && m2@[i].0 == u && m2@[i].1@ == n;
                    assert(self@[i] == m2@[i]);
                }
            }
            assert forall|p: int, q: int| 0 <= p < q < self@.len() implies self@[p].0
                != self@[q].0 && self@[p].1@ != self@[q].1@ by {
                if q == last {
                    assert(m2@[p] == self@[p]);
                    if self@[p].0 == user {
                        assert(name_pairs_map(m2@, user, m2@[p].1@));
                        assert(name_pairs_map(m1@, user, m2@[p].1@));
                        let k = choose|k: int|
                            0 <= k < m1@.len() && m1@[k].0 == user && m1@[k].1@ == m2@[p].1@;
                        assert(name_pairs_has_user(m1@, user));
                    }
                    if self@[p].1@ == nview {
                        assert(name_pairs_has_name(m2@, nview));
                    }
                } else {
                    assert(m2@[p] == self@[p]);
                    assert(m2@[q] == self@[q]);
                }
            }
        }
    }

    /// Looks up the name of `user`; `None` when the user is absent.
    pub fn get_by_user(&self, user: &u64) -> (r: Option<String>)
        ensures
            r is Some ==> self.maps(*user, r->Some_0@),
            r is None ==> !self.has_user(*user),
    {
        let n = self.pairs.len();
        let mut i: usize = 0;
        while i < n
            invariant
                n == self@.len(),
                i <= n,
                forall|k: int| 0 <= k < i ==> self@[k].0 != *user,
            decreases n - i,
        {
            let p = &self.pairs[i];
            if p.0 == *user {
                return Some(p.1.clone());
            }
            i += 1;
        }
        None
    }

    /// Looks up the user of `name`; `None` when the name is absent.
    pub fn get_by_name(&self, name: &String) -> (r: Option<u64>)
        ensures
            r is Some ==> self.maps(r->Some_0, name@),
            r is None ==> !self.has_name(name@),
    {
        let n = self.pairs.len();
        let mut i: usize = 0;
        while i < n
            invariant
                n == self@.len(),
                i <= n,
                forall|k: int| 0 <= k < i ==> self@[k].1@ != name@,
            decreases n - i,
        {
            let p = &self.pairs[i];
            if p.1 == *name {
                return Some(p.0);
            }
            i += 1;
        }
        None
    }

    /// Removes `user` from both directions at once; afterwards neither
    /// side retains a trace of the pair.
    pub fn remove_by_user(&mut self, user: &u64)
        requires
            old(self).wf(),
        ensures
            final(self).wf(),
            forall|u: u64, n: Seq<char>|
                #[trigger] name_pairs_map(final(self)@, u, n) <==> (name_pairs_map(
                    old(self)@,
                    u,
                    n,
                ) && u != *user),
            !final(self).has_user(*user),
            forall|n: Seq<char>|
                #[trigger] name_pairs_map(old(self)@, *user, n) ==> !name_pairs_has_name(
                    final(self)@,
                    n,
                ),
    {
        let ghost s0 = self@;
        let n = self.pairs.len();
        let mut i: usize = 0;
        while i < n
            invariant
                self@ == s0,
                s0 == old(self)@,
                name_pairs_unique(s0),
                n == s0.len(),
                i <= n,
                forall|k: int| 0 <= k < i ==> s0[k].0 != *user,
            decreases n - i,
        {
            if self.pairs[i].0 == *user {
                self.pairs.remove(i);
                proof {
                    lemma_name_removed(s0, self@, i as int);
                    assert forall|k: int| 0 <= k < self@.len() implies self@[k].0 != *user by {}
                    assert forall|nm: Seq<char>|
                        #[trigger] name_pairs_map(s0, *user, nm) implies !name_pairs_has_name(
                        self@,
                        nm,
                    ) by {
                        let k0 = choose|k: int| 0 <= k < s0.len() && s0[k].0 == *user && s0[k].1@
                            == nm;
                        assert(k0 == i);
                        assert forall|k: int| 0 <= k < self@.len() implies self@[k].1@ != nm by {}
                    }
                }
                return;
            }
            i += 1;
        }
        proof {
            assert forall|u: u64, nm: Seq<char>| #[trigger] name_pairs_map(self@, u, nm) implies u
                != *user by {
                let k = choose|k: int| 0 <= k < self@.len() && self@[k].0 == u && self@[k].1@
                    == nm;
            }
        }
    }

    /// Removes the pair whose name reads like `name` from both directions
    /// at once.
    pub fn remove_by_name(&mut self, name: &String)
        requires
            old(self).wf(),
        ensures
            final(self).wf(),
            forall|u: u64, n: Seq<char>|
                #[trigger] name_pairs_map(final(self)@, u, n) <==> (name_pairs_map(
                    old(self)@,
                    u,
                    n,
                ) && n != name@),
            !final(self).has_name(name@),
            forall|u: u64|
                #[trigger] name_pairs_map(old(self)@, u, name@) ==> !name_pairs_has_user(
                    final(self)@,
                    u,
                ),
    {
        let ghost s0 = self@;
        let n = self.pairs.len();
        let mut i: usize = 0;
        while i < n
            invariant
                self@ == s0,
                s0 == old(self)@,
                name_pairs_unique(s0),
                n == s0.len(),
                i <= n,
                forall|k: int| 0 <= k < i ==> s0[k].1@ != name@,
            decreases n - i,
        {
            if self.pairs[i].1 == *name {
                self.pairs.remove(i);
                proof {
                    lemma_name_removed(s0, self@, i as int);
                    assert forall|k: int| 0 <= k < self@.len() implies self@[k].1@ != name@ by {}
                    assert forall|u: u64|
                        #[trigger] name_pairs_map(s0, u, name@) implies !name_pairs_has_user(
                        self@,
                        u,
                    ) by {
                        let k0 = choose|k: int| 0 <= k < s0.len() && s0[k].0 == u && s0[k].1@
                            == name@;
                        assert(k0 == i);
                        assert forall|k: int| 0 <= k < self@.len() implies self@[k].0 != u by {}
                    }
                }
                return;
            }
            i += 1;
        }
        proof {
            assert forall|u: u64, nm: Seq<char>| #[trigger] name_pairs_map(self@, u, nm) implies nm
                != name@ by {
                let k = choose|k: int| 0 <= k < self@.len() && self@[k].0 == u && self@[k].1@
                    == nm;
            }
        }
    }
}

/// Removing one index from a duplicate-free user/name pair list keeps it
/// duplicate-free and drops exactly that pair from the mapping.
proof fn lemma_name_removed(s0: Seq<(u64, String)>, s1: Seq<(u64, String)>, i: int)
    requires
        0 <= i < s0.len(),
        s1 == s0.remove(i),
        name_pairs_unique(s0),
    ensures
        name_pairs_unique(s1),
        forall|u: u64, n: Seq<char>|
            #[trigger] name_pairs_map(s1, u, n) <==> (name_pairs_map(s0, u, n) && !(u == s0[i].0
                && n == s0[i].1@)),
{
    assert forall|k: int| 0 <= k < s1.len() implies s1[k] == (if k < i {
        s0[k]
    } else {
        s0[k + 1]
    }) by {}
    assert forall|u: u64, n: Seq<char>| #[trigger] name_pairs_map(s1, u, n) implies (
    name_pairs_map(s0, u, n) && !(u == s0[i].0 && n == s0[i].1@)) by {
        let k = choose|k: int| 0 <= k < s1.len() && s1[k].0 == u && s1[k].1@ == n;
        let k0 = if k < i {
            k
        } else {
            k + 1
        };
        assert(s0[k0].0 == u && s0[k0].1@ == n);
        if u == s0[i].0 {
            if k0 < i {
                assert(s0[k0].0 != s0[i].0);
            } else {
                assert(s0[i].0 != s0[k0].0);
            }
        }
    }
    assert forall|u: u64, n: Seq<char>|
        name_pairs_map(s0, u, n) && !(u == s0[i].0 && n == s0[i].1@) implies
        #[trigger] name_pairs_map(s1, u, n) by {
        let k0 = choose|k: int| 0 <= k < s0.len() && s0[k].0 == u && s0[k].1@ == n;
        assert(k0 != i);
        let k = if k0 < i {
            k0
        } else {
            k0 - 1
        };
        assert(s1[k].0 == u && s1[k].1@ == n);
    }
}

} // verus!
